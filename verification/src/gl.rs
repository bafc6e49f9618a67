//! General-ledger lines, balance sums and the posting templates of the journal
//! (OMFP 1802/2014): issued and received invoices, customer and supplier payments.
//!
//! Every template returns the lines of one journal; each is proved balanced
//! (Σ debit = Σ credit) whenever it returns lines.

use vstd::prelude::*;
use crate::decimal::{
    Dec, pow10, lemma_val_sign, dec_add, dec_sub, spec_dec_add, spec_dec_sub, lemma_spec_add,
    lemma_zero_val, spec_dec_neg, lemma_add_neg, lemma_neg_val,
};
use crate::text::{owned, str_eq, trim, spec_trim, concat_str};

verus! {

/// VAT detail carried by a tax-bearing line (tax type 300).
#[derive(Clone, Debug)]
pub struct TaxTag {
    pub category: String,
    pub rate: Dec,
    pub base: Option<Dec>,
    pub amount: Option<Dec>,
}

/// One line of a journal: an account, a debit, a credit and, for the partner accounts, the
/// partner's CUI.
#[derive(Clone, Debug)]
pub struct GlLine {
    pub account: String,
    pub debit: Dec,
    pub credit: Dec,
    pub partner_cui: Option<String>,
    pub tax: Option<TaxTag>,
}

pub struct TaxTagView {
    pub category: Seq<char>,
    pub rate: Dec,
    pub base: Option<Dec>,
    pub amount: Option<Dec>,
}

pub struct GlLineView {
    pub account: Seq<char>,
    pub debit: Dec,
    pub credit: Dec,
    pub partner_cui: Option<Seq<char>>,
    pub tax: Option<TaxTagView>,
}

pub open spec fn opt_str_view(s: Option<String>) -> Option<Seq<char>> {
    match s {
        Some(x) => Some(x@),
        None => None,
    }
}

impl View for TaxTag {
    type V = TaxTagView;

    open spec fn view(&self) -> TaxTagView {
        TaxTagView {
            category: self.category@,
            rate: self.rate,
            base: self.base,
            amount: self.amount,
        }
    }
}

impl View for GlLine {
    type V = GlLineView;

    open spec fn view(&self) -> GlLineView {
        GlLineView {
            account: self.account@,
            debit: self.debit,
            credit: self.credit,
            partner_cui: opt_str_view(self.partner_cui),
            tax: match self.tax {
                Some(t) => Some(t@),
                None => None,
            },
        }
    }
}

impl GlLine {
    pub open spec fn wf(self) -> bool {
        &&& self.debit.wf()
        &&& self.credit.wf()
        &&& (self.tax matches Some(t) ==> t.rate.wf())
    }
}

/// The views of a sequence of lines.
pub open spec fn views(s: Seq<GlLine>) -> Seq<GlLineView> {
    Seq::new(s.len(), |i: int| s[i]@)
}

pub proof fn lemma_views_push(s: Seq<GlLine>, l: GlLine)
    ensures
        views(s.push(l)) == views(s).push(l@),
{
    assert(views(s.push(l)) =~= views(s).push(l@));
}

/// Σ debit of a sequence of lines (in `10^-28` units).
pub open spec fn total_debit(s: Seq<GlLineView>) -> int
    decreases s.len(),
{
    if s.len() == 0 {
        0
    } else {
        total_debit(s.drop_last()) + s.last().debit.val()
    }
}

/// Σ credit of a sequence of lines.
pub open spec fn total_credit(s: Seq<GlLineView>) -> int
    decreases s.len(),
{
    if s.len() == 0 {
        0
    } else {
        total_credit(s.drop_last()) + s.last().credit.val()
    }
}

/// Σ debit = Σ credit.
pub open spec fn balanced(s: Seq<GlLineView>) -> bool {
    total_debit(s) == total_credit(s)
}

/// Σ (debit − credit) over the lines of one account.
pub open spec fn account_net(s: Seq<GlLineView>, account: Seq<char>) -> int
    decreases s.len(),
{
    if s.len() == 0 {
        0
    } else {
        account_net(s.drop_last(), account) + if s.last().account == account {
            s.last().debit.val() - s.last().credit.val()
        } else {
            0
        }
    }
}

/// Σ debit over the lines of one account.
pub open spec fn account_debit(s: Seq<GlLineView>, account: Seq<char>) -> int
    decreases s.len(),
{
    if s.len() == 0 {
        0
    } else {
        account_debit(s.drop_last(), account) + if s.last().account == account { s.last().debit.val() } else { 0 }
    }
}

/// Σ credit over the lines of one account.
pub open spec fn account_credit(s: Seq<GlLineView>, account: Seq<char>) -> int
    decreases s.len(),
{
    if s.len() == 0 {
        0
    } else {
        account_credit(s.drop_last(), account) + if s.last().account == account { s.last().credit.val() } else { 0 }
    }
}

/// An account's debits and credits over two runs of lines add up.
pub proof fn lemma_account_sides_concat(a: Seq<GlLineView>, b: Seq<GlLineView>, acc: Seq<char>)
    ensures
        account_debit(a + b, acc) == account_debit(a, acc) + account_debit(b, acc),
        account_credit(a + b, acc) == account_credit(a, acc) + account_credit(b, acc),
    decreases b.len(),
{
    if b.len() == 0 {
        assert(a + b =~= a);
    } else {
        lemma_account_sides_concat(a, b.drop_last(), acc);
        assert((a + b).drop_last() =~= a + b.drop_last());
        assert((a + b).last() == b.last());
    }
}

/// The debits and credits of an account on one or two lines.
pub proof fn lemma_account_sides_small(s: Seq<GlLineView>, acc: Seq<char>)
    requires
        s.len() <= 3,
    ensures
        account_debit(s, acc) == (if s.len() > 0 && s[0].account == acc { s[0].debit.val() } else { 0 })
            + (if s.len() > 1 && s[1].account == acc { s[1].debit.val() } else { 0 })
            + (if s.len() > 2 && s[2].account == acc { s[2].debit.val() } else { 0 }),
        account_credit(s, acc) == (if s.len() > 0 && s[0].account == acc { s[0].credit.val() } else { 0 })
            + (if s.len() > 1 && s[1].account == acc { s[1].credit.val() } else { 0 })
            + (if s.len() > 2 && s[2].account == acc { s[2].credit.val() } else { 0 }),
{
    reveal_with_fuel(account_debit, 4);
    reveal_with_fuel(account_credit, 4);
    if s.len() >= 1 {
        assert(s.subrange(0, 1).drop_last() =~= Seq::<GlLineView>::empty());
    }
    if s.len() >= 2 {
        assert(s.subrange(0, 2).drop_last() =~= s.subrange(0, 1));
    }
    if s.len() == 3 {
        assert(s.drop_last() =~= s.subrange(0, 2));
        assert(s.subrange(0, 2).drop_last() =~= s.subrange(0, 1));
        assert(s.subrange(0, 1).drop_last() =~= Seq::<GlLineView>::empty());
    } else if s.len() == 2 {
        assert(s.drop_last() =~= s.subrange(0, 1));
        assert(s.subrange(0, 1).drop_last() =~= Seq::<GlLineView>::empty());
    } else if s.len() == 1 {
        assert(s.drop_last() =~= Seq::<GlLineView>::empty());
    }
}

pub proof fn lemma_totals_concat(a: Seq<GlLineView>, b: Seq<GlLineView>)
    ensures
        total_debit(a + b) == total_debit(a) + total_debit(b),
        total_credit(a + b) == total_credit(a) + total_credit(b),
        forall|acc: Seq<char>| #[trigger]
            account_net(a + b, acc) == account_net(a, acc) + account_net(b, acc),
    decreases b.len(),
{
    if b.len() == 0 {
        assert(a + b =~= a);
    } else {
        lemma_totals_concat(a, b.drop_last());
        assert((a + b).drop_last() =~= a + b.drop_last());
        assert((a + b).last() == b.last());
        assert forall|acc: Seq<char>| #[trigger]
            account_net(a + b, acc) == account_net(a, acc) + account_net(b, acc) by {
            assert(account_net(a + b.drop_last(), acc) == account_net(a, acc) + account_net(
                b.drop_last(),
                acc,
            ));
        }
    }
}

pub proof fn lemma_totals_push(a: Seq<GlLineView>, l: GlLineView)
    ensures
        total_debit(a.push(l)) == total_debit(a) + l.debit.val(),
        total_credit(a.push(l)) == total_credit(a) + l.credit.val(),
        forall|acc: Seq<char>| #[trigger]
            account_net(a.push(l), acc) == account_net(a, acc) + if l.account == acc {
                l.debit.val() - l.credit.val()
            } else {
                0
            },
{
    assert(a.push(l).drop_last() =~= a);
}

/// A plain line (no partner, no tax detail).
pub fn plain_line(account: &str, debit: Dec, credit: Dec) -> (r: GlLine)
    ensures
        r@ == (GlLineView { account: account@, debit, credit, partner_cui: None, tax: None }),
{
    GlLine { account: owned(account), debit, credit, partner_cui: None, tax: None }
}

/// The debit side of a signed amount: the amount when positive, else zero.
pub open spec fn pos_part(x: Dec) -> Dec {
    if x.val() > 0 {
        x
    } else {
        Dec { mant: 0, scale: 0 }
    }
}

/// The credit side of a signed amount: its negation when negative, else zero.
pub open spec fn neg_part(x: Dec) -> Dec {
    if x.val() < 0 {
        Dec { mant: -x.mant as i128, scale: x.scale }
    } else {
        Dec { mant: 0, scale: 0 }
    }
}

pub proof fn lemma_parts(x: Dec)
    requires
        x.wf(),
    ensures
        pos_part(x).wf(),
        neg_part(x).wf(),
        pos_part(x).val() - neg_part(x).val() == x.val(),
        pos_part(x).val() >= 0,
        neg_part(x).val() >= 0,
{
    lemma_val_sign(x);
    reveal_with_fuel(pow10, 1);
    lemma_zero_val(0);
    if x.val() < 0 {
        assert(neg_part(x).val() == -x.val()) by (nonlinear_arith)
            requires
                neg_part(x).mant == -x.mant,
                neg_part(x).scale == x.scale,
        ;
    }
    assert(Dec { mant: 0, scale: 0 }.val() == 0);
}

/// Splits a signed amount onto the debit (positive) or credit (negative) side.
pub fn signed_sides(x: Dec) -> (r: (Dec, Dec))
    requires
        x.wf(),
    ensures
        r.0 == pos_part(x),
        r.1 == neg_part(x),
        r.0.wf(),
        r.1.wf(),
        r.0.val() - r.1.val() == x.val(),
{
    proof {
        lemma_parts(x);
    }
    if x.is_positive() {
        (x, Dec::zero())
    } else if x.is_negative() {
        (Dec::zero(), x.neg())
    } else {
        (Dec::zero(), Dec::zero())
    }
}


pub fn clone_opt_string(o: &Option<String>) -> (r: Option<String>)
    ensures
        opt_str_view(r) == opt_str_view(*o),
{
    match o {
        Some(x) => Some(x.clone()),
        None => None,
    }
}

// ─── Issued invoices ────────────────────────────────────────────────────────────

/// Sales revenue account by revenue kind: product 701, service 704, reduction 709,
/// anything else (goods) 707.
pub open spec fn spec_revenue_account(kind: Seq<char>) -> Seq<char> {
    let k = spec_trim(kind);
    if k == "product"@ {
        "701"@
    } else if k == "service"@ {
        "704"@
    } else if k == "reduction"@ {
        "709"@
    } else {
        "707"@
    }
}

pub fn revenue_account(revenue_kind: &str) -> (r: &'static str)
    ensures
        r@ == spec_revenue_account(revenue_kind@),
{
    let k = trim(revenue_kind);
    if str_eq(k, "product") {
        "701"
    } else if str_eq(k, "service") {
        "704"
    } else if str_eq(k, "reduction") {
        "709"
    } else {
        "707"
    }
}

/// One (VAT category, rate, revenue kind) group of an issued invoice, in RON.
#[derive(Clone, Debug)]
pub struct SalesVatGroup {
    pub net: Dec,
    pub vat: Dec,
    pub category: String,
    pub rate: Dec,
    pub revenue_kind: String,
}

impl SalesVatGroup {
    pub open spec fn wf(self) -> bool {
        self.net.wf() && self.vat.wf() && self.rate.wf()
    }
}

/// Σ (net + vat) over the groups, summed from zero as `Iterator::sum` does.
pub open spec fn spec_sales_gross(gs: Seq<SalesVatGroup>) -> Option<Dec>
    decreases gs.len(),
{
    if gs.len() == 0 {
        Some(Dec { mant: 0, scale: 0 })
    } else {
        match spec_sales_gross(gs.drop_last()) {
            Some(acc) => match spec_dec_add(gs.last().net, gs.last().vat) {
                Some(nv) => spec_dec_add(acc, nv),
                None => None,
            },
            None => None,
        }
    }
}

/// The lines of one group: C 70x for the net (debit when negative), and, when the VAT is
/// not zero, C 4427 (or 4428 under cash VAT for category S) for the VAT.
pub open spec fn spec_sales_group_lines(g: SalesVatGroup, cash_vat: bool) -> Seq<GlLineView> {
    let rev = GlLineView {
        account: spec_revenue_account(g.revenue_kind@),
        debit: neg_part(g.net),
        credit: pos_part(g.net),
        partner_cui: None,
        tax: Some(TaxTagView { category: g.category@, rate: g.rate, base: Some(g.net), amount: Some(g.vat) }),
    };
    if g.vat.val() != 0 {
        let acc = if cash_vat && g.category@ == "S"@ {
            "4428"@
        } else {
            "4427"@
        };
        seq![
            rev,
            GlLineView {
                account: acc,
                debit: neg_part(g.vat),
                credit: pos_part(g.vat),
                partner_cui: None,
                tax: Some(TaxTagView { category: g.category@, rate: g.rate, base: None, amount: None }),
            },
        ]
    } else {
        seq![rev]
    }
}

pub open spec fn spec_sales_groups_lines(gs: Seq<SalesVatGroup>, cash_vat: bool) -> Seq<GlLineView>
    decreases gs.len(),
{
    if gs.len() == 0 {
        seq![]
    } else {
        spec_sales_groups_lines(gs.drop_last(), cash_vat) + spec_sales_group_lines(gs.last(), cash_vat)
    }
}

/// The journal of an issued invoice: D 4111 for the gross (credit when negative, as for a
/// storno), then the lines of each group.
pub open spec fn spec_sales_invoice_lines(
    gs: Seq<SalesVatGroup>,
    partner_cui: Option<Seq<char>>,
    cash_vat: bool,
) -> Option<Seq<GlLineView>> {
    match spec_sales_gross(gs) {
        Some(gross) => Some(
            seq![
                GlLineView {
                    account: "4111"@,
                    debit: pos_part(gross),
                    credit: neg_part(gross),
                    partner_cui,
                    tax: None,
                },
            ] + spec_sales_groups_lines(gs, cash_vat),
        ),
        None => None,
    }
}

proof fn lemma_sales_gross_wf(gs: Seq<SalesVatGroup>)
    requires
        forall|i: int| 0 <= i < gs.len() ==> #[trigger] gs[i].wf(),
    ensures
        spec_sales_gross(gs) matches Some(g) ==> g.wf(),
    decreases gs.len(),
{
    if gs.len() > 0 {
        lemma_sales_gross_wf(gs.drop_last());
        let g = gs.last();
        assert(g.wf()) by {
            assert(gs[gs.len() - 1].wf());
        }
        lemma_spec_add(g.net, g.vat);
        if let Some(acc) = spec_sales_gross(gs.drop_last()) {
            if let Some(nv) = spec_dec_add(g.net, g.vat) {
                lemma_spec_add(acc, nv);
            }
        }
    }
}

/// Σ debit − Σ credit of the group lines is minus the gross.
proof fn lemma_sales_groups_net(gs: Seq<SalesVatGroup>, cash_vat: bool)
    requires
        forall|i: int| 0 <= i < gs.len() ==> #[trigger] gs[i].wf(),
        spec_sales_gross(gs) is Some,
    ensures
        total_debit(spec_sales_groups_lines(gs, cash_vat)) - total_credit(
            spec_sales_groups_lines(gs, cash_vat),
        ) == -spec_sales_gross(gs).unwrap().val(),
    decreases gs.len(),
{
    reveal_with_fuel(total_debit, 3);
    reveal_with_fuel(total_credit, 3);
    if gs.len() == 0 {
        lemma_zero_val(0);
    } else {
        let pre = gs.drop_last();
        let g = gs.last();
        assert(g.wf()) by {
            assert(gs[gs.len() - 1].wf());
        }
        assert forall|i: int| 0 <= i < pre.len() implies #[trigger] pre[i].wf() by {
            assert(pre[i] == gs[i]);
        }
        lemma_sales_groups_net(pre, cash_vat);
        lemma_sales_gross_wf(pre);
        lemma_spec_add(g.net, g.vat);
        let acc = spec_sales_gross(pre).unwrap();
        let nv = spec_dec_add(g.net, g.vat).unwrap();
        lemma_spec_add(acc, nv);
        lemma_totals_concat(spec_sales_groups_lines(pre, cash_vat), spec_sales_group_lines(g, cash_vat));
        lemma_parts(g.net);
        lemma_parts(g.vat);
        let gl = spec_sales_group_lines(g, cash_vat);
        if g.vat.val() != 0 {
            assert(gl.drop_last().drop_last() =~= Seq::<GlLineView>::empty());
        } else {
            assert(gl.drop_last() =~= Seq::<GlLineView>::empty());
        }
    }
}

/// The journal of an issued invoice is balanced.
pub proof fn lemma_sales_invoice_balanced(
    gs: Seq<SalesVatGroup>,
    partner_cui: Option<Seq<char>>,
    cash_vat: bool,
)
    requires
        forall|i: int| 0 <= i < gs.len() ==> #[trigger] gs[i].wf(),
    ensures
        spec_sales_invoice_lines(gs, partner_cui, cash_vat) matches Some(ls) ==> balanced(ls),
{
    if let Some(gross) = spec_sales_gross(gs) {
        lemma_sales_gross_wf(gs);
        lemma_parts(gross);
        lemma_sales_groups_net(gs, cash_vat);
        let head = seq![
            GlLineView { account: "4111"@, debit: pos_part(gross), credit: neg_part(gross), partner_cui, tax: None },
        ];
        lemma_totals_concat(head, spec_sales_groups_lines(gs, cash_vat));
        reveal_with_fuel(total_debit, 2);
        reveal_with_fuel(total_credit, 2);
        assert(head.drop_last() =~= Seq::<GlLineView>::empty());
    }
}

/// Σ VAT of the groups whose VAT is not yet exigible: category S under cash VAT.
pub open spec fn sales_deferred_vat_sum(gs: Seq<SalesVatGroup>, cash_vat: bool) -> int
    decreases gs.len(),
{
    if gs.len() == 0 {
        0
    } else {
        sales_deferred_vat_sum(gs.drop_last(), cash_vat) + if cash_vat && gs.last().category@ == "S"@ {
            gs.last().vat.val()
        } else {
            0
        }
    }
}

/// Σ VAT of the groups whose VAT is exigible at once: every group but those of
/// `sales_deferred_vat_sum`.
pub open spec fn sales_exigible_vat_sum(gs: Seq<SalesVatGroup>, cash_vat: bool) -> int
    decreases gs.len(),
{
    if gs.len() == 0 {
        0
    } else {
        sales_exigible_vat_sum(gs.drop_last(), cash_vat) + if cash_vat && gs.last().category@ == "S"@ {
            0
        } else {
            gs.last().vat.val()
        }
    }
}

proof fn lemma_revenue_account_names(kind: Seq<char>)
    ensures
        spec_revenue_account(kind) != "4427"@,
        spec_revenue_account(kind) != "4428"@,
        spec_revenue_account(kind) != "4111"@,
{
    reveal_strlit("701");
    reveal_strlit("704");
    reveal_strlit("707");
    reveal_strlit("709");
    reveal_strlit("4427");
    reveal_strlit("4428");
    reveal_strlit("4111");
    assert(spec_revenue_account(kind).len() == 3);
}

proof fn lemma_sales_groups_vat_accounts(gs: Seq<SalesVatGroup>, cash_vat: bool)
    requires
        forall|i: int| 0 <= i < gs.len() ==> #[trigger] gs[i].wf(),
    ensures
        account_credit(spec_sales_groups_lines(gs, cash_vat), "4428"@) - account_debit(spec_sales_groups_lines(gs, cash_vat), "4428"@)
            == sales_deferred_vat_sum(gs, cash_vat),
        account_credit(spec_sales_groups_lines(gs, cash_vat), "4427"@) - account_debit(spec_sales_groups_lines(gs, cash_vat), "4427"@)
            == sales_exigible_vat_sum(gs, cash_vat),
        account_credit(spec_sales_groups_lines(gs, cash_vat), "4111"@) == 0,
        account_debit(spec_sales_groups_lines(gs, cash_vat), "4111"@) == 0,
    decreases gs.len(),
{
    lemma_vat_account_names();
    if gs.len() == 0 {
        reveal_with_fuel(account_debit, 1);
        reveal_with_fuel(account_credit, 1);
    } else {
        let pre = gs.drop_last();
        let g = gs.last();
        assert(g.wf()) by {
            assert(gs[gs.len() - 1].wf());
        }
        assert forall|i: int| 0 <= i < pre.len() implies #[trigger] pre[i].wf() by {
            assert(pre[i] == gs[i]);
        }
        lemma_sales_groups_vat_accounts(pre, cash_vat);
        lemma_parts(g.vat);
        lemma_revenue_account_names(g.revenue_kind@);
        let a = spec_sales_groups_lines(pre, cash_vat);
        let b = spec_sales_group_lines(g, cash_vat);
        lemma_account_sides_concat(a, b, "4427"@);
        lemma_account_sides_concat(a, b, "4428"@);
        lemma_account_sides_concat(a, b, "4111"@);
        lemma_account_sides_small(b, "4427"@);
        lemma_account_sides_small(b, "4428"@);
        lemma_account_sides_small(b, "4111"@);
    }
}

/// Where the VAT of an issued invoice goes. Under cash VAT the VAT of category-S groups is
/// credited to 4428 (not yet exigible) and none of it to 4427; the VAT of every other group
/// is credited to 4427 (a negative VAT, as on a credit note, as a debit). 4111 carries the
/// gross: debited when positive, credited when negative.
pub proof fn lemma_sales_vat_accounts(gs: Seq<SalesVatGroup>, partner_cui: Option<Seq<char>>, cash_vat: bool)
    requires
        forall|i: int| 0 <= i < gs.len() ==> #[trigger] gs[i].wf(),
    ensures
        spec_sales_invoice_lines(gs, partner_cui, cash_vat) matches Some(ls) ==> {
            &&& account_credit(ls, "4428"@) - account_debit(ls, "4428"@) == sales_deferred_vat_sum(gs, cash_vat)
            &&& account_credit(ls, "4427"@) - account_debit(ls, "4427"@) == sales_exigible_vat_sum(gs, cash_vat)
            &&& account_debit(ls, "4111"@) - account_credit(ls, "4111"@) == spec_sales_gross(gs).unwrap().val()
        },
{
    lemma_vat_account_names();
    lemma_sales_groups_vat_accounts(gs, cash_vat);
    if let Some(gross) = spec_sales_gross(gs) {
        lemma_sales_gross_wf(gs);
        lemma_parts(gross);
        let head = seq![
            GlLineView { account: "4111"@, debit: pos_part(gross), credit: neg_part(gross), partner_cui, tax: None },
        ];
        let rest = spec_sales_groups_lines(gs, cash_vat);
        lemma_account_sides_small(head, "4427"@);
        lemma_account_sides_small(head, "4428"@);
        lemma_account_sides_small(head, "4111"@);
        lemma_account_sides_concat(head, rest, "4427"@);
        lemma_account_sides_concat(head, rest, "4428"@);
        lemma_account_sides_concat(head, rest, "4111"@);
    }
}

/// The group of a credit note that cancels `g`: net and VAT negated.
pub open spec fn spec_negated_group(g: SalesVatGroup) -> SalesVatGroup {
    SalesVatGroup {
        net: spec_dec_neg(g.net),
        vat: spec_dec_neg(g.vat),
        category: g.category,
        rate: g.rate,
        revenue_kind: g.revenue_kind,
    }
}

pub open spec fn spec_negated_groups(gs: Seq<SalesVatGroup>) -> Seq<SalesVatGroup> {
    gs.map_values(|g: SalesVatGroup| spec_negated_group(g))
}

/// The signed amount of a line: debit − credit.
pub open spec fn signed_amount(l: GlLineView) -> int {
    l.debit.val() - l.credit.val()
}

/// `b` has the accounts of `a`, line by line, each with the opposite signed amount.
pub open spec fn mirrored(a: Seq<GlLineView>, b: Seq<GlLineView>) -> bool {
    &&& a.len() == b.len()
    &&& forall|k: int| 0 <= k < a.len() ==> (#[trigger] b[k]).account == a[k].account && signed_amount(b[k])
        == -signed_amount(a[k])
}

proof fn lemma_mirrored_concat(a1: Seq<GlLineView>, b1: Seq<GlLineView>, a2: Seq<GlLineView>, b2: Seq<GlLineView>)
    requires
        mirrored(a1, b1),
        mirrored(a2, b2),
    ensures
        mirrored(a1 + a2, b1 + b2),
{
    assert forall|k: int| 0 <= k < (a1 + a2).len() implies (#[trigger] (b1 + b2)[k]).account == (a1 + a2)[k].account
        && signed_amount((b1 + b2)[k]) == -signed_amount((a1 + a2)[k]) by {
        if k < a1.len() {
            assert((b1 + b2)[k] == b1[k]);
            assert((a1 + a2)[k] == a1[k]);
        } else {
            assert((b1 + b2)[k] == b2[k - a1.len()]);
            assert((a1 + a2)[k] == a2[k - a1.len()]);
        }
    }
}

proof fn lemma_neg_parts(x: Dec)
    requires
        x.wf(),
    ensures
        spec_dec_neg(x).wf(),
        pos_part(spec_dec_neg(x)).val() - neg_part(spec_dec_neg(x)).val() == -(pos_part(x).val() - neg_part(x).val()),
        (spec_dec_neg(x).val() != 0) == (x.val() != 0),
{
    lemma_neg_val(x);
    lemma_parts(x);
    lemma_parts(spec_dec_neg(x));
}

proof fn lemma_group_lines_mirrored(g: SalesVatGroup, cash_vat: bool)
    requires
        g.wf(),
    ensures
        mirrored(spec_sales_group_lines(g, cash_vat), spec_sales_group_lines(spec_negated_group(g), cash_vat)),
{
    lemma_neg_parts(g.net);
    lemma_neg_parts(g.vat);
}

proof fn lemma_groups_lines_mirrored(gs: Seq<SalesVatGroup>, cash_vat: bool)
    requires
        forall|i: int| 0 <= i < gs.len() ==> #[trigger] gs[i].wf(),
    ensures
        mirrored(spec_sales_groups_lines(gs, cash_vat), spec_sales_groups_lines(spec_negated_groups(gs), cash_vat)),
    decreases gs.len(),
{
    let ns = spec_negated_groups(gs);
    if gs.len() > 0 {
        let pre = gs.drop_last();
        assert forall|i: int| 0 <= i < pre.len() implies #[trigger] pre[i].wf() by {
            assert(pre[i] == gs[i]);
        }
        assert(gs.last().wf()) by {
            assert(gs[gs.len() - 1].wf());
        }
        assert(ns.drop_last() =~= spec_negated_groups(pre));
        assert(ns.last() == spec_negated_group(gs.last()));
        lemma_groups_lines_mirrored(pre, cash_vat);
        lemma_group_lines_mirrored(gs.last(), cash_vat);
        lemma_mirrored_concat(
            spec_sales_groups_lines(pre, cash_vat),
            spec_sales_groups_lines(spec_negated_groups(pre), cash_vat),
            spec_sales_group_lines(gs.last(), cash_vat),
            spec_sales_group_lines(spec_negated_group(gs.last()), cash_vat),
        );
    } else {
        assert(ns =~= Seq::<SalesVatGroup>::empty());
    }
}

proof fn lemma_gross_negated(gs: Seq<SalesVatGroup>)
    requires
        forall|i: int| 0 <= i < gs.len() ==> #[trigger] gs[i].wf(),
    ensures
        spec_sales_gross(spec_negated_groups(gs)) == (match spec_sales_gross(gs) {
            Some(c) => Some(spec_dec_neg(c)),
            None => None::<Dec>,
        }),
    decreases gs.len(),
{
    let ns = spec_negated_groups(gs);
    if gs.len() > 0 {
        let pre = gs.drop_last();
        let g = gs.last();
        assert forall|i: int| 0 <= i < pre.len() implies #[trigger] pre[i].wf() by {
            assert(pre[i] == gs[i]);
        }
        assert(g.wf()) by {
            assert(gs[gs.len() - 1].wf());
        }
        assert(ns.drop_last() =~= spec_negated_groups(pre));
        assert(ns.last() == spec_negated_group(g));
        lemma_gross_negated(pre);
        lemma_sales_gross_wf(pre);
        lemma_add_neg(g.net, g.vat);
        lemma_spec_add(g.net, g.vat);
        if let (Some(acc), Some(nv)) = (spec_sales_gross(pre), spec_dec_add(g.net, g.vat)) {
            lemma_add_neg(acc, nv);
        }
    } else {
        assert(ns =~= Seq::<SalesVatGroup>::empty());
    }
}

/// A credit note whose groups are those of an invoice with net and VAT negated (a storno
/// "in red") posts the invoice's accounts, in the same order, each with the opposite signed
/// amount; it overflows exactly when the invoice does.
pub proof fn lemma_storno_mirrors_sales_invoice(gs: Seq<SalesVatGroup>, partner_cui: Option<Seq<char>>, cash_vat: bool)
    requires
        forall|i: int| 0 <= i < gs.len() ==> #[trigger] gs[i].wf(),
    ensures
        spec_sales_invoice_lines(spec_negated_groups(gs), partner_cui, cash_vat) is Some
            <==> spec_sales_invoice_lines(gs, partner_cui, cash_vat) is Some,
        spec_sales_invoice_lines(gs, partner_cui, cash_vat) matches Some(a) ==> mirrored(
            a,
            spec_sales_invoice_lines(spec_negated_groups(gs), partner_cui, cash_vat).unwrap(),
        ),
{
    lemma_gross_negated(gs);
    lemma_groups_lines_mirrored(gs, cash_vat);
    if let Some(gross) = spec_sales_gross(gs) {
        lemma_sales_gross_wf(gs);
        lemma_neg_parts(gross);
        let head_a = seq![GlLineView { account: "4111"@, debit: pos_part(gross), credit: neg_part(gross), partner_cui, tax: None }];
        let ng = spec_dec_neg(gross);
        let head_b = seq![GlLineView { account: "4111"@, debit: pos_part(ng), credit: neg_part(ng), partner_cui, tax: None }];
        assert(mirrored(head_a, head_b));
        lemma_mirrored_concat(
            head_a,
            head_b,
            spec_sales_groups_lines(gs, cash_vat),
            spec_sales_groups_lines(spec_negated_groups(gs), cash_vat),
        );
    }
}

/// Every line has a side that is not negative, and not both sides above zero.
pub open spec fn single_sided(ls: Seq<GlLineView>) -> bool {
    forall|k: int| 0 <= k < ls.len() ==> {
        &&& (#[trigger] ls[k]).debit.val() >= 0
        &&& ls[k].credit.val() >= 0
        &&& !(ls[k].debit.val() > 0 && ls[k].credit.val() > 0)
    }
}

proof fn lemma_single_sided_concat(a: Seq<GlLineView>, b: Seq<GlLineView>)
    requires
        single_sided(a),
        single_sided(b),
    ensures
        single_sided(a + b),
{
    assert forall|k: int| 0 <= k < (a + b).len() implies {
        &&& (#[trigger] (a + b)[k]).debit.val() >= 0
        &&& (a + b)[k].credit.val() >= 0
        &&& !((a + b)[k].debit.val() > 0 && (a + b)[k].credit.val() > 0)
    } by {
        if k < a.len() {
            assert((a + b)[k] == a[k]);
        } else {
            assert((a + b)[k] == b[k - a.len()]);
        }
    }
}

proof fn lemma_parts_single(x: Dec)
    requires
        x.wf(),
    ensures
        pos_part(x).val() >= 0,
        neg_part(x).val() >= 0,
        !(pos_part(x).val() > 0 && neg_part(x).val() > 0),
{
    lemma_parts(x);
    lemma_zero_val(0);
}

proof fn lemma_sales_groups_single_sided(gs: Seq<SalesVatGroup>, cash_vat: bool)
    requires
        forall|i: int| 0 <= i < gs.len() ==> #[trigger] gs[i].wf(),
    ensures
        single_sided(spec_sales_groups_lines(gs, cash_vat)),
    decreases gs.len(),
{
    if gs.len() > 0 {
        let pre = gs.drop_last();
        assert forall|i: int| 0 <= i < pre.len() implies #[trigger] pre[i].wf() by {
            assert(pre[i] == gs[i]);
        }
        assert(gs.last().wf()) by {
            assert(gs[gs.len() - 1].wf());
        }
        lemma_sales_groups_single_sided(pre, cash_vat);
        lemma_parts_single(gs.last().net);
        lemma_parts_single(gs.last().vat);
        lemma_single_sided_concat(spec_sales_groups_lines(pre, cash_vat), spec_sales_group_lines(gs.last(), cash_vat));
    }
}

/// No line of an issued invoice's journal has a negative side or two sides.
pub proof fn lemma_sales_invoice_single_sided(gs: Seq<SalesVatGroup>, partner_cui: Option<Seq<char>>, cash_vat: bool)
    requires
        forall|i: int| 0 <= i < gs.len() ==> #[trigger] gs[i].wf(),
    ensures
        spec_sales_invoice_lines(gs, partner_cui, cash_vat) matches Some(ls) ==> single_sided(ls),
{
    lemma_sales_groups_single_sided(gs, cash_vat);
    if let Some(gross) = spec_sales_gross(gs) {
        lemma_sales_gross_wf(gs);
        lemma_parts_single(gross);
        let head = seq![GlLineView { account: "4111"@, debit: pos_part(gross), credit: neg_part(gross), partner_cui, tax: None }];
        lemma_single_sided_concat(head, spec_sales_groups_lines(gs, cash_vat));
    }
}

/// Posts an issued invoice (or credit note: its amounts are already negative): D 4111 gross
/// = Σ(net + VAT), C 70x net per group, C 4427/4428 VAT per group with VAT. `None` when a
/// sum overflows the decimal range.
pub fn post_sales_invoice(
    groups: &Vec<SalesVatGroup>,
    partner_cui: &Option<String>,
    cash_vat_applies: bool,
) -> (r: Option<Vec<GlLine>>)
    requires
        forall|i: int| 0 <= i < groups@.len() ==> #[trigger] groups@[i].wf(),
    ensures
        r is None <==> spec_sales_gross(groups@) is None,
        r matches Some(ls) ==> Some(views(ls@)) == spec_sales_invoice_lines(
            groups@,
            opt_str_view(*partner_cui),
            cash_vat_applies,
        ) && balanced(views(ls@)) && single_sided(views(ls@)),
        r matches Some(ls) ==> {
            &&& account_credit(views(ls@), "4428"@) - account_debit(views(ls@), "4428"@)
                == sales_deferred_vat_sum(groups@, cash_vat_applies)
            &&& account_credit(views(ls@), "4427"@) - account_debit(views(ls@), "4427"@)
                == sales_exigible_vat_sum(groups@, cash_vat_applies)
        },
{
    let n = groups.len();
    let mut gross = Dec::zero();
    let mut i: usize = 0;
    while i < n
        invariant
            n == groups@.len(),
            i <= n,
            forall|j: int| 0 <= j < groups@.len() ==> #[trigger] groups@[j].wf(),
            spec_sales_gross(groups@.subrange(0, i as int)) == Some(gross),
            gross.wf(),
        decreases n - i,
    {
        let g = &groups[i];
        assert(groups@[i as int].wf());
        assert(groups@.subrange(0, i + 1).drop_last() =~= groups@.subrange(0, i as int));
        assert(groups@.subrange(0, i + 1).last() == groups@[i as int]);
        let nv = match dec_add(g.net, g.vat) {
            Some(x) => x,
            None => {
                proof {
                    lemma_sales_gross_none_extends(groups@, (i + 1) as int);
                }
                return None;
            },
        };
        gross = match dec_add(gross, nv) {
            Some(x) => x,
            None => {
                proof {
                    lemma_sales_gross_none_extends(groups@, (i + 1) as int);
                }
                return None;
            },
        };
        i = i + 1;
    }
    assert(groups@.subrange(0, n as int) =~= groups@);
    let mut lines: Vec<GlLine> = Vec::new();
    let (d, c) = signed_sides(gross);
    lines.push(
        GlLine {
            account: owned("4111"),
            debit: d,
            credit: c,
            partner_cui: clone_opt_string(partner_cui),
            tax: None,
        },
    );
    let ghost head = views(lines@);
    assert(head =~= seq![
        GlLineView { account: "4111"@, debit: pos_part(gross), credit: neg_part(gross), partner_cui: opt_str_view(*partner_cui), tax: None },
    ]);
    let mut i: usize = 0;
    while i < n
        invariant
            n == groups@.len(),
            i <= n,
            forall|j: int| 0 <= j < groups@.len() ==> #[trigger] groups@[j].wf(),
            views(lines@) == head + spec_sales_groups_lines(groups@.subrange(0, i as int), cash_vat_applies),
        decreases n - i,
    {
        let g = &groups[i];
        assert(groups@[i as int].wf());
        let ghost before = views(lines@);
        let rev_acc = revenue_account(g.revenue_kind.as_str());
        let (rd, rc) = signed_sides(g.net);
        lines.push(
            GlLine {
                account: owned(rev_acc),
                debit: rc,
                credit: rd,
                partner_cui: None,
                tax: Some(
                    TaxTag {
                        category: g.category.clone(),
                        rate: g.rate,
                        base: Some(g.net),
                        amount: Some(g.vat),
                    },
                ),
            },
        );
        if !g.vat.is_zero() {
            let vat_acc = if cash_vat_applies && str_eq(g.category.as_str(), "S") {
                "4428"
            } else {
                "4427"
            };
            let (vd, vc) = signed_sides(g.vat);
            lines.push(
                GlLine {
                    account: owned(vat_acc),
                    debit: vc,
                    credit: vd,
                    partner_cui: None,
                    tax: Some(TaxTag { category: g.category.clone(), rate: g.rate, base: None, amount: None }),
                },
            );
        }
        proof {
            let gs_i = groups@.subrange(0, i + 1);
            assert(gs_i.drop_last() =~= groups@.subrange(0, i as int));
            assert(gs_i.last() == groups@[i as int]);
            let gl = spec_sales_group_lines(groups@[i as int], cash_vat_applies);
            assert(views(lines@) =~= before + gl);
            assert((head + spec_sales_groups_lines(groups@.subrange(0, i as int), cash_vat_applies)) + gl
                =~= head + (spec_sales_groups_lines(groups@.subrange(0, i as int), cash_vat_applies) + gl));
        }
        i = i + 1;
    }
    assert(groups@.subrange(0, n as int) =~= groups@);
    proof {
        lemma_sales_invoice_balanced(groups@, opt_str_view(*partner_cui), cash_vat_applies);
        lemma_sales_invoice_single_sided(groups@, opt_str_view(*partner_cui), cash_vat_applies);
        lemma_sales_vat_accounts(groups@, opt_str_view(*partner_cui), cash_vat_applies);
    }
    Some(lines)
}

/// Once the running gross overflows, the gross of any longer prefix is `None`.
proof fn lemma_sales_gross_none_extends(gs: Seq<SalesVatGroup>, k: int)
    requires
        0 <= k <= gs.len(),
        spec_sales_gross(gs.subrange(0, k)) is None,
    ensures
        spec_sales_gross(gs) is None,
    decreases gs.len() - k,
{
    if k < gs.len() {
        let nxt = gs.subrange(0, k + 1);
        assert(nxt.drop_last() =~= gs.subrange(0, k));
        lemma_sales_gross_none_extends(gs, k + 1);
    } else {
        assert(gs.subrange(0, k) =~= gs);
    }
}


// ─── Received invoices ──────────────────────────────────────────────────────────

/// One VAT line of a received invoice, in RON.
#[derive(Clone, Debug)]
pub struct PurchaseVatLine {
    pub net: Dec,
    pub vat: Dec,
    pub category: String,
    pub rate: Dec,
}

impl PurchaseVatLine {
    pub open spec fn wf(self) -> bool {
        self.net.wf() && self.vat.wf() && self.rate.wf()
    }

    /// Reverse charge (AE) or intra-EU (K): the VAT is self-assessed, not owed to the
    /// supplier.
    pub open spec fn reverse_charge(self) -> bool {
        self.category@ == "AE"@ || self.category@ == "K"@
    }
}

pub fn is_reverse_charge(category: &str) -> (r: bool)
    ensures
        r == (category@ == "AE"@ || category@ == "K"@),
{
    str_eq(category, "AE") || str_eq(category, "K")
}

/// What is owed to the supplier: Σ net, plus the VAT of the lines that are not reverse
/// charge, summed from zero.
pub open spec fn spec_purchase_gross(ls: Seq<PurchaseVatLine>) -> Option<Dec>
    decreases ls.len(),
{
    if ls.len() == 0 {
        Some(Dec { mant: 0, scale: 0 })
    } else {
        match spec_purchase_gross(ls.drop_last()) {
            Some(acc) => {
                let l = ls.last();
                if l.reverse_charge() {
                    spec_dec_add(acc, l.net)
                } else {
                    match spec_dec_add(l.net, l.vat) {
                        Some(nv) => spec_dec_add(acc, nv),
                        None => None,
                    }
                }
            },
            None => None,
        }
    }
}

proof fn lemma_purchase_gross_none_extends(ls: Seq<PurchaseVatLine>, k: int)
    requires
        0 <= k <= ls.len(),
        spec_purchase_gross(ls.subrange(0, k)) is None,
    ensures
        spec_purchase_gross(ls) is None,
    decreases ls.len() - k,
{
    if k < ls.len() {
        assert(ls.subrange(0, k + 1).drop_last() =~= ls.subrange(0, k));
        lemma_purchase_gross_none_extends(ls, k + 1);
    } else {
        assert(ls.subrange(0, k) =~= ls);
    }
}

proof fn lemma_purchase_gross_wf(ls: Seq<PurchaseVatLine>)
    requires
        forall|i: int| 0 <= i < ls.len() ==> #[trigger] ls[i].wf(),
    ensures
        spec_purchase_gross(ls) matches Some(g) ==> g.wf(),
    decreases ls.len(),
{
    if ls.len() > 0 {
        lemma_purchase_gross_wf(ls.drop_last());
        let l = ls.last();
        assert(l.wf()) by {
            assert(ls[ls.len() - 1].wf());
        }
        lemma_spec_add(l.net, l.vat);
        if let Some(acc) = spec_purchase_gross(ls.drop_last()) {
            lemma_spec_add(acc, l.net);
            if let Some(nv) = spec_dec_add(l.net, l.vat) {
                lemma_spec_add(acc, nv);
            }
        }
    }
}

/// The gross owed to the supplier of a received invoice.
pub fn purchase_gross(lines: &Vec<PurchaseVatLine>) -> (r: Option<Dec>)
    requires
        forall|i: int| 0 <= i < lines@.len() ==> #[trigger] lines@[i].wf(),
    ensures
        r == spec_purchase_gross(lines@),
        r matches Some(g) ==> g.wf(),
{
    let n = lines.len();
    let mut gross = Dec::zero();
    let mut i: usize = 0;
    while i < n
        invariant
            n == lines@.len(),
            i <= n,
            forall|j: int| 0 <= j < lines@.len() ==> #[trigger] lines@[j].wf(),
            spec_purchase_gross(lines@.subrange(0, i as int)) == Some(gross),
            gross.wf(),
        decreases n - i,
    {
        let l = &lines[i];
        assert(lines@[i as int].wf());
        assert(lines@.subrange(0, i + 1).drop_last() =~= lines@.subrange(0, i as int));
        assert(lines@.subrange(0, i + 1).last() == lines@[i as int]);
        let owed = if is_reverse_charge(l.category.as_str()) {
            l.net
        } else {
            match dec_add(l.net, l.vat) {
                Some(x) => x,
                None => {
                    proof {
                        lemma_purchase_gross_none_extends(lines@, (i + 1) as int);
                    }
                    return None;
                },
            }
        };
        gross = match dec_add(gross, owed) {
            Some(x) => x,
            None => {
                proof {
                    lemma_purchase_gross_none_extends(lines@, (i + 1) as int);
                }
                return None;
            },
        };
        i = i + 1;
    }
    assert(lines@.subrange(0, n as int) =~= lines@);
    Some(gross)
}

/// The lines of one VAT line: D 607 net, D 4426 VAT (4428 when the deduction is deferred
/// under cash VAT, category S), and for reverse charge with positive VAT, C 4427 VAT.
pub open spec fn spec_purchase_vat_lines(l: PurchaseVatLine, deferred: bool) -> Seq<GlLineView> {
    let expense = GlLineView {
        account: "607"@,
        debit: l.net,
        credit: Dec { mant: 0, scale: 0 },
        partner_cui: None,
        tax: Some(TaxTagView { category: l.category@, rate: l.rate, base: Some(l.net), amount: Some(l.vat) }),
    };
    let vat_acc = if deferred && l.category@ == "S"@ {
        "4428"@
    } else {
        "4426"@
    };
    let vat = GlLineView {
        account: vat_acc,
        debit: l.vat,
        credit: Dec { mant: 0, scale: 0 },
        partner_cui: None,
        tax: Some(TaxTagView { category: l.category@, rate: l.rate, base: None, amount: None }),
    };
    if l.reverse_charge() && l.vat.val() > 0 {
        seq![
            expense,
            vat,
            GlLineView {
                account: "4427"@,
                debit: Dec { mant: 0, scale: 0 },
                credit: l.vat,
                partner_cui: None,
                tax: Some(TaxTagView { category: l.category@, rate: l.rate, base: None, amount: None }),
            },
        ]
    } else {
        seq![expense, vat]
    }
}

pub open spec fn spec_purchase_vat_lines_all(ls: Seq<PurchaseVatLine>, deferred: bool) -> Seq<
    GlLineView,
>
    decreases ls.len(),
{
    if ls.len() == 0 {
        seq![]
    } else {
        spec_purchase_vat_lines_all(ls.drop_last(), deferred) + spec_purchase_vat_lines(
            ls.last(),
            deferred,
        )
    }
}

/// The journal of a received invoice: the VAT-line legs, then C 401 gross with the
/// issuer's CUI.
pub open spec fn spec_purchase_invoice_lines(
    ls: Seq<PurchaseVatLine>,
    gross: Dec,
    issuer_cui: Seq<char>,
    deferred: bool,
) -> Seq<GlLineView> {
    spec_purchase_vat_lines_all(ls, deferred) + seq![
        GlLineView {
            account: "401"@,
            debit: Dec { mant: 0, scale: 0 },
            credit: gross,
            partner_cui: Some(issuer_cui),
            tax: None,
        },
    ]
}

proof fn lemma_purchase_lines_net(ls: Seq<PurchaseVatLine>, deferred: bool)
    requires
        forall|i: int| 0 <= i < ls.len() ==> #[trigger] ls[i].wf(),
        forall|i: int| 0 <= i < ls.len() && (#[trigger] ls[i]).reverse_charge() ==> ls[i].vat.val() >= 0,
        spec_purchase_gross(ls) is Some,
    ensures
        total_debit(spec_purchase_vat_lines_all(ls, deferred)) - total_credit(
            spec_purchase_vat_lines_all(ls, deferred),
        ) == spec_purchase_gross(ls).unwrap().val(),
    decreases ls.len(),
{
    reveal_with_fuel(total_debit, 4);
    reveal_with_fuel(total_credit, 4);
    lemma_zero_val(0);
    if ls.len() > 0 {
        let pre = ls.drop_last();
        let l = ls.last();
        assert(l.wf() && (l.reverse_charge() ==> l.vat.val() >= 0)) by {
            assert(ls[ls.len() - 1] == l);
        }
        assert forall|i: int| 0 <= i < pre.len() implies #[trigger] pre[i].wf() && (
        pre[i].reverse_charge() ==> pre[i].vat.val() >= 0) by {
            assert(pre[i] == ls[i]);
        }
        lemma_purchase_lines_net(pre, deferred);
        lemma_purchase_gross_wf(pre);
        let acc = spec_purchase_gross(pre).unwrap();
        lemma_spec_add(l.net, l.vat);
        lemma_spec_add(acc, l.net);
        if let Some(nv) = spec_dec_add(l.net, l.vat) {
            lemma_spec_add(acc, nv);
        }
        lemma_totals_concat(spec_purchase_vat_lines_all(pre, deferred), spec_purchase_vat_lines(l, deferred));
        let vl = spec_purchase_vat_lines(l, deferred);
        if l.reverse_charge() && l.vat.val() > 0 {
            assert(vl.drop_last().drop_last().drop_last() =~= Seq::<GlLineView>::empty());
        } else {
            assert(vl.drop_last().drop_last() =~= Seq::<GlLineView>::empty());
        }
    }
}

/// The journal of a received invoice balances when the gross equals in value the amount owed to the
/// supplier and no reverse-charge line carries negative VAT.
pub proof fn lemma_purchase_invoice_balanced(
    ls: Seq<PurchaseVatLine>,
    gross: Dec,
    issuer_cui: Seq<char>,
    deferred: bool,
)
    requires
        forall|i: int| 0 <= i < ls.len() ==> #[trigger] ls[i].wf(),
        forall|i: int| 0 <= i < ls.len() && (#[trigger] ls[i]).reverse_charge() ==> ls[i].vat.val() >= 0,
        spec_purchase_gross(ls) matches Some(g) && g.val() == gross.val(),
    ensures
        balanced(spec_purchase_invoice_lines(ls, gross, issuer_cui, deferred)),
{
    lemma_purchase_lines_net(ls, deferred);
    let tail = seq![
        GlLineView { account: "401"@, debit: Dec { mant: 0, scale: 0 }, credit: gross, partner_cui: Some(issuer_cui), tax: None },
    ];
    lemma_totals_concat(spec_purchase_vat_lines_all(ls, deferred), tail);
    reveal_with_fuel(total_debit, 2);
    reveal_with_fuel(total_credit, 2);
    lemma_zero_val(0);
    assert(tail.drop_last() =~= Seq::<GlLineView>::empty());
}

/// Σ VAT of the lines whose deduction waits for payment: category S under a deferred
/// (cash-VAT) deduction.
pub open spec fn deferred_vat_sum(ls: Seq<PurchaseVatLine>, deferred: bool) -> int
    decreases ls.len(),
{
    if ls.len() == 0 {
        0
    } else {
        deferred_vat_sum(ls.drop_last(), deferred) + if deferred && ls.last().category@ == "S"@ {
            ls.last().vat.val()
        } else {
            0
        }
    }
}

/// Σ VAT of the lines deducted at once: every line but those of `deferred_vat_sum`.
pub open spec fn deducted_vat_sum(ls: Seq<PurchaseVatLine>, deferred: bool) -> int
    decreases ls.len(),
{
    if ls.len() == 0 {
        0
    } else {
        deducted_vat_sum(ls.drop_last(), deferred) + if deferred && ls.last().category@ == "S"@ {
            0
        } else {
            ls.last().vat.val()
        }
    }
}

/// Σ net of the VAT lines.
pub open spec fn purchase_net_sum(ls: Seq<PurchaseVatLine>) -> int
    decreases ls.len(),
{
    if ls.len() == 0 {
        0
    } else {
        purchase_net_sum(ls.drop_last()) + ls.last().net.val()
    }
}

proof fn lemma_purchase_accounts_distinct()
    ensures
        "607"@ != "4426"@,
        "607"@ != "4428"@,
        "4426"@ != "4428"@,
        "4427"@ != "4426"@,
        "4427"@ != "4428"@,
        "401"@ != "4426"@,
        "401"@ != "4428"@,
        "401"@ != "607"@,
        "4427"@ != "607"@,
        "4427"@ != "401"@,
{
    reveal_strlit("607");
    reveal_strlit("4426");
    reveal_strlit("4427");
    reveal_strlit("4428");
    reveal_strlit("401");
    assert("607"@.len() != "4426"@.len());
    assert("607"@.len() != "4428"@.len());
    assert("401"@.len() != "4426"@.len());
    assert("401"@.len() != "4428"@.len());
    assert("4427"@.len() != "607"@.len());
    assert("4426"@[3] != "4428"@[3]);
    assert("4427"@[3] != "4426"@[3]);
    assert("4427"@[3] != "4428"@[3]);
    assert("401"@[0] != "607"@[0]);
    assert("401"@.len() != "4427"@.len());
}

proof fn lemma_purchase_vat_lines_accounts(ls: Seq<PurchaseVatLine>, deferred: bool)
    ensures
        account_debit(spec_purchase_vat_lines_all(ls, deferred), "4428"@) == deferred_vat_sum(ls, deferred),
        account_debit(spec_purchase_vat_lines_all(ls, deferred), "4426"@) == deducted_vat_sum(ls, deferred),
        account_credit(spec_purchase_vat_lines_all(ls, deferred), "4426"@) == 0,
        account_credit(spec_purchase_vat_lines_all(ls, deferred), "4428"@) == 0,
        account_debit(spec_purchase_vat_lines_all(ls, deferred), "607"@) == purchase_net_sum(ls),
        account_credit(spec_purchase_vat_lines_all(ls, deferred), "401"@) == 0,
    decreases ls.len(),
{
    lemma_purchase_accounts_distinct();
    lemma_zero_val(0);
    if ls.len() == 0 {
        reveal_with_fuel(account_debit, 1);
        reveal_with_fuel(account_credit, 1);
    } else {
        let pre = ls.drop_last();
        let l = ls.last();
        lemma_purchase_vat_lines_accounts(pre, deferred);
        let a = spec_purchase_vat_lines_all(pre, deferred);
        let b = spec_purchase_vat_lines(l, deferred);
        lemma_account_sides_concat(a, b, "4428"@);
        lemma_account_sides_concat(a, b, "4426"@);
        lemma_account_sides_concat(a, b, "607"@);
        lemma_account_sides_concat(a, b, "401"@);
        lemma_account_sides_small(b, "4428"@);
        lemma_account_sides_small(b, "4426"@);
        lemma_account_sides_small(b, "607"@);
        lemma_account_sides_small(b, "401"@);
    }
}

/// Where the VAT of a received invoice goes. The VAT of category-S lines whose deduction is
/// deferred under cash VAT is debited to 4428 and nothing of it to 4426; the VAT of every
/// other line is debited to 4426. Neither account is credited; 607 carries the nets and
/// 401 is credited the gross.
pub proof fn lemma_purchase_vat_accounts(
    ls: Seq<PurchaseVatLine>,
    gross: Dec,
    issuer_cui: Seq<char>,
    deferred: bool,
)
    ensures
        account_debit(spec_purchase_invoice_lines(ls, gross, issuer_cui, deferred), "4428"@)
            == deferred_vat_sum(ls, deferred),
        account_debit(spec_purchase_invoice_lines(ls, gross, issuer_cui, deferred), "4426"@)
            == deducted_vat_sum(ls, deferred),
        account_credit(spec_purchase_invoice_lines(ls, gross, issuer_cui, deferred), "4426"@) == 0,
        account_credit(spec_purchase_invoice_lines(ls, gross, issuer_cui, deferred), "4428"@) == 0,
        account_debit(spec_purchase_invoice_lines(ls, gross, issuer_cui, deferred), "607"@)
            == purchase_net_sum(ls),
        account_credit(spec_purchase_invoice_lines(ls, gross, issuer_cui, deferred), "401"@)
            == gross.val(),
{
    lemma_purchase_accounts_distinct();
    lemma_purchase_vat_lines_accounts(ls, deferred);
    lemma_zero_val(0);
    let a = spec_purchase_vat_lines_all(ls, deferred);
    let t = seq![
        GlLineView { account: "401"@, debit: Dec { mant: 0, scale: 0 }, credit: gross, partner_cui: Some(issuer_cui), tax: None },
    ];
    assert(spec_purchase_invoice_lines(ls, gross, issuer_cui, deferred) == a + t);
    lemma_account_sides_concat(a, t, "4428"@);
    lemma_account_sides_concat(a, t, "4426"@);
    lemma_account_sides_concat(a, t, "607"@);
    lemma_account_sides_concat(a, t, "401"@);
    lemma_account_sides_small(t, "4428"@);
    lemma_account_sides_small(t, "4426"@);
    lemma_account_sides_small(t, "607"@);
    lemma_account_sides_small(t, "401"@);
}

/// Posts a received invoice: per VAT line D 607 net, D 4426 (or 4428) VAT, and for reverse
/// charge C 4427 VAT; then C 401 `gross` for the supplier.
pub fn post_purchase_invoice(
    issuer_cui: &str,
    gross: Dec,
    vat_lines: &Vec<PurchaseVatLine>,
    cash_vat_deferred: bool,
) -> (r: Vec<GlLine>)
    requires
        forall|i: int| 0 <= i < vat_lines@.len() ==> #[trigger] vat_lines@[i].wf(),
        gross.wf(),
    ensures
        views(r@) == spec_purchase_invoice_lines(vat_lines@, gross, issuer_cui@, cash_vat_deferred),
        account_debit(views(r@), "4428"@) == deferred_vat_sum(vat_lines@, cash_vat_deferred),
        account_debit(views(r@), "4426"@) == deducted_vat_sum(vat_lines@, cash_vat_deferred),
        account_credit(views(r@), "4426"@) == 0,
        account_credit(views(r@), "4428"@) == 0,
{
    let n = vat_lines.len();
    let mut lines: Vec<GlLine> = Vec::new();
    let mut i: usize = 0;
    assert(views(lines@) =~= Seq::<GlLineView>::empty());
    while i < n
        invariant
            n == vat_lines@.len(),
            i <= n,
            forall|k: int| 0 <= k < vat_lines@.len() ==> #[trigger] vat_lines@[k].wf(),
            views(lines@) == spec_purchase_vat_lines_all(vat_lines@.subrange(0, i as int), cash_vat_deferred),
        decreases n - i,
    {
        let l = &vat_lines[i];
        let ghost before = views(lines@);
        let rc = is_reverse_charge(l.category.as_str());
        lines.push(
            GlLine {
                account: owned("607"),
                debit: l.net,
                credit: Dec::zero(),
                partner_cui: None,
                tax: Some(TaxTag { category: l.category.clone(), rate: l.rate, base: Some(l.net), amount: Some(l.vat) }),
            },
        );
        let vat_acc = if cash_vat_deferred && str_eq(l.category.as_str(), "S") {
            "4428"
        } else {
            "4426"
        };
        lines.push(
            GlLine {
                account: owned(vat_acc),
                debit: l.vat,
                credit: Dec::zero(),
                partner_cui: None,
                tax: Some(TaxTag { category: l.category.clone(), rate: l.rate, base: None, amount: None }),
            },
        );
        if rc && l.vat.mant > 0 {
            lines.push(
                GlLine {
                    account: owned("4427"),
                    debit: Dec::zero(),
                    credit: l.vat,
                    partner_cui: None,
                    tax: Some(TaxTag { category: l.category.clone(), rate: l.rate, base: None, amount: None }),
                },
            );
        }
        proof {
            assert(vat_lines@[i as int].wf());
            lemma_val_sign(l.vat);
            let ls_i = vat_lines@.subrange(0, i + 1);
            assert(ls_i.drop_last() =~= vat_lines@.subrange(0, i as int));
            assert(ls_i.last() == vat_lines@[i as int]);
            assert(views(lines@) =~= before + spec_purchase_vat_lines(vat_lines@[i as int], cash_vat_deferred));
        }
        i = i + 1;
    }
    assert(vat_lines@.subrange(0, n as int) =~= vat_lines@);
    let ghost before = views(lines@);
    lines.push(
        GlLine {
            account: owned("401"),
            debit: Dec::zero(),
            credit: gross,
            partner_cui: Some(owned(issuer_cui)),
            tax: None,
        },
    );
    assert(views(lines@) =~= spec_purchase_invoice_lines(vat_lines@, gross, issuer_cui@, cash_vat_deferred));
    proof {
        lemma_purchase_vat_accounts(vat_lines@, gross, issuer_cui@, cash_vat_deferred);
    }
    lines
}

// ─── Payments ───────────────────────────────────────────────────────────────────

/// Treasury account and journal for a payment: cash ("cash"/"numerar", any ASCII case) goes
/// to 5311 (5314 in foreign currency) in CASA, everything else to 5121 (5124) in BANCA.
pub open spec fn spec_treasury(method: Seq<char>, foreign: bool) -> (Seq<char>, Seq<char>) {
    let cash = crate::text::spec_eq_ignore_ascii_case(method, "cash"@)
        || crate::text::spec_eq_ignore_ascii_case(method, "numerar"@);
    if cash && !foreign {
        ("5311"@, "CASA"@)
    } else if cash && foreign {
        ("5314"@, "CASA"@)
    } else if foreign {
        ("5124"@, "BANCA"@)
    } else {
        ("5121"@, "BANCA"@)
    }
}

pub fn treasury_account(method: &str, foreign: bool) -> (r: (&'static str, &'static str))
    ensures
        (r.0@, r.1@) == spec_treasury(method@, foreign),
{
    let cash = crate::text::eq_ignore_ascii_case(method, "cash") || crate::text::eq_ignore_ascii_case(
        method,
        "numerar",
    );
    if cash && !foreign {
        ("5311", "CASA")
    } else if cash && foreign {
        ("5314", "CASA")
    } else if foreign {
        ("5124", "BANCA")
    } else {
        ("5121", "BANCA")
    }
}

/// VAT made exigible (or deductible) by a payment under cash VAT, for one rate.
#[derive(Clone, Copy, Debug)]
pub struct VatRelease {
    pub rate: Dec,
    pub vat: Dec,
}

/// The exigibility transfer lines of released VAT (skipping zero amounts): for a customer
/// payment D 4428 / C 4427, for a supplier payment D 4426 / C 4428.
pub open spec fn spec_release_lines(rs: Seq<VatRelease>, supplier: bool) -> Seq<GlLineView>
    decreases rs.len(),
{
    if rs.len() == 0 {
        seq![]
    } else {
        let r = rs.last();
        let pre = spec_release_lines(rs.drop_last(), supplier);
        if r.vat.val() == 0 {
            pre
        } else {
            let tag_d = TaxTagView {
                category: "S"@,
                rate: r.rate,
                base: None,
                amount: if supplier {
                    Some(r.vat)
                } else {
                    None
                },
            };
            let tag_c = TaxTagView {
                category: "S"@,
                rate: r.rate,
                base: None,
                amount: if supplier {
                    None
                } else {
                    Some(r.vat)
                },
            };
            pre + seq![
                GlLineView {
                    account: if supplier {
                        "4426"@
                    } else {
                        "4428"@
                    },
                    debit: r.vat,
                    credit: Dec { mant: 0, scale: 0 },
                    partner_cui: None,
                    tax: Some(tag_d),
                },
                GlLineView {
                    account: if supplier {
                        "4428"@
                    } else {
                        "4427"@
                    },
                    debit: Dec { mant: 0, scale: 0 },
                    credit: r.vat,
                    partner_cui: None,
                    tax: Some(tag_c),
                },
            ]
        }
    }
}

proof fn lemma_release_lines_balanced(rs: Seq<VatRelease>, supplier: bool)
    ensures
        balanced(spec_release_lines(rs, supplier)),
    decreases rs.len(),
{
    reveal_with_fuel(total_debit, 3);
    reveal_with_fuel(total_credit, 3);
    lemma_zero_val(0);
    if rs.len() > 0 {
        lemma_release_lines_balanced(rs.drop_last(), supplier);
        let r = rs.last();
        if r.vat.val() != 0 {
            let pre = spec_release_lines(rs.drop_last(), supplier);
            let two = spec_release_lines(rs, supplier).subrange(pre.len() as int, pre.len() + 2int);
            assert(spec_release_lines(rs, supplier) =~= pre + two);
            lemma_totals_concat(pre, two);
            assert(two.drop_last().drop_last() =~= Seq::<GlLineView>::empty());
        }
    }
}

fn push_release_lines(lines: &mut Vec<GlLine>, released: &Vec<VatRelease>, supplier: bool)
    requires
        forall|k: int| 0 <= k < released@.len() ==> (#[trigger] released@[k]).vat.wf(),
    ensures
        views(final(lines)@) == views(old(lines)@) + spec_release_lines(released@, supplier),
{
    let n = released.len();
    let mut i: usize = 0;
    assert(views(lines@) =~= views(old(lines)@) + spec_release_lines(released@.subrange(0, 0), supplier));
    while i < n
        invariant
            n == released@.len(),
            i <= n,
            forall|k: int| 0 <= k < released@.len() ==> (#[trigger] released@[k]).vat.wf(),
            views(lines@) == views(old(lines)@) + spec_release_lines(released@.subrange(0, i as int), supplier),
        decreases n - i,
    {
        let r = released[i];
        let ghost before = views(lines@);
        proof {
            let s = released@.subrange(0, i + 1);
            assert(s.drop_last() =~= released@.subrange(0, i as int));
            assert(s.last() == released@[i as int]);
            lemma_val_sign(released@[i as int].vat);
        }
        if r.vat.mant != 0 {
            let (acc_d, acc_c) = if supplier {
                ("4426", "4428")
            } else {
                ("4428", "4427")
            };
            let zero = Dec::zero();
            let ld = GlLine {
                account: owned(acc_d),
                debit: r.vat,
                credit: zero,
                partner_cui: None,
                tax: Some(
                    TaxTag {
                        category: owned("S"),
                        rate: r.rate,
                        base: None,
                        amount: if supplier {
                            Some(r.vat)
                        } else {
                            None
                        },
                    },
                ),
            };
            let lc = GlLine {
                account: owned(acc_c),
                debit: zero,
                credit: r.vat,
                partner_cui: None,
                tax: Some(
                    TaxTag {
                        category: owned("S"),
                        rate: r.rate,
                        base: None,
                        amount: if supplier {
                            None
                        } else {
                            Some(r.vat)
                        },
                    },
                ),
            };
            proof {
                lemma_views_push(lines@, ld);
            }
            lines.push(ld);
            proof {
                lemma_views_push(lines@, lc);
            }
            lines.push(lc);
            proof {
                let s = released@.subrange(0, i + 1);
                assert(views(lines@) =~= before + seq![ld@, lc@]);
                assert(views(lines@) =~= views(old(lines)@) + spec_release_lines(s, supplier));
            }
        } else {
            proof {
                let s = released@.subrange(0, i + 1);
                assert(views(lines@) =~= views(old(lines)@) + spec_release_lines(s, supplier));
            }
        }
        i = i + 1;
    }
    assert(released@.subrange(0, n as int) =~= released@);
}


/// The exchange-difference line of a settlement whose treasury amount differs from the
/// partner balance by `diff` (treasury − partner): for a customer receipt a positive
/// difference is a gain C 765 and a negative one a loss D 665; for a supplier payment
/// paying more is a loss D 665 and paying less a gain C 765. No line when `diff` is zero.
pub open spec fn spec_fx_lines(diff: Dec, customer: bool) -> Seq<GlLineView> {
    let z = Dec { mant: 0, scale: 0 };
    if diff.val() > 0 {
        if customer {
            seq![GlLineView { account: "765"@, debit: z, credit: diff, partner_cui: None, tax: None }]
        } else {
            seq![GlLineView { account: "665"@, debit: diff, credit: z, partner_cui: None, tax: None }]
        }
    } else if diff.val() < 0 {
        if customer {
            seq![GlLineView { account: "665"@, debit: neg_part(diff), credit: z, partner_cui: None, tax: None }]
        } else {
            seq![GlLineView { account: "765"@, debit: z, credit: neg_part(diff), partner_cui: None, tax: None }]
        }
    } else {
        seq![]
    }
}

fn fx_lines(diff: Dec, customer: bool) -> (r: Vec<GlLine>)
    requires
        diff.wf(),
    ensures
        views(r@) == spec_fx_lines(diff, customer),
{
    proof {
        lemma_parts(diff);
    }
    let mut v: Vec<GlLine> = Vec::new();
    if diff.is_positive() {
        if customer {
            v.push(plain_line("765", Dec::zero(), diff));
        } else {
            v.push(plain_line("665", diff, Dec::zero()));
        }
    } else if diff.is_negative() {
        if customer {
            v.push(plain_line("665", diff.neg(), Dec::zero()));
        } else {
            v.push(plain_line("765", Dec::zero(), diff.neg()));
        }
    }
    assert(views(v@) =~= spec_fx_lines(diff, customer));
    v
}

proof fn lemma_fx_lines_totals(diff: Dec, customer: bool)
    requires
        diff.wf(),
    ensures
        customer ==> total_debit(spec_fx_lines(diff, customer)) == neg_part(diff).val()
            && total_credit(spec_fx_lines(diff, customer)) == pos_part(diff).val(),
        !customer ==> total_debit(spec_fx_lines(diff, customer)) == pos_part(diff).val()
            && total_credit(spec_fx_lines(diff, customer)) == neg_part(diff).val(),
{
    lemma_parts(diff);
    lemma_zero_val(0);
    reveal_with_fuel(total_debit, 2);
    reveal_with_fuel(total_credit, 2);
    let s = spec_fx_lines(diff, customer);
    if s.len() == 1 {
        assert(s.drop_last() =~= Seq::<GlLineView>::empty());
    }
}

/// The journal of a customer receipt: D treasury `cash`, C 4111 `receivable` (with the
/// partner), the exchange difference, and the cash-VAT exigibility transfers D 4428 / C 4427.
/// `None` when `cash − receivable` does not fit the decimal range.
pub open spec fn spec_customer_payment_lines(
    cash: Dec,
    receivable: Dec,
    treasury: Seq<char>,
    partner_cui: Option<Seq<char>>,
    released: Seq<VatRelease>,
) -> Option<Seq<GlLineView>> {
    let z = Dec { mant: 0, scale: 0 };
    match spec_dec_sub(cash, receivable) {
        Some(diff) => Some(
            seq![
                GlLineView { account: treasury, debit: cash, credit: z, partner_cui: None, tax: None },
                GlLineView { account: "4111"@, debit: z, credit: receivable, partner_cui, tax: None },
            ] + spec_fx_lines(diff, true) + spec_release_lines(released, false),
        ),
        None => None,
    }
}

/// The journal of a supplier payment: D 401 `payable` (with the issuer), C treasury `cash`,
/// the exchange difference, and the cash-VAT deduction transfers D 4426 / C 4428.
pub open spec fn spec_supplier_payment_lines(
    cash: Dec,
    payable: Dec,
    treasury: Seq<char>,
    issuer_cui: Seq<char>,
    released: Seq<VatRelease>,
) -> Option<Seq<GlLineView>> {
    let z = Dec { mant: 0, scale: 0 };
    match spec_dec_sub(cash, payable) {
        Some(diff) => Some(
            seq![
                GlLineView { account: "401"@, debit: payable, credit: z, partner_cui: Some(issuer_cui), tax: None },
                GlLineView { account: treasury, debit: z, credit: cash, partner_cui: None, tax: None },
            ] + spec_fx_lines(diff, false) + spec_release_lines(released, true),
        ),
        None => None,
    }
}

/// Every customer-receipt and supplier-payment journal is balanced: the exchange difference
/// absorbs exactly the gap between the treasury amount and the partner balance.
pub proof fn lemma_payment_journals_balanced(
    cash: Dec,
    partner_amount: Dec,
    treasury: Seq<char>,
    partner_cui: Seq<char>,
    released: Seq<VatRelease>,
)
    requires
        cash.wf(),
        partner_amount.wf(),
    ensures
        spec_customer_payment_lines(cash, partner_amount, treasury, Some(partner_cui), released) matches Some(ls)
            ==> balanced(ls),
        spec_customer_payment_lines(cash, partner_amount, treasury, None, released) matches Some(ls)
            ==> balanced(ls),
        spec_supplier_payment_lines(cash, partner_amount, treasury, partner_cui, released) matches Some(ls)
            ==> balanced(ls),
{
    lemma_payment_balanced_one(cash, partner_amount, treasury, Some(partner_cui), released);
    lemma_payment_balanced_one(cash, partner_amount, treasury, None, released);
}

proof fn lemma_payment_balanced_one(
    cash: Dec,
    amount: Dec,
    treasury: Seq<char>,
    partner: Option<Seq<char>>,
    released: Seq<VatRelease>,
)
    requires
        cash.wf(),
        amount.wf(),
    ensures
        spec_customer_payment_lines(cash, amount, treasury, partner, released) matches Some(ls)
            ==> balanced(ls),
        partner matches Some(p) ==> (spec_supplier_payment_lines(cash, amount, treasury, p, released) matches Some(ls)
            ==> balanced(ls)),
{
    crate::decimal::lemma_spec_sub(cash, amount);
    if let Some(diff) = spec_dec_sub(cash, amount) {
        lemma_parts(diff);
        lemma_zero_val(0);
        lemma_release_lines_balanced(released, false);
        lemma_release_lines_balanced(released, true);
        lemma_fx_lines_totals(diff, true);
        lemma_fx_lines_totals(diff, false);
        reveal_with_fuel(total_debit, 3);
        reveal_with_fuel(total_credit, 3);
        let z = Dec { mant: 0, scale: 0 };
        let h1 = seq![
            GlLineView { account: treasury, debit: cash, credit: z, partner_cui: None, tax: None },
            GlLineView { account: "4111"@, debit: z, credit: amount, partner_cui: partner, tax: None },
        ];
        assert(h1.drop_last().drop_last() =~= Seq::<GlLineView>::empty());
        lemma_totals_concat(h1, spec_fx_lines(diff, true));
        lemma_totals_concat(h1 + spec_fx_lines(diff, true), spec_release_lines(released, false));
        if let Some(p) = partner {
            let h2 = seq![
                GlLineView { account: "401"@, debit: amount, credit: z, partner_cui: Some(p), tax: None },
                GlLineView { account: treasury, debit: z, credit: cash, partner_cui: None, tax: None },
            ];
            assert(h2.drop_last().drop_last() =~= Seq::<GlLineView>::empty());
            lemma_totals_concat(h2, spec_fx_lines(diff, false));
            lemma_totals_concat(h2 + spec_fx_lines(diff, false), spec_release_lines(released, true));
        }
    }
}

/// The cash-VAT transfer lines touch only 4426, 4427 and 4428.
proof fn lemma_release_lines_other(rs: Seq<VatRelease>, supplier: bool, acc: Seq<char>)
    requires
        acc != "4426"@,
        acc != "4427"@,
        acc != "4428"@,
    ensures
        account_debit(spec_release_lines(rs, supplier), acc) == 0,
        account_credit(spec_release_lines(rs, supplier), acc) == 0,
    decreases rs.len(),
{
    if rs.len() == 0 {
        reveal_with_fuel(account_debit, 1);
        reveal_with_fuel(account_credit, 1);
    } else {
        lemma_release_lines_other(rs.drop_last(), supplier, acc);
        let pre = spec_release_lines(rs.drop_last(), supplier);
        let full = spec_release_lines(rs, supplier);
        if rs.last().vat.val() != 0 {
            let tail = full.subrange(pre.len() as int, full.len() as int);
            assert(full =~= pre + tail);
            lemma_account_sides_concat(pre, tail, acc);
            lemma_account_sides_small(tail, acc);
        }
    }
}

/// Σ of the released VAT amounts.
pub open spec fn released_vat_sum(rs: Seq<VatRelease>) -> int
    decreases rs.len(),
{
    if rs.len() == 0 {
        0
    } else {
        released_vat_sum(rs.drop_last()) + rs.last().vat.val()
    }
}

proof fn lemma_vat_account_names()
    ensures
        "4426"@ != "4427"@,
        "4426"@ != "4428"@,
        "4427"@ != "4428"@,
        "665"@ != "4426"@, "665"@ != "4427"@, "665"@ != "4428"@,
        "765"@ != "4426"@, "765"@ != "4427"@, "765"@ != "4428"@,
        "4111"@ != "4426"@, "4111"@ != "4427"@, "4111"@ != "4428"@,
        "401"@ != "4426"@, "401"@ != "4427"@, "401"@ != "4428"@,
{
    reveal_strlit("4426");
    reveal_strlit("4427");
    reveal_strlit("4428");
    reveal_strlit("665");
    reveal_strlit("765");
    reveal_strlit("4111");
    reveal_strlit("401");
    assert("4426"@[3] != "4427"@[3]);
    assert("4426"@[3] != "4428"@[3]);
    assert("4427"@[3] != "4428"@[3]);
    assert("665"@.len() != "4426"@.len());
    assert("765"@.len() != "4426"@.len());
    assert("401"@.len() != "4426"@.len());
    assert("4111"@[1] != "4426"@[1]);
    assert("4111"@[1] != "4427"@[1]);
    assert("4111"@[1] != "4428"@[1]);
}

/// The cash-VAT transfer lines move each released amount: for a customer receipt from 4428
/// (debit) to 4427 (credit), for a supplier payment from 4428 (credit) to 4426 (debit).
proof fn lemma_release_lines_accounts(rs: Seq<VatRelease>, supplier: bool)
    ensures
        !supplier ==> account_debit(spec_release_lines(rs, supplier), "4428"@) == released_vat_sum(rs)
            && account_credit(spec_release_lines(rs, supplier), "4427"@) == released_vat_sum(rs)
            && account_credit(spec_release_lines(rs, supplier), "4428"@) == 0
            && account_debit(spec_release_lines(rs, supplier), "4427"@) == 0,
        supplier ==> account_debit(spec_release_lines(rs, supplier), "4426"@) == released_vat_sum(rs)
            && account_credit(spec_release_lines(rs, supplier), "4428"@) == released_vat_sum(rs)
            && account_credit(spec_release_lines(rs, supplier), "4426"@) == 0
            && account_debit(spec_release_lines(rs, supplier), "4428"@) == 0,
    decreases rs.len(),
{
    lemma_vat_account_names();
    lemma_zero_val(0);
    if rs.len() == 0 {
        reveal_with_fuel(account_debit, 1);
        reveal_with_fuel(account_credit, 1);
    } else {
        lemma_release_lines_accounts(rs.drop_last(), supplier);
        let pre = spec_release_lines(rs.drop_last(), supplier);
        let full = spec_release_lines(rs, supplier);
        if rs.last().vat.val() != 0 {
            let tail = full.subrange(pre.len() as int, full.len() as int);
            assert(full =~= pre + tail);
            lemma_account_sides_concat(pre, tail, "4426"@);
            lemma_account_sides_concat(pre, tail, "4427"@);
            lemma_account_sides_concat(pre, tail, "4428"@);
            lemma_account_sides_small(tail, "4426"@);
            lemma_account_sides_small(tail, "4427"@);
            lemma_account_sides_small(tail, "4428"@);
        }
    }
}

/// Cash VAT released by a settlement. A customer receipt debits 4428 and credits 4427 by
/// the Σ of the released VAT (the VAT becomes exigible); a supplier payment credits 4428
/// and debits 4426 by it (the VAT becomes deductible). In each, the other side of these
/// accounts is untouched.
pub proof fn lemma_payment_vat_release(
    cash: Dec,
    amount: Dec,
    treasury: Seq<char>,
    partner_cui: Option<Seq<char>>,
    issuer_cui: Seq<char>,
    released: Seq<VatRelease>,
)
    requires
        cash.wf(),
        amount.wf(),
        treasury != "4426"@,
        treasury != "4427"@,
        treasury != "4428"@,
    ensures
        spec_customer_payment_lines(cash, amount, treasury, partner_cui, released) matches Some(ls) ==> {
            &&& account_debit(ls, "4428"@) == released_vat_sum(released)
            &&& account_credit(ls, "4427"@) == released_vat_sum(released)
            &&& account_credit(ls, "4428"@) == 0
            &&& account_debit(ls, "4427"@) == 0
        },
        spec_supplier_payment_lines(cash, amount, treasury, issuer_cui, released) matches Some(ls) ==> {
            &&& account_debit(ls, "4426"@) == released_vat_sum(released)
            &&& account_credit(ls, "4428"@) == released_vat_sum(released)
            &&& account_credit(ls, "4426"@) == 0
            &&& account_debit(ls, "4428"@) == 0
        },
{
    lemma_vat_account_names();
    lemma_release_lines_accounts(released, false);
    lemma_release_lines_accounts(released, true);
    crate::decimal::lemma_spec_sub(cash, amount);
    if let Some(diff) = spec_dec_sub(cash, amount) {
        lemma_zero_val(0);
        let z = Dec { mant: 0, scale: 0 };
        let h1 = seq![
            GlLineView { account: treasury, debit: cash, credit: z, partner_cui: None, tax: None },
            GlLineView { account: "4111"@, debit: z, credit: amount, partner_cui: partner_cui, tax: None },
        ];
        let h2 = seq![
            GlLineView { account: "401"@, debit: amount, credit: z, partner_cui: Some(issuer_cui), tax: None },
            GlLineView { account: treasury, debit: z, credit: cash, partner_cui: None, tax: None },
        ];
        let f1 = spec_fx_lines(diff, true);
        let f2 = spec_fx_lines(diff, false);
        let r1 = spec_release_lines(released, false);
        let r2 = spec_release_lines(released, true);
        lemma_account_sides_small(h1, "4426"@);
        lemma_account_sides_small(h1, "4427"@);
        lemma_account_sides_small(h1, "4428"@);
        lemma_account_sides_small(h2, "4426"@);
        lemma_account_sides_small(h2, "4427"@);
        lemma_account_sides_small(h2, "4428"@);
        lemma_account_sides_small(f1, "4426"@);
        lemma_account_sides_small(f1, "4427"@);
        lemma_account_sides_small(f1, "4428"@);
        lemma_account_sides_small(f2, "4426"@);
        lemma_account_sides_small(f2, "4427"@);
        lemma_account_sides_small(f2, "4428"@);
        lemma_account_sides_concat(h1, f1, "4427"@);
        lemma_account_sides_concat(h1, f1, "4428"@);
        lemma_account_sides_concat(h1 + f1, r1, "4427"@);
        lemma_account_sides_concat(h1 + f1, r1, "4428"@);
        lemma_account_sides_concat(h2, f2, "4426"@);
        lemma_account_sides_concat(h2, f2, "4428"@);
        lemma_account_sides_concat(h2 + f2, r2, "4426"@);
        lemma_account_sides_concat(h2 + f2, r2, "4428"@);
    }
}

proof fn lemma_treasury_names(method: Seq<char>, foreign: bool)
    ensures
        spec_treasury(method, foreign).0 != "665"@,
        spec_treasury(method, foreign).0 != "765"@,
        spec_treasury(method, foreign).0 != "4426"@,
        spec_treasury(method, foreign).0 != "4427"@,
        spec_treasury(method, foreign).0 != "4428"@,
{
    reveal_strlit("4426");
    reveal_strlit("4427");
    reveal_strlit("4428");
    assert("5311"@[0] != "4426"@[0] && "5314"@[0] != "4426"@[0] && "5124"@[0] != "4426"@[0] && "5121"@[0] != "4426"@[0]) by {
        reveal_strlit("5311");
        reveal_strlit("5314");
        reveal_strlit("5124");
        reveal_strlit("5121");
    }
    assert("4426"@[0] == "4427"@[0] && "4426"@[0] == "4428"@[0]);
    reveal_strlit("665");
    reveal_strlit("765");
    reveal_strlit("5311");
    reveal_strlit("5314");
    reveal_strlit("5124");
    reveal_strlit("5121");
    assert("5311"@.len() != "665"@.len() && "5311"@.len() != "765"@.len());
    assert("5314"@.len() != "665"@.len() && "5314"@.len() != "765"@.len());
    assert("5124"@.len() != "665"@.len() && "5124"@.len() != "765"@.len());
    assert("5121"@.len() != "665"@.len() && "5121"@.len() != "765"@.len());
}

/// The exchange difference of a settlement. In a customer receipt, a treasury amount below
/// the receivable is a loss debited to 665 for the difference, and one above it a gain
/// credited to 765. In a supplier payment, paying more than the payable is a loss debited to
/// 665, and paying less a gain credited to 765. 665 is never credited and 765 never debited.
pub proof fn lemma_payment_exchange_differences(
    cash: Dec,
    amount: Dec,
    treasury: Seq<char>,
    partner_cui: Option<Seq<char>>,
    issuer_cui: Seq<char>,
    released: Seq<VatRelease>,
)
    requires
        cash.wf(),
        amount.wf(),
        treasury != "665"@,
        treasury != "765"@,
    ensures
        spec_customer_payment_lines(cash, amount, treasury, partner_cui, released) matches Some(ls) ==> {
            &&& account_debit(ls, "665"@) == (if cash.val() < amount.val() { amount.val() - cash.val() } else { 0 })
            &&& account_credit(ls, "665"@) == 0
            &&& account_credit(ls, "765"@) == (if cash.val() > amount.val() { cash.val() - amount.val() } else { 0 })
            &&& account_debit(ls, "765"@) == 0
        },
        spec_supplier_payment_lines(cash, amount, treasury, issuer_cui, released) matches Some(ls) ==> {
            &&& account_debit(ls, "665"@) == (if cash.val() > amount.val() { cash.val() - amount.val() } else { 0 })
            &&& account_credit(ls, "665"@) == 0
            &&& account_credit(ls, "765"@) == (if cash.val() < amount.val() { amount.val() - cash.val() } else { 0 })
            &&& account_debit(ls, "765"@) == 0
        },
{
    reveal_strlit("665");
    reveal_strlit("765");
    reveal_strlit("4111");
    reveal_strlit("401");
    reveal_strlit("4426");
    reveal_strlit("4427");
    reveal_strlit("4428");
    crate::decimal::lemma_spec_sub(cash, amount);
    if let Some(diff) = spec_dec_sub(cash, amount) {
        lemma_parts(diff);
        lemma_zero_val(0);
        let z = Dec { mant: 0, scale: 0 };
        let h1 = seq![
            GlLineView { account: treasury, debit: cash, credit: z, partner_cui: None, tax: None },
            GlLineView { account: "4111"@, debit: z, credit: amount, partner_cui: partner_cui, tax: None },
        ];
        let h2 = seq![
            GlLineView { account: "401"@, debit: amount, credit: z, partner_cui: Some(issuer_cui), tax: None },
            GlLineView { account: treasury, debit: z, credit: cash, partner_cui: None, tax: None },
        ];
        let f1 = spec_fx_lines(diff, true);
        let f2 = spec_fx_lines(diff, false);
        let r1 = spec_release_lines(released, false);
        let r2 = spec_release_lines(released, true);
        assert("665"@ != "765"@) by {
            assert("665"@[0] != "765"@[0]);
        }
        assert(diff.val() == cash.val() - amount.val());
        assert(diff.val() < 0 ==> pos_part(diff).val() == 0 && neg_part(diff).val() == amount.val() - cash.val());
        assert(diff.val() > 0 ==> neg_part(diff).val() == 0 && pos_part(diff).val() == cash.val() - amount.val());
        assert("665"@.len() != "4426"@.len() && "765"@.len() != "4426"@.len());
        assert("665"@ != "4426"@ && "665"@ != "4427"@ && "665"@ != "4428"@);
        assert("765"@ != "4426"@ && "765"@ != "4427"@ && "765"@ != "4428"@);
        assert("4111"@ != "665"@ && "4111"@ != "765"@ && "401"@ != "665"@ && "401"@ != "765"@) by {
            assert("4111"@.len() != "665"@.len());
            assert("401"@[0] != "665"@[0]);
            assert("401"@[0] != "765"@[0]);
        }
        lemma_release_lines_other(released, false, "665"@);
        lemma_release_lines_other(released, false, "765"@);
        lemma_release_lines_other(released, true, "665"@);
        lemma_release_lines_other(released, true, "765"@);
        lemma_account_sides_small(h1, "665"@);
        lemma_account_sides_small(h1, "765"@);
        lemma_account_sides_small(h2, "665"@);
        lemma_account_sides_small(h2, "765"@);
        lemma_account_sides_small(f1, "665"@);
        lemma_account_sides_small(f1, "765"@);
        lemma_account_sides_small(f2, "665"@);
        lemma_account_sides_small(f2, "765"@);
        lemma_account_sides_concat(h1, f1, "665"@);
        lemma_account_sides_concat(h1, f1, "765"@);
        lemma_account_sides_concat(h1 + f1, r1, "665"@);
        lemma_account_sides_concat(h1 + f1, r1, "765"@);
        lemma_account_sides_concat(h2, f2, "665"@);
        lemma_account_sides_concat(h2, f2, "765"@);
        lemma_account_sides_concat(h2 + f2, r2, "665"@);
        lemma_account_sides_concat(h2 + f2, r2, "765"@);
    }
}

fn append_lines(lines: &mut Vec<GlLine>, more: Vec<GlLine>)
    ensures
        views(final(lines)@) == views(old(lines)@) + views(more@),
{
    let mut more = more;
    let ghost m = more@;
    lines.append(&mut more);
    assert(views(lines@) =~= views(old(lines)@) + views(m));
}

/// Posts a customer receipt (see `spec_customer_payment_lines`); the treasury account follows
/// the payment method and currency (`treasury_account`).
pub fn post_payment(
    cash_ron: Dec,
    receivable_ron: Dec,
    foreign: bool,
    method: &str,
    partner_cui: &Option<String>,
    released: &Vec<VatRelease>,
) -> (r: Option<Vec<GlLine>>)
    requires
        cash_ron.wf(),
        receivable_ron.wf(),
        forall|k: int| 0 <= k < released@.len() ==> (#[trigger] released@[k]).vat.wf(),
    ensures
        r is None <==> spec_dec_sub(cash_ron, receivable_ron) is None,
        r matches Some(ls) ==> Some(views(ls@)) == spec_customer_payment_lines(
            cash_ron,
            receivable_ron,
            spec_treasury(method@, foreign).0,
            opt_str_view(*partner_cui),
            released@,
        ) && balanced(views(ls@)),
        r matches Some(ls) ==> {
            &&& account_debit(views(ls@), "665"@) == (if cash_ron.val() < receivable_ron.val() {
                receivable_ron.val() - cash_ron.val()
            } else {
                0
            })
            &&& account_credit(views(ls@), "665"@) == 0
            &&& account_credit(views(ls@), "765"@) == (if cash_ron.val() > receivable_ron.val() {
                cash_ron.val() - receivable_ron.val()
            } else {
                0
            })
            &&& account_debit(views(ls@), "765"@) == 0
            &&& account_debit(views(ls@), "4428"@) == released_vat_sum(released@)
            &&& account_credit(views(ls@), "4427"@) == released_vat_sum(released@)
        },
{
    let diff = match dec_sub(cash_ron, receivable_ron) {
        Some(d) => d,
        None => return None,
    };
    let (acc, _journal) = treasury_account(method, foreign);
    let mut lines: Vec<GlLine> = Vec::new();
    lines.push(plain_line(acc, cash_ron, Dec::zero()));
    lines.push(
        GlLine {
            account: owned("4111"),
            debit: Dec::zero(),
            credit: receivable_ron,
            partner_cui: clone_opt_string(partner_cui),
            tax: None,
        },
    );
    let ghost head = views(lines@);
    append_lines(&mut lines, fx_lines(diff, true));
    let ghost mid = views(lines@);
    push_release_lines(&mut lines, released, false);
    proof {
        lemma_payment_balanced_one(cash_ron, receivable_ron, spec_treasury(method@, foreign).0, opt_str_view(*partner_cui), released@);
        lemma_treasury_names(method@, foreign);
        lemma_payment_exchange_differences(cash_ron, receivable_ron, spec_treasury(method@, foreign).0, opt_str_view(*partner_cui), Seq::empty(), released@);
        lemma_payment_vat_release(cash_ron, receivable_ron, spec_treasury(method@, foreign).0, opt_str_view(*partner_cui), Seq::empty(), released@);
        assert(views(lines@) =~= spec_customer_payment_lines(
            cash_ron,
            receivable_ron,
            spec_treasury(method@, foreign).0,
            opt_str_view(*partner_cui),
            released@,
        ).unwrap());
    }
    Some(lines)
}

/// Posts a supplier payment (see `spec_supplier_payment_lines`).
pub fn post_received_payment(
    issuer_cui: &str,
    cash_ron: Dec,
    payable_ron: Dec,
    foreign: bool,
    method: &str,
    released: &Vec<VatRelease>,
) -> (r: Option<Vec<GlLine>>)
    requires
        cash_ron.wf(),
        payable_ron.wf(),
        forall|k: int| 0 <= k < released@.len() ==> (#[trigger] released@[k]).vat.wf(),
    ensures
        r is None <==> spec_dec_sub(cash_ron, payable_ron) is None,
        r matches Some(ls) ==> Some(views(ls@)) == spec_supplier_payment_lines(
            cash_ron,
            payable_ron,
            spec_treasury(method@, foreign).0,
            issuer_cui@,
            released@,
        ) && balanced(views(ls@)),
        r matches Some(ls) ==> {
            &&& account_debit(views(ls@), "665"@) == (if cash_ron.val() > payable_ron.val() {
                cash_ron.val() - payable_ron.val()
            } else {
                0
            })
            &&& account_credit(views(ls@), "665"@) == 0
            &&& account_credit(views(ls@), "765"@) == (if cash_ron.val() < payable_ron.val() {
                payable_ron.val() - cash_ron.val()
            } else {
                0
            })
            &&& account_debit(views(ls@), "765"@) == 0
            &&& account_debit(views(ls@), "4426"@) == released_vat_sum(released@)
            &&& account_credit(views(ls@), "4428"@) == released_vat_sum(released@)
        },
{
    let diff = match dec_sub(cash_ron, payable_ron) {
        Some(d) => d,
        None => return None,
    };
    let (acc, _journal) = treasury_account(method, foreign);
    let mut lines: Vec<GlLine> = Vec::new();
    lines.push(
        GlLine {
            account: owned("401"),
            debit: payable_ron,
            credit: Dec::zero(),
            partner_cui: Some(owned(issuer_cui)),
            tax: None,
        },
    );
    lines.push(plain_line(acc, Dec::zero(), cash_ron));
    append_lines(&mut lines, fx_lines(diff, false));
    push_release_lines(&mut lines, released, true);
    proof {
        lemma_payment_balanced_one(cash_ron, payable_ron, spec_treasury(method@, foreign).0, Some(issuer_cui@), released@);
        lemma_treasury_names(method@, foreign);
        lemma_payment_exchange_differences(cash_ron, payable_ron, spec_treasury(method@, foreign).0, None, issuer_cui@, released@);
        lemma_payment_vat_release(cash_ron, payable_ron, spec_treasury(method@, foreign).0, None, issuer_cui@, released@);
        assert(views(lines@) =~= spec_supplier_payment_lines(
            cash_ron,
            payable_ron,
            spec_treasury(method@, foreign).0,
            issuer_cui@,
            released@,
        ).unwrap());
    }
    Some(lines)
}


// ─── Regime decisions of the posting run ────────────────────────────────────────

/// Counts of one posting run.
#[derive(Clone, Copy, Debug)]
pub struct GlPostResult {
    pub journals_inserted: i64,
    pub entries_inserted: i64,
    pub journals_replaced: i64,
    pub skipped_received: i64,
}

/// `s` with every `RO` removed, scanning left to right (as `str::replace("RO", "")`).
pub open spec fn spec_remove_ro(s: Seq<char>) -> Seq<char>
    decreases s.len(),
{
    if s.len() == 0 {
        s
    } else if s.len() >= 2 && s[0] == 'R' && s[1] == 'O' {
        spec_remove_ro(s.subrange(2, s.len() as int))
    } else {
        seq![s[0]] + spec_remove_ro(s.drop_first())
    }
}

/// A CUI as compared across the ledger: trimmed, upper-cased, without the `RO` prefix
/// (every `RO` is removed).
pub open spec fn spec_normalize_cui(s: Seq<char>) -> Seq<char> {
    spec_remove_ro(crate::text::spec_to_uppercase(spec_trim(s)))
}

pub fn normalize_cui(s: &str) -> (r: String)
    ensures
        r@ == spec_normalize_cui(s@),
{
    let u = crate::text::to_uppercase(trim(s));
    let t = u.as_str();
    let n = t.unicode_len();
    let mut out = String::new();
    let mut i: usize = 0;
    proof {
        assert(t@.subrange(0, n as int) =~= t@);
        assert(out@ =~= Seq::<char>::empty());
        assert(out@ + spec_remove_ro(t@.subrange(0, n as int)) =~= spec_remove_ro(t@));
    }
    while i < n
        invariant
            n == t@.len(),
            i <= n,
            out@ + spec_remove_ro(t@.subrange(i as int, n as int)) == spec_remove_ro(t@),
        decreases n - i,
    {
        let ghost rest = t@.subrange(i as int, n as int);
        if i + 1 < n && t.get_char(i) == 'R' && t.get_char(i + 1) == 'O' {
            proof {
                assert(rest[0] == 'R' && rest[1] == 'O');
                assert(rest.subrange(2, rest.len() as int) =~= t@.subrange(i + 2, n as int));
            }
            i = i + 2;
        } else {
            let c = t.get_char(i);
            let ghost before = out@;
            crate::text::push_char(&mut out, c);
            proof {
                assert(rest[0] == c);
                assert(rest.drop_first() =~= t@.subrange(i + 1, n as int));
                assert(!(rest.len() >= 2 && rest[0] == 'R' && rest[1] == 'O'));
                assert(spec_remove_ro(rest) == seq![c] + spec_remove_ro(rest.drop_first()));
                assert(out@ + spec_remove_ro(t@.subrange(i + 1, n as int)) =~= before + spec_remove_ro(rest));
            }
            i = i + 1;
        }
    }
    proof {
        assert(t@.subrange(n as int, n as int) =~= Seq::<char>::empty());
        assert(out@ =~= out@ + spec_remove_ro(t@.subrange(n as int, n as int)));
    }
    out
}

/// A document dated `issue_date` falls in the company's cash-VAT window: the company
/// applies cash VAT, and the date is not before the start nor after the end (text order,
/// each bound when present).
pub open spec fn spec_in_cash_vat_window(cash_vat: bool, start: Option<Seq<char>>, end: Option<Seq<char>>, issue_date: Seq<char>) -> bool {
    &&& cash_vat
    &&& (start matches Some(s) ==> !crate::text::spec_lex_lt(issue_date, s))
    &&& (end matches Some(e) ==> !crate::text::spec_lex_lt(e, issue_date))
}

pub fn in_cash_vat_window(cash_vat: bool, start: &Option<String>, end: &Option<String>, issue_date: &str) -> (r: bool)
    ensures
        r == spec_in_cash_vat_window(cash_vat, opt_str_view(*start), opt_str_view(*end), issue_date@),
{
    if !cash_vat {
        return false;
    }
    let after_start = match start {
        Some(s) => !crate::text::lex_lt(issue_date, s.as_str()),
        None => true,
    };
    let before_end = match end {
        Some(e) => !crate::text::lex_lt(e.as_str(), issue_date),
        None => true,
    };
    after_start && before_end
}

/// The supplier applies cash VAT: its normalized CUI is one of the (non-empty) normalized
/// CUIs of the suppliers flagged so.
pub fn supplier_on_cash_vat(cash_vat_cuis: &Vec<String>, issuer_cui: &str) -> (r: bool)
    ensures
        r == exists|k: int| 0 <= k < cash_vat_cuis@.len() && cash_vat_cuis@[k]@.len() > 0
            && cash_vat_cuis@[k]@ == spec_normalize_cui(issuer_cui@),
{
    let c = normalize_cui(issuer_cui);
    let n = cash_vat_cuis.len();
    let mut i: usize = 0;
    while i < n
        invariant
            n == cash_vat_cuis@.len(),
            i <= n,
            c@ == spec_normalize_cui(issuer_cui@),
            forall|k: int| 0 <= k < i ==> !(cash_vat_cuis@[k]@.len() > 0 && cash_vat_cuis@[k]@ == c@),
        decreases n - i,
    {
        let x = cash_vat_cuis[i].as_str();
        if x.unicode_len() > 0 && str_eq(x, c.as_str()) {
            return true;
        }
        i = i + 1;
    }
    false
}

/// Output VAT of an issued invoice is deferred (4428) only for a live sale in the window: not
/// a credit note and not a cancelled (storned) original.
pub fn sales_cash_vat_applies(is_storno: bool, status: &str, in_window: bool) -> (r: bool)
    ensures
        r == (!is_storno && status@ != "STORNED"@ && in_window),
{
    !is_storno && !str_eq(status, "STORNED") && in_window
}

/// The collection of a payment releases cash VAT only for an invoice that is neither a
/// credit note nor storned and that was issued in the window.
pub fn payment_releases_cash_vat(has_storno_ref: bool, inv_status: &str, in_window: bool) -> (r: bool)
    ensures
        r == (!(has_storno_ref || inv_status@ == "STORNED"@) && in_window),
{
    !(has_storno_ref || str_eq(inv_status, "STORNED")) && in_window
}

/// A currency other than RON (any ASCII case).
pub fn is_foreign_currency(currency: &str) -> (r: bool)
    ensures
        r == !crate::text::spec_eq_ignore_ascii_case(currency@, "RON"@),
{
    !crate::text::eq_ignore_ascii_case(currency, "RON")
}

/// The document number of a received invoice: series and number joined, or the record id
/// when both are empty.
pub fn received_doc_number(series: &str, number: &str, recv_id: &str) -> (r: String)
    ensures
        r@ == (if series@.len() == 0 && number@.len() == 0 { recv_id@ } else { series@ + number@ }),
{
    if series.unicode_len() == 0 && number.unicode_len() == 0 {
        owned(recv_id)
    } else {
        crate::text::concat_str(series, number)
    }
}

/// The lei amount the cash moved at: at the payment rate when the invoice rate is known,
/// else the receivable itself.
pub fn settlement_cash(invoice_rate_known: bool, receivable_ron: Dec, cash_at_payment_rate: Dec) -> (r: Dec)
    ensures
        r == (if invoice_rate_known { cash_at_payment_rate } else { receivable_ron }),
{
    if invoice_rate_known { cash_at_payment_rate } else { receivable_ron }
}

// ─── Journal headers ────────────────────────────────────────────────────────────

/// The header of a posted journal: the journal (register) it belongs to, its type, the
/// transaction, its date and description, the document it comes from and the partner.
pub struct JournalHeader {
    pub journal_id: String,
    pub journal_type: String,
    pub transaction_id: String,
    pub transaction_date: String,
    pub description: String,
    pub source_type: String,
    pub source_id: String,
    pub customer_id: Option<String>,
    pub supplier_id: Option<String>,
}

/// The header's texts: journal id, journal type, transaction, date, description, source
/// type, source id, customer and supplier.
pub open spec fn header_view(h: JournalHeader) -> (Seq<char>, Seq<char>, Seq<char>, Seq<char>, Seq<char>, Seq<char>, Seq<char>, Option<Seq<char>>, Option<Seq<char>>) {
    (h.journal_id@, h.journal_type@, h.transaction_id@, h.transaction_date@, h.description@, h.source_type@,
        h.source_id@, opt_str_view(h.customer_id), opt_str_view(h.supplier_id))
}

/// The journal of an issued invoice (or its storno): VANZARI / SALES, transaction the full
/// number, dated at issue, source INVOICE and the invoice's id, for the customer.
pub fn sales_journal_header(invoice_id: &str, full_number: &str, issue_date: &str, is_storno: bool, customer_id: &str) -> (h: JournalHeader)
    ensures
        header_view(h) == ("VANZARI"@, "SALES"@, full_number@, issue_date@,
            (if is_storno { "Storno factura "@ } else { "Factura "@ }) + full_number@, "INVOICE"@, invoice_id@,
            Some(customer_id@), None::<Seq<char>>),
{
    let prefix = if is_storno { "Storno factura " } else { "Factura " };
    JournalHeader {
        journal_id: owned("VANZARI"),
        journal_type: owned("SALES"),
        transaction_id: owned(full_number),
        transaction_date: owned(issue_date),
        description: concat_str(prefix, full_number),
        source_type: owned("INVOICE"),
        source_id: owned(invoice_id),
        customer_id: Some(owned(customer_id)),
        supplier_id: None,
    }
}

/// The journal of a received invoice: CUMPARARI / PURCHASE, transaction the document
/// number, dated at issue, source RECEIVED_INVOICE and the invoice's id, for the supplier.
pub fn purchase_journal_header(received_invoice_id: &str, doc_number: &str, issue_date: &str, supplier_id: &str) -> (h: JournalHeader)
    ensures
        header_view(h) == ("CUMPARARI"@, "PURCHASE"@, doc_number@, issue_date@, "Factura primita "@ + doc_number@,
            "RECEIVED_INVOICE"@, received_invoice_id@, None::<Seq<char>>, Some(supplier_id@)),
{
    JournalHeader {
        journal_id: owned("CUMPARARI"),
        journal_type: owned("PURCHASE"),
        transaction_id: owned(doc_number),
        transaction_date: owned(issue_date),
        description: concat_str("Factura primita ", doc_number),
        source_type: owned("RECEIVED_INVOICE"),
        source_id: owned(received_invoice_id),
        customer_id: None,
        supplier_id: Some(owned(supplier_id)),
    }
}

/// The journal of a customer payment: the treasury's journal (BANCA or CASA, see
/// `spec_treasury`) / PAYMENT, transaction and source the payment (source type PAYMENT),
/// dated when paid, for the customer.
pub fn payment_journal_header(payment_id: &str, invoice_id: &str, paid_at: &str, method: &str, foreign: bool, customer_id: &str) -> (h: JournalHeader)
    ensures
        header_view(h) == (spec_treasury(method@, foreign).1, "PAYMENT"@, payment_id@, paid_at@,
            "Incasare factura "@ + invoice_id@, "PAYMENT"@, payment_id@, Some(customer_id@), None::<Seq<char>>),
{
    let (_, journal_id) = treasury_account(method, foreign);
    JournalHeader {
        journal_id: owned(journal_id),
        journal_type: owned("PAYMENT"),
        transaction_id: owned(payment_id),
        transaction_date: owned(paid_at),
        description: concat_str("Incasare factura ", invoice_id),
        source_type: owned("PAYMENT"),
        source_id: owned(payment_id),
        customer_id: Some(owned(customer_id)),
        supplier_id: None,
    }
}

/// The journal of a supplier payment: the treasury's journal (BANCA or CASA) / PAYMENT,
/// transaction and source the payment (source type RECEIVED_PAYMENT), dated when paid, for
/// the supplier.
pub fn received_payment_journal_header(payment_id: &str, received_invoice_id: &str, paid_at: &str, method: &str, foreign: bool, supplier_id: &str) -> (h: JournalHeader)
    ensures
        header_view(h) == (spec_treasury(method@, foreign).1, "PAYMENT"@, payment_id@, paid_at@,
            "Plata furnizor factura "@ + received_invoice_id@, "RECEIVED_PAYMENT"@, payment_id@, None::<Seq<char>>,
            Some(supplier_id@)),
{
    let (_, journal_id) = treasury_account(method, foreign);
    JournalHeader {
        journal_id: owned(journal_id),
        journal_type: owned("PAYMENT"),
        transaction_id: owned(payment_id),
        transaction_date: owned(paid_at),
        description: concat_str("Plata furnizor factura ", received_invoice_id),
        source_type: owned("RECEIVED_PAYMENT"),
        source_id: owned(payment_id),
        customer_id: None,
        supplier_id: Some(owned(supplier_id)),
    }
}

} // verus!
