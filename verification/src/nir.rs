//! Goods received notes (NIR): validation and values of a line (cost, retail mark-up and
//! non-exigible VAT) and the note posted when a NIR is finalized.

use vstd::prelude::*;
use crate::decimal::{
    Dec, dec_add, dec_mul, spec_dec_add, spec_dec_mul, lemma_spec_add, lemma_val_sign,
    lemma_zero_val, round2, spec_round_dp_away, checked_div, decimal_checked_div, parse_decimal, decimal_from_str,
};
use crate::gl::{
    GlLine, GlLineView, views, balanced, total_debit, total_credit, plain_line, lemma_views_push, lemma_totals_concat,
    account_credit, lemma_account_sides_concat, lemma_account_sides_small,
};
use crate::closing::{pline, zero_dec};
use crate::grouping::{spec_groups, group_sums, lemma_groups, pair_views, all_wf, sum_vals};
use crate::payment_instruments::spec_parse_amount;
use crate::text::{owned, str_eq, trim, spec_trim, concat_str, push_str};

verus! {

/// A NIR document.
#[derive(Clone, Debug)]
pub struct NirDocument {
    pub id: String,
    pub company_id: String,
    pub gestiune_id: String,
    pub received_invoice_id: Option<String>,
    pub supplier_name: Option<String>,
    pub supplier_cui: Option<String>,
    pub nir_series: Option<String>,
    pub nir_number: i64,
    pub nir_date: String,
    pub retail_mode: bool,
    pub status: String,
    pub comisie_receptie: Option<String>,
    pub observatii: Option<String>,
    pub created_at: i64,
    pub finalized_at: Option<i64>,
}

/// A stored NIR line.
#[derive(Clone, Debug)]
pub struct NirLine {
    pub id: String,
    pub nir_id: String,
    pub product_id: Option<String>,
    pub denumire: String,
    pub um: Option<String>,
    pub qty: String,
    pub unit_cost: String,
    pub vat_rate: String,
    pub adaos_pct: Option<String>,
    pub value_cost: String,
    pub value_adaos: String,
    pub value_tva_neex: String,
    pub pret_amanunt: String,
    pub line_no: i64,
}

/// A NIR with its lines.
#[derive(Clone, Debug)]
pub struct NirWithLines {
    pub document: NirDocument,
    pub lines: Vec<NirLine>,
}

/// An entered NIR line.
#[derive(Clone, Debug)]
pub struct NirLineInput {
    pub product_id: Option<String>,
    pub denumire: String,
    pub um: Option<String>,
    pub qty: String,
    pub unit_cost: String,
    pub vat_rate: String,
    pub adaos_pct: Option<String>,
    pub line_no: i64,
}

/// An entered NIR.
#[derive(Clone, Debug)]
pub struct NirInput {
    pub gestiune_id: String,
    pub received_invoice_id: Option<String>,
    pub supplier_name: Option<String>,
    pub supplier_cui: Option<String>,
    pub nir_date: String,
    pub retail_mode: Option<bool>,
    pub comisie_receptie: Option<String>,
    pub observatii: Option<String>,
    pub lines: Vec<NirLineInput>,
}

/// Why a NIR line was refused (lines are numbered from 1).
#[derive(Clone, Debug)]
pub enum NirError {
    /// The line has no name.
    EmptyName(usize),
    /// The quantity is not a number.
    InvalidQuantity(usize),
    /// The quantity is not above zero.
    NonPositiveQuantity(usize),
    /// The unit cost is not a number.
    InvalidUnitCost(usize),
    /// The unit cost is negative.
    NegativeUnitCost(usize),
    /// The mark-up is not a number.
    InvalidMarkup(usize),
    /// An amount leaves the decimal range.
    Overflow(usize),
    /// The reception date is not a calendar date `YYYY-MM-DD`.
    InvalidDate,
    /// A NIR needs at least one line.
    NoLines,
    /// The received invoice has no VAT lines to fill a NIR from.
    NoVatLines,
    /// Only a draft NIR can be finalized.
    NotDraft,
}

/// Why a VAT rate was refused on a reception note.
#[derive(Clone, Copy, Debug, PartialEq, Eq, Structural)]
pub enum VatRateError {
    /// No active rate has that text.
    Inactive,
    /// The stored active rate is not a number.
    Unreadable,
}

/// The rate that the lookup of the active VAT rates found: `found` is the stored text of
/// the active rate equal to the one asked for, `None` when there is none.
pub open spec fn spec_active_vat_rate(found: Option<Seq<char>>) -> Result<Dec, VatRateError> {
    match found {
        None => Err(VatRateError::Inactive),
        Some(t) => match decimal_from_str(spec_trim(t)) {
            Some((m, sc)) => Ok(Dec { mant: m, scale: sc }),
            None => Err(VatRateError::Unreadable),
        },
    }
}

/// Turns the lookup of an active VAT rate into the rate's value, or the reason it is refused.
pub fn active_vat_rate(found: &Option<String>) -> (r: Result<Dec, VatRateError>)
    ensures
        r == spec_active_vat_rate(opt_seq(found)),
        r matches Ok(d) ==> d.wf(),
{
    match found {
        None => Err(VatRateError::Inactive),
        Some(t) => {
            let tt = trim(t.as_str());
            match parse_decimal(tt) {
                Some(d) => Ok(d),
                None => Err(VatRateError::Unreadable),
            }
        },
    }
}

/// The text of an optional string.
pub open spec fn opt_seq(o: &Option<String>) -> Option<Seq<char>> {
    match o {
        Some(t) => Some(t@),
        None => None,
    }
}

/// The first refusal of a line's name, quantity and unit cost (checked in this order),
/// with its quantity and unit cost when accepted.
pub open spec fn spec_line_basics(ln: NirLineInput, no: usize) -> Result<(Dec, Dec), NirError> {
    if spec_trim(ln.denumire@).len() == 0 {
        Err(NirError::EmptyName(no))
    } else {
        match spec_parse_amount(ln.qty@) {
            None => Err(NirError::InvalidQuantity(no)),
            Some(q) => if q.val() <= 0 {
                Err(NirError::NonPositiveQuantity(no))
            } else {
                match spec_parse_amount(ln.unit_cost@) {
                    None => Err(NirError::InvalidUnitCost(no)),
                    Some(c) => if c.val() < 0 { Err(NirError::NegativeUnitCost(no)) } else { Ok((q, c)) },
                }
            },
        }
    }
}

/// Checks a line's name, quantity and unit cost (`no` is its number, from 1).
pub fn check_line_basics(ln: &NirLineInput, no: usize) -> (r: Result<(Dec, Dec), NirError>)
    ensures
        r == spec_line_basics(*ln, no),
        r matches Ok((q, c)) ==> q.wf() && c.wf(),
{
    if trim(ln.denumire.as_str()).unicode_len() == 0 {
        return Err(NirError::EmptyName(no));
    }
    let q = match crate::payment_instruments::parse_amount(ln.qty.as_str()) {
        Ok(d) => d,
        Err(_) => return Err(NirError::InvalidQuantity(no)),
    };
    proof {
        lemma_val_sign(q);
    }
    if !q.is_positive() {
        return Err(NirError::NonPositiveQuantity(no));
    }
    let c = match crate::payment_instruments::parse_amount(ln.unit_cost.as_str()) {
        Ok(d) => d,
        Err(_) => return Err(NirError::InvalidUnitCost(no)),
    };
    proof {
        lemma_val_sign(c);
    }
    if c.is_negative() {
        return Err(NirError::NegativeUnitCost(no));
    }
    Ok((q, c))
}

/// The values of a line.
#[derive(Clone, Copy, Debug)]
pub struct NirLineValues {
    pub adaos_pct: Option<Dec>,
    pub value_cost: Dec,
    pub value_adaos: Dec,
    pub value_tva_neex: Dec,
    pub pret_amanunt: Dec,
}

/// `x × p / 100` with `Decimal`'s division, rounded to two decimals (midpoints away from
/// zero).
pub open spec fn spec_pct(x: Dec, p: Dec) -> Option<Dec> {
    match spec_dec_mul(x, p) {
        Some(m) => match decimal_checked_div(m.mant, m.scale, 100, 0) {
            Some((qm, qs)) => Some(spec_round_dp_away(Dec { mant: qm, scale: qs }, 2)),
            None => None,
        },
        None => None,
    }
}

fn pct(x: Dec, p: Dec) -> (r: Option<Dec>)
    requires
        x.wf(),
        p.wf(),
    ensures
        r == spec_pct(x, p),
        r matches Some(d) ==> d.wf(),
        x.mant == 0 || p.mant == 0 ==> (r matches Some(d) && d.val() == 0),
{
    let m = match dec_mul(x, p) {
        Some(v) => v,
        None => return None,
    };
    proof {
        if x.mant == 0 || p.mant == 0 {
            assert(m == Dec { mant: 0, scale: 0 });
            lemma_zero_val(0);
        }
    }
    match checked_div(m, Dec { mant: 100, scale: 0 }) {
        Some(q) => Some(round2(q)),
        None => None,
    }
}

/// The mark-up of a line: a blank or absent text is none; otherwise it must read as a
/// number.
pub open spec fn spec_markup(adaos: Option<String>) -> Option<Option<Dec>> {
    match adaos {
        Some(s) => if spec_trim(s@).len() == 0 {
            Some(None)
        } else {
            match spec_parse_amount(s@) {
                Some(d) => Some(Some(d)),
                None => None,
            }
        },
        None => Some(None),
    }
}

/// The values of an accepted line: cost `qty × unit cost` (two decimals); in retail mode
/// with a mark-up, the mark-up `cost × adaos / 100`, the non-exigible VAT
/// `(cost + mark-up) × rate / 100` (each two decimals) and the retail price
/// `cost + mark-up + VAT`; zero otherwise.
pub open spec fn spec_line_values(qty: Dec, cost: Dec, vat_rate: Dec, adaos: Option<Dec>, retail: bool) -> Option<NirLineValues> {
    match spec_dec_mul(qty, cost) {
        None => None,
        Some(p) => {
            let vc = spec_round_dp_away(p, 2);
            match adaos {
                Some(a) => if retail {
                    match spec_pct(vc, a) {
                        Some(va) => match spec_dec_add(vc, va) {
                            Some(baza) => match spec_pct(baza, vat_rate) {
                                Some(vt) => match spec_dec_add(baza, vt) {
                                    Some(pret) => Some(NirLineValues { adaos_pct: adaos, value_cost: vc, value_adaos: va, value_tva_neex: vt, pret_amanunt: pret }),
                                    None => None,
                                },
                                None => None,
                            },
                            None => None,
                        },
                        None => None,
                    }
                } else {
                    Some(NirLineValues { adaos_pct: adaos, value_cost: vc, value_adaos: zero_dec(), value_tva_neex: zero_dec(), pret_amanunt: zero_dec() })
                },
                None => Some(NirLineValues { adaos_pct: adaos, value_cost: vc, value_adaos: zero_dec(), value_tva_neex: zero_dec(), pret_amanunt: zero_dec() }),
            }
        },
    }
}

/// Values of a line whose basics were accepted, with its validated VAT rate.
pub fn line_values(ln: &NirLineInput, no: usize, qty: Dec, cost: Dec, vat_rate: Dec, retail: bool) -> (r: Result<NirLineValues, NirError>)
    requires
        qty.wf(),
        cost.wf(),
        vat_rate.wf(),
    ensures
        spec_markup(ln.adaos_pct) is None ==> (r matches Err(NirError::InvalidMarkup(k)) && k == no),
        spec_markup(ln.adaos_pct) matches Some(a) ==> match spec_line_values(qty, cost, vat_rate, a, retail) {
            Some(v) => (r matches Ok(x) && x == v),
            None => (r matches Err(NirError::Overflow(k)) && k == no),
        },
{
    let adaos: Option<Dec> = match &ln.adaos_pct {
        Some(s) => {
            if trim(s.as_str()).unicode_len() == 0 {
                None
            } else {
                match crate::payment_instruments::parse_amount(s.as_str()) {
                    Ok(d) => Some(d),
                    Err(_) => return Err(NirError::InvalidMarkup(no)),
                }
            }
        },
        None => None,
    };
    let p = match dec_mul(qty, cost) {
        Some(v) => v,
        None => return Err(NirError::Overflow(no)),
    };
    let vc = round2(p);
    let z = Dec::zero();
    match adaos {
        Some(a) => {
            if retail {
                let va = match pct(vc, a) {
                    Some(v) => v,
                    None => return Err(NirError::Overflow(no)),
                };
                proof {
                    lemma_spec_add(vc, va);
                }
                let baza = match dec_add(vc, va) {
                    Some(v) => v,
                    None => return Err(NirError::Overflow(no)),
                };
                let vt = match pct(baza, vat_rate) {
                    Some(v) => v,
                    None => return Err(NirError::Overflow(no)),
                };
                let pret = match dec_add(baza, vt) {
                    Some(v) => v,
                    None => return Err(NirError::Overflow(no)),
                };
                Ok(NirLineValues { adaos_pct: adaos, value_cost: vc, value_adaos: va, value_tva_neex: vt, pret_amanunt: pret })
            } else {
                Ok(NirLineValues { adaos_pct: adaos, value_cost: vc, value_adaos: z, value_tva_neex: z, pret_amanunt: z })
            }
        },
        None => Ok(NirLineValues { adaos_pct: adaos, value_cost: vc, value_adaos: z, value_tva_neex: z, pret_amanunt: z }),
    }
}

// ─── The note of a finalized NIR ────────────────────────────────────────────────

/// A stocked line of a NIR as it enters the note: the product's stock and expense
/// accounts and the stored values.
#[derive(Clone, Debug)]
pub struct NirStockedLine {
    pub stock_account: String,
    pub expense_account: String,
    pub value_cost: Dec,
    pub value_adaos: Dec,
    pub value_tva_neex: Dec,
}

/// The lines of a group list that carry a positive amount, debited.
pub open spec fn spec_pos_debits(g: Seq<(Seq<char>, Dec)>) -> Seq<GlLineView>
    decreases g.len(),
{
    if g.len() == 0 {
        seq![]
    } else {
        let pre = spec_pos_debits(g.drop_last());
        if g.last().1.val() > 0 { pre.push(pline(g.last().0, g.last().1, zero_dec())) } else { pre }
    }
}

/// The expense items of the note: every line for a NIR without invoice; for a NIR linked
/// to an invoice only the lines whose expense account is not 607.
pub open spec fn spec_expense_items(ls: Seq<NirStockedLine>, standalone: bool) -> Seq<(Seq<char>, Dec)>
    decreases ls.len(),
{
    if ls.len() == 0 {
        seq![]
    } else {
        let pre = spec_expense_items(ls.drop_last(), standalone);
        let l = ls.last();
        if standalone || l.expense_account@ != "607"@ { pre.push((l.expense_account@, l.value_cost)) } else { pre }
    }
}

/// The retail items: per line, its stock account with mark-up + VAT; `None` when a sum
/// leaves the decimal range.
pub open spec fn spec_retail_items(ls: Seq<NirStockedLine>) -> Option<Seq<(Seq<char>, Dec)>>
    decreases ls.len(),
{
    if ls.len() == 0 {
        Some(seq![])
    } else {
        match spec_retail_items(ls.drop_last()) {
            Some(pre) => match spec_dec_add(ls.last().value_adaos, ls.last().value_tva_neex) {
                Some(s) => Some(pre.push((ls.last().stock_account@, s))),
                None => None,
            },
            None => None,
        }
    }
}

/// Σ of the amounts of a list, left to right.
pub open spec fn spec_total(items: Seq<(Seq<char>, Dec)>) -> Option<Dec>
    decreases items.len(),
{
    if items.len() == 0 {
        Some(zero_dec())
    } else {
        match spec_total(items.drop_last()) {
            Some(t) => spec_dec_add(t, items.last().1),
            None => None,
        }
    }
}

pub open spec fn adaos_items(ls: Seq<NirStockedLine>) -> Seq<(Seq<char>, Dec)> {
    ls.map_values(|l: NirStockedLine| (l.stock_account@, l.value_adaos))
}

pub open spec fn tva_items(ls: Seq<NirStockedLine>) -> Seq<(Seq<char>, Dec)> {
    ls.map_values(|l: NirStockedLine| (l.stock_account@, l.value_tva_neex))
}

/// The note of a finalized NIR: when the expense total is positive, D each expense account
/// (grouped, positive amounts) and C 408 (no invoice) or C 607 (linked invoice) for the
/// total; in retail mode, when the mark-up or VAT total is positive, D each stock account
/// (grouped, positive mark-up + VAT), C 378 the mark-up total and C 4428 the VAT total
/// (each when positive).
pub open spec fn spec_nir_note(ls: Seq<NirStockedLine>, standalone: bool, retail: bool) -> Option<Seq<GlLineView>> {
    let ei = spec_expense_items(ls, standalone);
    match (spec_groups(ei), spec_total(ei), spec_retail_items(ls), spec_total(adaos_items(ls)), spec_total(tva_items(ls))) {
        (Some(eg), Some(et), Some(ri), Some(at), Some(tt)) => match spec_groups(ri) {
            Some(rg) => {
                let part1 = if et.val() > 0 {
                    spec_pos_debits(eg) + seq![pline(if standalone { "408"@ } else { "607"@ }, zero_dec(), et)]
                } else {
                    seq![]
                };
                let part2 = if retail && (at.val() > 0 || tt.val() > 0) {
                    spec_pos_debits(rg)
                        + (if at.val() > 0 { seq![pline("378"@, zero_dec(), at)] } else { seq![] })
                        + (if tt.val() > 0 { seq![pline("4428"@, zero_dec(), tt)] } else { seq![] })
                } else {
                    seq![]
                };
                Some(part1 + part2)
            },
            None => None,
        },
        _ => None,
    }
}

pub open spec fn nonneg_items(items: Seq<(Seq<char>, Dec)>) -> bool {
    forall|i: int| 0 <= i < items.len() ==> (#[trigger] items[i]).1.wf() && items[i].1.val() >= 0
}

proof fn lemma_total(items: Seq<(Seq<char>, Dec)>)
    requires
        all_wf(items),
    ensures
        spec_total(items) matches Some(t) ==> t.wf() && t.val() == sum_vals(items),
    decreases items.len(),
{
    lemma_zero_val(0);
    if items.len() > 0 {
        let pre = items.drop_last();
        assert(all_wf(pre)) by {
            assert forall|i: int| 0 <= i < pre.len() implies (#[trigger] pre[i]).1.wf() by {
                assert(pre[i] == items[i]);
            }
        }
        lemma_total(pre);
        assert(items.last() == items[items.len() - 1]);
        if let Some(t) = spec_total(pre) {
            lemma_spec_add(t, items.last().1);
        }
    }
}

proof fn lemma_pos_debits(g: Seq<(Seq<char>, Dec)>)
    ensures
        total_credit(spec_pos_debits(g)) == 0,
        total_debit(spec_pos_debits(g)) == sum_pos(g),
    decreases g.len(),
{
    lemma_zero_val(0);
    reveal_with_fuel(total_debit, 1);
    reveal_with_fuel(total_credit, 1);
    if g.len() > 0 {
        lemma_pos_debits(g.drop_last());
        let pre = spec_pos_debits(g.drop_last());
        if g.last().1.val() > 0 {
            assert(pre.push(pline(g.last().0, g.last().1, zero_dec())).drop_last() =~= pre);
        }
    }
}

/// Σ of the positive amounts.
pub open spec fn sum_pos(g: Seq<(Seq<char>, Dec)>) -> int
    decreases g.len(),
{
    if g.len() == 0 {
        0
    } else {
        sum_pos(g.drop_last()) + if g.last().1.val() > 0 { g.last().1.val() } else { 0 }
    }
}

proof fn lemma_sum_pos(g: Seq<(Seq<char>, Dec)>)
    requires
        forall|i: int| 0 <= i < g.len() ==> (#[trigger] g[i]).1.val() >= 0,
    ensures
        sum_pos(g) == sum_vals(g),
    decreases g.len(),
{
    if g.len() > 0 {
        let pre = g.drop_last();
        assert forall|i: int| 0 <= i < pre.len() implies (#[trigger] pre[i]).1.val() >= 0 by {
            assert(pre[i] == g[i]);
        }
        lemma_sum_pos(pre);
        assert(g.last() == g[g.len() - 1]);
    }
}

proof fn lemma_groups_nonneg(items: Seq<(Seq<char>, Dec)>)
    requires
        nonneg_items(items),
    ensures
        spec_groups(items) matches Some(g) ==> forall|i: int| 0 <= i < g.len() ==> (#[trigger] g[i]).1.val() >= 0,
    decreases items.len(),
{
    if items.len() > 0 {
        let pre = items.drop_last();
        assert(nonneg_items(pre)) by {
            assert forall|i: int| 0 <= i < pre.len() implies (#[trigger] pre[i]).1.wf() && pre[i].1.val() >= 0 by {
                assert(pre[i] == items[i]);
            }
        }
        lemma_groups_nonneg(pre);
        crate::grouping::lemma_groups(pre);
        assert(items.last() == items[items.len() - 1]);
        if let Some(g) = spec_groups(pre) {
            let key = items.last().0;
            let v = items.last().1;
            crate::grouping::lemma_find_key(g, key);
            if let Some(k) = crate::grouping::find_key(g, key) {
                assert(g[k].1.wf());
                lemma_spec_add(g[k].1, v);
                if let Some(s) = spec_dec_add(g[k].1, v) {
                    let g2 = g.update(k, (key, s));
                    assert forall|i: int| 0 <= i < g2.len() implies (#[trigger] g2[i]).1.val() >= 0 by {
                        if i != k { assert(g2[i] == g[i]); }
                    }
                }
            } else {
                let g2 = g.push((key, v));
                assert forall|i: int| 0 <= i < g2.len() implies (#[trigger] g2[i]).1.val() >= 0 by {
                    if i < g.len() { assert(g2[i] == g[i]); }
                }
            }
        }
    } else {
    }
}


fn expense_items(ls: &Vec<NirStockedLine>, standalone: bool) -> (r: Vec<(String, Dec)>)
    ensures
        pair_views(r@) == spec_expense_items(ls@, standalone),
{
    let mut v: Vec<(String, Dec)> = Vec::new();
    let n = ls.len();
    let mut i: usize = 0;
    proof {
        assert(ls@.subrange(0, 0) =~= Seq::<NirStockedLine>::empty());
        assert(pair_views(v@) =~= Seq::<(Seq<char>, Dec)>::empty());
    }
    while i < n
        invariant
            n == ls@.len(),
            i <= n,
            pair_views(v@) == spec_expense_items(ls@.subrange(0, i as int), standalone),
        decreases n - i,
    {
        let l = &ls[i];
        proof {
            assert(ls@.subrange(0, i + 1).drop_last() =~= ls@.subrange(0, i as int));
            assert(ls@.subrange(0, i + 1).last() == ls@[i as int]);
        }
        if standalone || !str_eq(l.expense_account.as_str(), "607") {
            let ghost before = pair_views(v@);
            v.push((l.expense_account.clone(), l.value_cost));
            proof {
                assert(pair_views(v@) =~= before.push((l.expense_account@, l.value_cost)));
            }
        }
        i = i + 1;
    }
    proof {
        assert(ls@.subrange(0, n as int) =~= ls@);
    }
    v
}

pub open spec fn stocked_wf(ls: Seq<NirStockedLine>) -> bool {
    forall|i: int| 0 <= i < ls.len() ==> (#[trigger] ls[i]).value_cost.wf() && ls[i].value_adaos.wf() && ls[i].value_tva_neex.wf()
}

fn retail_items(ls: &Vec<NirStockedLine>) -> (r: Option<Vec<(String, Dec)>>)
    requires
        stocked_wf(ls@),
    ensures
        r is None <==> spec_retail_items(ls@) is None,
        r matches Some(v) ==> Some(pair_views(v@)) == spec_retail_items(ls@),
{
    let mut v: Vec<(String, Dec)> = Vec::new();
    let n = ls.len();
    let mut i: usize = 0;
    proof {
        assert(ls@.subrange(0, 0) =~= Seq::<NirStockedLine>::empty());
        assert(pair_views(v@) =~= Seq::<(Seq<char>, Dec)>::empty());
    }
    while i < n
        invariant
            n == ls@.len(),
            i <= n,
            stocked_wf(ls@),
            spec_retail_items(ls@.subrange(0, i as int)) == Some(pair_views(v@)),
        decreases n - i,
    {
        let l = &ls[i];
        proof {
            assert(ls@.subrange(0, i + 1).drop_last() =~= ls@.subrange(0, i as int));
            assert(ls@.subrange(0, i + 1).last() == ls@[i as int]);
            assert(ls@[i as int].value_adaos.wf());
            lemma_spec_add(l.value_adaos, l.value_tva_neex);
        }
        let s = match dec_add(l.value_adaos, l.value_tva_neex) {
            Some(x) => x,
            None => {
                proof { lemma_retail_none(ls@, i + 1); }
                return None;
            },
        };
        let ghost before = pair_views(v@);
        v.push((l.stock_account.clone(), s));
        proof {
            assert(pair_views(v@) =~= before.push((l.stock_account@, s)));
        }
        i = i + 1;
    }
    proof {
        assert(ls@.subrange(0, n as int) =~= ls@);
    }
    Some(v)
}

proof fn lemma_retail_none(ls: Seq<NirStockedLine>, k: int)
    requires
        0 <= k <= ls.len(),
        spec_retail_items(ls.subrange(0, k)) is None,
    ensures
        spec_retail_items(ls) is None,
    decreases ls.len() - k,
{
    if k < ls.len() {
        assert(ls.subrange(0, k + 1).drop_last() =~= ls.subrange(0, k));
        lemma_retail_none(ls, k + 1);
    } else {
        assert(ls.subrange(0, k) =~= ls);
    }
}

proof fn lemma_total_none(items: Seq<(Seq<char>, Dec)>, k: int)
    requires
        0 <= k <= items.len(),
        spec_total(items.subrange(0, k)) is None,
    ensures
        spec_total(items) is None,
    decreases items.len() - k,
{
    if k < items.len() {
        assert(items.subrange(0, k + 1).drop_last() =~= items.subrange(0, k));
        lemma_total_none(items, k + 1);
    } else {
        assert(items.subrange(0, k) =~= items);
    }
}

fn total(items: &Vec<(String, Dec)>) -> (r: Option<Dec>)
    requires
        all_wf(pair_views(items@)),
    ensures
        r == spec_total(pair_views(items@)),
        r matches Some(t) ==> t.wf(),
{
    let ghost iv = pair_views(items@);
    let mut t = Dec::zero();
    let n = items.len();
    let mut i: usize = 0;
    proof {
        assert(iv.subrange(0, 0) =~= Seq::<(Seq<char>, Dec)>::empty());
    }
    while i < n
        invariant
            n == items@.len(),
            iv == pair_views(items@),
            all_wf(iv),
            i <= n,
            spec_total(iv.subrange(0, i as int)) == Some(t),
            t.wf(),
        decreases n - i,
    {
        let v = items[i].1;
        proof {
            assert(iv.subrange(0, i + 1).drop_last() =~= iv.subrange(0, i as int));
            assert(iv.subrange(0, i + 1).last() == iv[i as int]);
            assert(iv[i as int].1 == v);
            assert(v.wf());
            lemma_spec_add(t, v);
        }
        t = match dec_add(t, v) {
            Some(x) => x,
            None => {
                proof { lemma_total_none(iv, i + 1); }
                return None;
            },
        };
        i = i + 1;
    }
    proof {
        assert(iv.subrange(0, n as int) =~= iv);
    }
    Some(t)
}

fn push_pos_debits(out: &mut Vec<GlLine>, g: &Vec<(String, Dec)>)
    requires
        all_wf(pair_views(g@)),
    ensures
        views(final(out)@) == views(old(out)@) + spec_pos_debits(pair_views(g@)),
{
    let ghost gv = pair_views(g@);
    let n = g.len();
    let mut i: usize = 0;
    proof {
        assert(gv.subrange(0, 0) =~= Seq::<(Seq<char>, Dec)>::empty());
        assert(views(out@) =~= views(old(out)@) + spec_pos_debits(gv.subrange(0, 0)));
    }
    while i < n
        invariant
            n == g@.len(),
            gv == pair_views(g@),
            all_wf(gv),
            i <= n,
            views(out@) == views(old(out)@) + spec_pos_debits(gv.subrange(0, i as int)),
        decreases n - i,
    {
        let v = g[i].1;
        proof {
            assert(gv.subrange(0, i + 1).drop_last() =~= gv.subrange(0, i as int));
            assert(gv.subrange(0, i + 1).last() == gv[i as int]);
            assert(gv[i as int] == (g@[i as int].0@, v));
            assert(v.wf());
        }
        if crate::decimal::dec_lt(Dec::zero(), v) {
            let l = plain_line(g[i].0.as_str(), v, Dec::zero());
            proof { lemma_views_push(out@, l); }
            out.push(l);
            proof {
                assert(views(out@) =~= views(old(out)@) + spec_pos_debits(gv.subrange(0, i + 1)));
            }
        } else {
            proof {
                assert(views(out@) =~= views(old(out)@) + spec_pos_debits(gv.subrange(0, i + 1)));
            }
        }
        i = i + 1;
    }
    proof {
        assert(gv.subrange(0, n as int) =~= gv);
    }
}

fn component_items(ls: &Vec<NirStockedLine>, adaos: bool) -> (r: Vec<(String, Dec)>)
    ensures
        pair_views(r@) == if adaos { adaos_items(ls@) } else { tva_items(ls@) },
{
    let mut v: Vec<(String, Dec)> = Vec::new();
    let n = ls.len();
    let mut i: usize = 0;
    while i < n
        invariant
            n == ls@.len(),
            i <= n,
            v@.len() == i,
            forall|k: int| 0 <= k < i ==> (#[trigger] pair_views(v@)[k]) == (ls@[k].stock_account@, if adaos { ls@[k].value_adaos } else { ls@[k].value_tva_neex }),
        decreases n - i,
    {
        let l = &ls[i];
        let ghost before = v@;
        if adaos {
            v.push((l.stock_account.clone(), l.value_adaos));
        } else {
            v.push((l.stock_account.clone(), l.value_tva_neex));
        }
        proof {
            assert forall|k: int| 0 <= k < i + 1 implies (#[trigger] pair_views(v@)[k]) == (ls@[k].stock_account@, if adaos { ls@[k].value_adaos } else { ls@[k].value_tva_neex }) by {
                if k < i {
                    assert(v@[k] == before[k]);
                    assert(pair_views(before)[k] == pair_views(v@)[k]);
                }
            }
        }
        i = i + 1;
    }
    proof {
        assert(pair_views(v@) =~= (if adaos { adaos_items(ls@) } else { tva_items(ls@) }));
    }
    v
}

/// Builds the note of a finalized NIR (see `spec_nir_note`); `None` when a sum leaves the
/// decimal range.
pub fn nir_note(ls: &Vec<NirStockedLine>, standalone: bool, retail: bool) -> (r: Option<Vec<GlLine>>)
    requires
        stocked_wf(ls@),
    ensures
        r is None <==> spec_nir_note(ls@, standalone, retail) is None,
        r matches Some(v) ==> Some(views(v@)) == spec_nir_note(ls@, standalone, retail),
        r matches Some(v) ==> {
            &&& account_credit(views(v@), "378"@) == (if retail && sum_vals(adaos_items(ls@)) > 0 {
                sum_vals(adaos_items(ls@))
            } else {
                0
            })
            &&& account_credit(views(v@), "4428"@) == (if retail && sum_vals(tva_items(ls@)) > 0 {
                sum_vals(tva_items(ls@))
            } else {
                0
            })
        },
{
    proof {
        lemma_items_wf(ls@, standalone);
        lemma_nir_note_credits(ls@, standalone, retail);
    }
    let ei = expense_items(ls, standalone);
    let eg = match group_sums(&ei) {
        Some(g) => g,
        None => return None,
    };
    proof {
        lemma_groups(pair_views(ei@));
    }
    let et = match total(&ei) {
        Some(t) => t,
        None => return None,
    };
    let ri = match retail_items(ls) {
        Some(v) => v,
        None => return None,
    };
    let ai = component_items(ls, true);
    let ti = component_items(ls, false);
    let at = match total(&ai) {
        Some(t) => t,
        None => return None,
    };
    let tt = match total(&ti) {
        Some(t) => t,
        None => return None,
    };
    proof {
        lemma_retail_wf(ls@);
    }
    let rg = match group_sums(&ri) {
        Some(g) => g,
        None => return None,
    };
    proof {
        lemma_groups(pair_views(ri@));
    }
    proof {
        lemma_val_sign(et);
        lemma_val_sign(at);
        lemma_val_sign(tt);
    }
    let mut out: Vec<GlLine> = Vec::new();
    if et.is_positive() {
        push_pos_debits(&mut out, &eg);
        let acct = if standalone { "408" } else { "607" };
        let l = plain_line(acct, Dec::zero(), et);
        proof { lemma_views_push(out@, l); }
        out.push(l);
    }
    let ghost p1 = views(out@);
    if retail && (at.is_positive() || tt.is_positive()) {
        push_pos_debits(&mut out, &rg);
        if at.is_positive() {
            let l = plain_line("378", Dec::zero(), at);
            proof { lemma_views_push(out@, l); }
            out.push(l);
        }
        if tt.is_positive() {
            let l = plain_line("4428", Dec::zero(), tt);
            proof { lemma_views_push(out@, l); }
            out.push(l);
        }
    }
    proof {
        let sn = spec_nir_note(ls@, standalone, retail).unwrap();
        assert(views(out@) =~= sn);
    }
    Some(out)
}

proof fn lemma_items_wf(ls: Seq<NirStockedLine>, standalone: bool)
    requires
        stocked_wf(ls),
    ensures
        all_wf(spec_expense_items(ls, standalone)),
        all_wf(adaos_items(ls)),
        all_wf(tva_items(ls)),
    decreases ls.len(),
{
    if ls.len() > 0 {
        let pre = ls.drop_last();
        assert(stocked_wf(pre)) by {
            assert forall|i: int| 0 <= i < pre.len() implies (#[trigger] pre[i]).value_cost.wf() && pre[i].value_adaos.wf() && pre[i].value_tva_neex.wf() by {
                assert(pre[i] == ls[i]);
            }
        }
        lemma_items_wf(pre, standalone);
        assert(ls.last() == ls[ls.len() - 1]);
        let e = spec_expense_items(ls, standalone);
        let ep = spec_expense_items(pre, standalone);
        assert forall|i: int| 0 <= i < e.len() implies (#[trigger] e[i]).1.wf() by {
            if i < ep.len() { assert(e[i] == ep[i]); }
        }
    }
    assert forall|i: int| 0 <= i < adaos_items(ls).len() implies (#[trigger] adaos_items(ls)[i]).1.wf() by {
        assert(ls[i].value_adaos.wf());
    }
    assert forall|i: int| 0 <= i < tva_items(ls).len() implies (#[trigger] tva_items(ls)[i]).1.wf() by {
        assert(ls[i].value_tva_neex.wf());
    }
}

proof fn lemma_retail_wf(ls: Seq<NirStockedLine>)
    requires
        stocked_wf(ls),
    ensures
        spec_retail_items(ls) matches Some(ri) ==> all_wf(ri) && sum_vals(ri) == sum_vals(adaos_items(ls)) + sum_vals(tva_items(ls)),
    decreases ls.len(),
{
    if ls.len() > 0 {
        let pre = ls.drop_last();
        assert(stocked_wf(pre)) by {
            assert forall|i: int| 0 <= i < pre.len() implies (#[trigger] pre[i]).value_cost.wf() && pre[i].value_adaos.wf() && pre[i].value_tva_neex.wf() by {
                assert(pre[i] == ls[i]);
            }
        }
        lemma_retail_wf(pre);
        assert(ls.last() == ls[ls.len() - 1]);
        assert(adaos_items(ls).drop_last() =~= adaos_items(pre));
        assert(tva_items(ls).drop_last() =~= tva_items(pre));
        lemma_spec_add(ls.last().value_adaos, ls.last().value_tva_neex);
        if let Some(p) = spec_retail_items(pre) {
            if let Some(x) = spec_dec_add(ls.last().value_adaos, ls.last().value_tva_neex) {
                let ri = p.push((ls.last().stock_account@, x));
                assert(ri.drop_last() =~= p);
                assert forall|i: int| 0 <= i < ri.len() implies (#[trigger] ri[i]).1.wf() by {
                    if i < p.len() { assert(ri[i] == p[i]); }
                }
            }
        }
    } else {
        assert(adaos_items(ls) =~= Seq::<(Seq<char>, Dec)>::empty());
        assert(tva_items(ls) =~= Seq::<(Seq<char>, Dec)>::empty());
    }
}

/// The amounts of a stocked line are not negative.
pub open spec fn stocked_nonneg(ls: Seq<NirStockedLine>) -> bool {
    forall|i: int| 0 <= i < ls.len() ==> (#[trigger] ls[i]).value_cost.val() >= 0 && ls[i].value_adaos.val() >= 0
        && ls[i].value_tva_neex.val() >= 0
}

/// The note of a finalized NIR is balanced when no stored amount is negative: the grouped
/// debits add up to the credited totals.
pub proof fn lemma_nir_note_balanced(ls: Seq<NirStockedLine>, standalone: bool, retail: bool)
    requires
        stocked_wf(ls),
        stocked_nonneg(ls),
    ensures
        spec_nir_note(ls, standalone, retail) matches Some(n) ==> balanced(n),
{
    lemma_items_wf(ls, standalone);
    lemma_retail_wf(ls);
    lemma_zero_val(0);
    let ei = spec_expense_items(ls, standalone);
    lemma_total(ei);
    lemma_total(adaos_items(ls));
    lemma_total(tva_items(ls));
    lemma_groups(ei);
    lemma_expense_nonneg(ls, standalone);
    lemma_groups_nonneg(ei);
    lemma_sum_nonneg(adaos_items(ls));
    lemma_sum_nonneg(tva_items(ls));
    if let Some(ri) = spec_retail_items(ls) {
        lemma_groups(ri);
        lemma_retail_nonneg(ls);
        lemma_groups_nonneg(ri);
    }
    if let (Some(eg), Some(et), Some(ri), Some(at), Some(tt)) = (spec_groups(ei), spec_total(ei), spec_retail_items(ls), spec_total(adaos_items(ls)), spec_total(tva_items(ls))) {
        if let Some(rg) = spec_groups(ri) {
            lemma_pos_debits(eg);
            lemma_pos_debits(rg);
            lemma_sum_pos(eg);
            lemma_sum_pos(rg);
            reveal_with_fuel(total_debit, 2);
            reveal_with_fuel(total_credit, 2);
            let c1 = seq![pline(if standalone { "408"@ } else { "607"@ }, zero_dec(), et)];
            assert(c1.drop_last() =~= Seq::<GlLineView>::empty());
            lemma_totals_concat(spec_pos_debits(eg), c1);
            let x = if at.val() > 0 { seq![pline("378"@, zero_dec(), at)] } else { seq![] };
            let y = if tt.val() > 0 { seq![pline("4428"@, zero_dec(), tt)] } else { seq![] };
            if x.len() == 1 { assert(x.drop_last() =~= Seq::<GlLineView>::empty()); }
            if y.len() == 1 { assert(y.drop_last() =~= Seq::<GlLineView>::empty()); }
            lemma_totals_concat(spec_pos_debits(rg), x);
            lemma_totals_concat(spec_pos_debits(rg) + x, y);
            let part1 = if et.val() > 0 { spec_pos_debits(eg) + c1 } else { seq![] };
            let part2 = if retail && (at.val() > 0 || tt.val() > 0) { spec_pos_debits(rg) + x + y } else { seq![] };
            lemma_totals_concat(part1, part2);
        }
    }
}

proof fn lemma_pos_debits_no_credit(g: Seq<(Seq<char>, Dec)>, acc: Seq<char>)
    ensures
        account_credit(spec_pos_debits(g), acc) == 0,
    decreases g.len(),
{
    lemma_zero_val(0);
    if g.len() == 0 {
        reveal_with_fuel(account_credit, 1);
    } else {
        lemma_pos_debits_no_credit(g.drop_last(), acc);
        if g.last().1.val() > 0 {
            let pre = spec_pos_debits(g.drop_last());
            let x = seq![pline(g.last().0, g.last().1, zero_dec())];
            assert(pre.push(x[0]) =~= pre + x);
            lemma_account_sides_concat(pre, x, acc);
            lemma_account_sides_small(x, acc);
        }
    }
}

proof fn lemma_nir_credit_names()
    ensures
        "378"@ != "4428"@,
        "378"@ != "408"@,
        "378"@ != "607"@,
        "4428"@ != "408"@,
        "4428"@ != "607"@,
{
    reveal_strlit("378");
    reveal_strlit("4428");
    reveal_strlit("408");
    reveal_strlit("607");
    assert("378"@.len() != "4428"@.len());
    assert("378"@[0] != "408"@[0]);
    assert("378"@[0] != "607"@[0]);
    assert("4428"@.len() != "408"@.len());
    assert("4428"@.len() != "607"@.len());
}

/// The credit side of a NIR note: 408 (no invoice) or 607 (linked invoice) is credited the
/// Σ of the expense amounts, and in retail mode 378 the Σ of the mark-ups and 4428 the Σ of
/// the non-exigible VAT, each only when positive.
pub proof fn lemma_nir_note_credits(ls: Seq<NirStockedLine>, standalone: bool, retail: bool)
    requires
        stocked_wf(ls),
    ensures
        spec_nir_note(ls, standalone, retail) matches Some(n) ==> {
            &&& account_credit(n, "378"@) == (if retail && sum_vals(adaos_items(ls)) > 0 {
                sum_vals(adaos_items(ls))
            } else {
                0
            })
            &&& account_credit(n, "4428"@) == (if retail && sum_vals(tva_items(ls)) > 0 {
                sum_vals(tva_items(ls))
            } else {
                0
            })
            &&& account_credit(n, if standalone { "408"@ } else { "607"@ }) == (if sum_vals(
                spec_expense_items(ls, standalone),
            ) > 0 {
                sum_vals(spec_expense_items(ls, standalone))
            } else {
                0
            })
        },
{
    lemma_items_wf(ls, standalone);
    lemma_zero_val(0);
    lemma_nir_credit_names();
    let ei = spec_expense_items(ls, standalone);
    lemma_total(ei);
    lemma_total(adaos_items(ls));
    lemma_total(tva_items(ls));
    let ca = if standalone { "408"@ } else { "607"@ };
    if let (Some(eg), Some(et), Some(ri), Some(at), Some(tt)) = (spec_groups(ei), spec_total(ei), spec_retail_items(ls), spec_total(adaos_items(ls)), spec_total(tva_items(ls))) {
        if let Some(rg) = spec_groups(ri) {
            let c1 = seq![pline(ca, zero_dec(), et)];
            let x = if at.val() > 0 { seq![pline("378"@, zero_dec(), at)] } else { seq![] };
            let y = if tt.val() > 0 { seq![pline("4428"@, zero_dec(), tt)] } else { seq![] };
            let part1 = if et.val() > 0 { spec_pos_debits(eg) + c1 } else { seq![] };
            let part2 = if retail && (at.val() > 0 || tt.val() > 0) { spec_pos_debits(rg) + x + y } else { seq![] };
            assert(spec_nir_note(ls, standalone, retail) == Some(part1 + part2));
            if part1.len() == 0 {
                reveal_with_fuel(account_credit, 1);
            }
            if part2.len() == 0 {
                reveal_with_fuel(account_credit, 1);
            }
            let accs = seq!["378"@, "4428"@, ca];
            assert forall|k: int| 0 <= k < 3 implies {
                let acc = #[trigger] accs[k];
                &&& account_credit(part1, acc) == (if et.val() > 0 && acc == ca { et.val() } else { 0 })
                &&& account_credit(part2, acc) == (if retail && at.val() > 0 && acc == "378"@ { at.val() } else { 0 })
                    + (if retail && tt.val() > 0 && acc == "4428"@ { tt.val() } else { 0 })
                &&& account_credit(part1 + part2, acc) == account_credit(part1, acc) + account_credit(part2, acc)
            } by {
                let acc = accs[k];
                lemma_pos_debits_no_credit(eg, acc);
                lemma_pos_debits_no_credit(rg, acc);
                lemma_account_sides_small(c1, acc);
                lemma_account_sides_small(x, acc);
                lemma_account_sides_small(y, acc);
                lemma_account_sides_concat(spec_pos_debits(eg), c1, acc);
                lemma_account_sides_concat(spec_pos_debits(rg), x, acc);
                lemma_account_sides_concat(spec_pos_debits(rg) + x, y, acc);
                lemma_account_sides_concat(part1, part2, acc);
                if part1.len() == 0 {
                    reveal_with_fuel(account_credit, 1);
                }
                if part2.len() == 0 {
                    reveal_with_fuel(account_credit, 1);
                }
            }
            assert(accs[0] == "378"@);
            assert(accs[1] == "4428"@);
            assert(accs[2] == ca);
        }
    }
}

proof fn lemma_expense_nonneg(ls: Seq<NirStockedLine>, standalone: bool)
    requires
        stocked_wf(ls),
        stocked_nonneg(ls),
    ensures
        nonneg_items(spec_expense_items(ls, standalone)),
    decreases ls.len(),
{
    if ls.len() > 0 {
        let pre = ls.drop_last();
        assert(stocked_wf(pre) && stocked_nonneg(pre)) by {
            assert forall|i: int| 0 <= i < pre.len() implies (#[trigger] pre[i]).value_cost.wf() && pre[i].value_adaos.wf() && pre[i].value_tva_neex.wf() by {
                assert(pre[i] == ls[i]);
            }
            assert forall|i: int| 0 <= i < pre.len() implies (#[trigger] pre[i]).value_cost.val() >= 0 && pre[i].value_adaos.val() >= 0 && pre[i].value_tva_neex.val() >= 0 by {
                assert(pre[i] == ls[i]);
            }
        }
        lemma_expense_nonneg(pre, standalone);
        assert(ls.last() == ls[ls.len() - 1]);
        let e = spec_expense_items(ls, standalone);
        let ep = spec_expense_items(pre, standalone);
        assert forall|i: int| 0 <= i < e.len() implies (#[trigger] e[i]).1.wf() && e[i].1.val() >= 0 by {
            if i < ep.len() { assert(e[i] == ep[i]); }
        }
    }
}

proof fn lemma_retail_nonneg(ls: Seq<NirStockedLine>)
    requires
        stocked_wf(ls),
        stocked_nonneg(ls),
    ensures
        spec_retail_items(ls) matches Some(ri) ==> nonneg_items(ri),
    decreases ls.len(),
{
    if ls.len() > 0 {
        let pre = ls.drop_last();
        assert(stocked_wf(pre) && stocked_nonneg(pre)) by {
            assert forall|i: int| 0 <= i < pre.len() implies (#[trigger] pre[i]).value_cost.wf() && pre[i].value_adaos.wf() && pre[i].value_tva_neex.wf() by {
                assert(pre[i] == ls[i]);
            }
            assert forall|i: int| 0 <= i < pre.len() implies (#[trigger] pre[i]).value_cost.val() >= 0 && pre[i].value_adaos.val() >= 0 && pre[i].value_tva_neex.val() >= 0 by {
                assert(pre[i] == ls[i]);
            }
        }
        lemma_retail_nonneg(pre);
        assert(ls.last() == ls[ls.len() - 1]);
        lemma_spec_add(ls.last().value_adaos, ls.last().value_tva_neex);
        if let Some(p) = spec_retail_items(pre) {
            if let Some(x) = spec_dec_add(ls.last().value_adaos, ls.last().value_tva_neex) {
                let ri = p.push((ls.last().stock_account@, x));
                assert forall|i: int| 0 <= i < ri.len() implies (#[trigger] ri[i]).1.wf() && ri[i].1.val() >= 0 by {
                    if i < p.len() { assert(ri[i] == p[i]); }
                }
            }
        }
    }
}

proof fn lemma_sum_nonneg(items: Seq<(Seq<char>, Dec)>)
    requires
        forall|i: int| 0 <= i < items.len() ==> (#[trigger] items[i]).1.val() >= 0,
    ensures
        sum_vals(items) >= 0,
    decreases items.len(),
{
    if items.len() > 0 {
        let pre = items.drop_last();
        assert forall|i: int| 0 <= i < pre.len() implies (#[trigger] pre[i]).1.val() >= 0 by {
            assert(pre[i] == items[i]);
        }
        lemma_sum_nonneg(pre);
        assert(items.last() == items[items.len() - 1]);
    }
}

/// A line moves stock when it names a product whose id is not blank.
pub open spec fn spec_moves_stock(product_id: Option<String>) -> bool {
    product_id matches Some(p) && spec_trim(p@).len() > 0
}

/// The positions (from 0) of the lines that move stock, in order.
pub open spec fn spec_stock_positions(product_ids: Seq<Option<String>>) -> Seq<int>
    decreases product_ids.len(),
{
    if product_ids.len() == 0 {
        Seq::empty()
    } else {
        let pre = spec_stock_positions(product_ids.drop_last());
        if spec_moves_stock(product_ids.last()) {
            pre.push(product_ids.len() - 1)
        } else {
            pre
        }
    }
}

/// What finalizing a NIR starts from: it must still be a draft, and the lines that move
/// stock are those with a product id that is not blank; gives their positions (from 0).
pub fn nir_stock_lines(status: &str, product_ids: &Vec<Option<String>>) -> (r: Result<Vec<usize>, NirError>)
    ensures
        status@ != "draft"@ ==> r matches Err(NirError::NotDraft),
        status@ == "draft"@ ==> (r matches Ok(v) && v@.len() == spec_stock_positions(product_ids@).len()
            && forall|t: int| 0 <= t < v@.len() ==> v@[t] as int == spec_stock_positions(product_ids@)[t]),
{
    if !str_eq(status, "draft") {
        return Err(NirError::NotDraft);
    }
    let n = product_ids.len();
    let mut out: Vec<usize> = Vec::new();
    let mut i: usize = 0;
    proof {
        assert(product_ids@.subrange(0, 0) =~= Seq::<Option<String>>::empty());
    }
    while i < n
        invariant
            n == product_ids@.len(),
            i <= n,
            out@.len() == spec_stock_positions(product_ids@.subrange(0, i as int)).len(),
            forall|t: int| 0 <= t < out@.len() ==> out@[t] as int == spec_stock_positions(product_ids@.subrange(0, i as int))[t],
        decreases n - i,
    {
        let ghost sub = product_ids@.subrange(0, i + 1);
        proof {
            assert(sub.drop_last() =~= product_ids@.subrange(0, i as int));
            assert(sub.last() == product_ids@[i as int]);
        }
        let moves = match &product_ids[i] {
            Some(p) => trim(p.as_str()).unicode_len() > 0,
            None => false,
        };
        if moves {
            out.push(i);
        }
        i = i + 1;
    }
    proof {
        assert(product_ids@.subrange(0, n as int) =~= product_ids@);
    }
    Ok(out)
}

/// Whether `NaiveDate::parse_from_str(s, "%Y-%m-%d")` succeeds.
pub uninterp spec fn ymd_date_parses(s: Seq<char>) -> bool;

/// Calls chrono's `NaiveDate::parse_from_str(s, "%Y-%m-%d")` and says whether it parsed;
/// the answer is named by `ymd_date_parses`.
#[verifier::external_body]
fn parse_ymd(s: &str) -> (r: bool)
    ensures
        r == ymd_date_parses(s@),
{
    chrono::NaiveDate::parse_from_str(s, "%Y-%m-%d").is_ok()
}

/// The header checks of a new NIR, after its warehouse: the date (trimmed) must be a
/// calendar date `YYYY-MM-DD`, then there must be at least one line.
pub fn check_nir_header(nir_date: &str, line_count: usize) -> (r: Result<(), NirError>)
    ensures
        !ymd_date_parses(spec_trim(nir_date@)) ==> r == Err::<(), NirError>(NirError::InvalidDate),
        ymd_date_parses(spec_trim(nir_date@)) && line_count == 0 ==> r == Err::<(), NirError>(NirError::NoLines),
        ymd_date_parses(spec_trim(nir_date@)) && line_count > 0 ==> r is Ok,
{
    if !parse_ymd(trim(nir_date)) {
        return Err(NirError::InvalidDate);
    }
    if line_count == 0 {
        return Err(NirError::NoLines);
    }
    Ok(())
}

/// The stored quantity and unit cost of a line to be stocked must still be numbers
/// (`no` is the line's number, from 1).
pub fn check_stored_line(qty: &str, unit_cost: &str, no: usize) -> (r: Result<(), NirError>)
    ensures
        spec_parse_amount(qty@) is None ==> r == Err::<(), NirError>(NirError::InvalidQuantity(no)),
        spec_parse_amount(qty@) is Some && spec_parse_amount(unit_cost@) is None ==> r == Err::<(), NirError>(NirError::InvalidUnitCost(no)),
        spec_parse_amount(qty@) is Some && spec_parse_amount(unit_cost@) is Some ==> r is Ok,
{
    if crate::payment_instruments::parse_amount(qty).is_err() {
        return Err(NirError::InvalidQuantity(no));
    }
    if crate::payment_instruments::parse_amount(unit_cost).is_err() {
        return Err(NirError::InvalidUnitCost(no));
    }
    Ok(())
}

/// The name of a line filled from a received invoice's VAT line.
pub open spec fn spec_reception_name(rate: Seq<char>) -> Seq<char> {
    "Marfă recepție (TVA "@ + rate + "%)"@
}

/// The line filled from the `i`-th VAT line `(rate, base)` of a received invoice: one unit
/// ("buc") at the base amount, numbered from 1.
pub open spec fn spec_reception_line(v: (Seq<char>, Seq<char>), i: int) -> (Option<Seq<char>>, Seq<char>, Option<Seq<char>>, Seq<char>, Seq<char>, Seq<char>, Option<Seq<char>>, int) {
    (None, spec_reception_name(v.0), Some("buc"@), "1.000000"@, v.1, v.0, None, i + 1)
}

pub open spec fn nir_line_input_view(l: NirLineInput) -> (Option<Seq<char>>, Seq<char>, Option<Seq<char>>, Seq<char>, Seq<char>, Seq<char>, Option<Seq<char>>, int) {
    (opt_seq(&l.product_id), l.denumire@, opt_seq(&l.um), l.qty@, l.unit_cost@, l.vat_rate@, opt_seq(&l.adaos_pct), l.line_no as int)
}

/// A NIR input filled from a received invoice (its VAT lines `(rate, base)` in order): the
/// supplier and date of the invoice, no warehouse yet (the caller sets it), not retail.
pub fn nir_input_from_received(
    received_invoice_id: &str,
    issuer_name: &str,
    issuer_cui: &str,
    issue_date: &str,
    vat_lines: &Vec<(String, String)>,
) -> (r: Result<NirInput, NirError>)
    requires
        vat_lines@.len() < i64::MAX,
    ensures
        vat_lines@.len() == 0 ==> r == Err::<NirInput, NirError>(NirError::NoVatLines),
        vat_lines@.len() > 0 ==> (r matches Ok(n) && {
            &&& n.gestiune_id@ == Seq::<char>::empty()
            &&& opt_seq(&n.received_invoice_id) == Some(received_invoice_id@)
            &&& opt_seq(&n.supplier_name) == Some(issuer_name@)
            &&& opt_seq(&n.supplier_cui) == Some(issuer_cui@)
            &&& n.nir_date@ == issue_date@
            &&& n.retail_mode == Some(false)
            &&& n.comisie_receptie is None
            &&& n.observatii is None
            &&& n.lines@.len() == vat_lines@.len()
            &&& forall|i: int| 0 <= i < vat_lines@.len() ==> nir_line_input_view(#[trigger] n.lines@[i])
                == spec_reception_line((vat_lines@[i].0@, vat_lines@[i].1@), i)
        }),
{
    let n = vat_lines.len();
    if n == 0 {
        return Err(NirError::NoVatLines);
    }
    let mut lines: Vec<NirLineInput> = Vec::new();
    let mut i: usize = 0;
    while i < n
        invariant
            n == vat_lines@.len(),
            n < i64::MAX,
            i <= n,
            lines@.len() == i,
            forall|k: int| 0 <= k < i ==> nir_line_input_view(#[trigger] lines@[k])
                == spec_reception_line((vat_lines@[k].0@, vat_lines@[k].1@), k),
        decreases n - i,
    {
        let rate = &vat_lines[i].0;
        let base = &vat_lines[i].1;
        let mut name = concat_str("Marfă recepție (TVA ", rate.as_str());
        push_str(&mut name, "%)");
        let l = NirLineInput {
            product_id: None,
            denumire: name,
            um: Some(owned("buc")),
            qty: owned("1.000000"),
            unit_cost: base.clone(),
            vat_rate: rate.clone(),
            adaos_pct: None,
            line_no: (i + 1) as i64,
        };
        lines.push(l);
        proof {
            assert forall|k: int| 0 <= k < i + 1 implies nir_line_input_view(#[trigger] lines@[k])
                == spec_reception_line((vat_lines@[k].0@, vat_lines@[k].1@), k) by {
                if k == i {
                    assert(lines@[k] == l);
                }
            }
        }
        i = i + 1;
    }
    Ok(NirInput {
        gestiune_id: String::new(),
        received_invoice_id: Some(owned(received_invoice_id)),
        supplier_name: Some(owned(issuer_name)),
        supplier_cui: Some(owned(issuer_cui)),
        nir_date: owned(issue_date),
        retail_mode: Some(false),
        comisie_receptie: None,
        observatii: None,
        lines,
    })
}

} // verus!
