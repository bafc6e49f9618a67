//! Stock-taking: the values of a counted line and the note of the non-imputable
//! differences (shortage D 607 / C stock, surplus D stock / C 607, one net 607 leg).

use vstd::prelude::*;
use crate::decimal::{
    Dec, dec_add, dec_sub, dec_mul, dec_lt, spec_dec_add, spec_dec_sub, spec_dec_mul,
    lemma_spec_add, lemma_spec_sub, lemma_val_sign, lemma_zero_val, lemma_neg_val, round2,
    spec_round_dp_away, parse_or_zero, spec_parse_or_zero, parse_decimal,
};
use crate::gl::{
    GlLine, GlLineView, views, balanced, total_debit, total_credit, plain_line, lemma_views_push,
    lemma_totals_concat,
};
use crate::closing::{pline, zero_dec, neg_dec};
use crate::grouping::{spec_groups, group_sums, lemma_groups, pair_views, all_wf};
use crate::text::{
    owned, str_eq, trim, spec_trim, lex_lt, spec_lex_lt, strictly_sorted, lemma_lex_transitive, lemma_lex_total,
    lemma_lex_irreflexive,
};

verus! {

/// An inventory session.
#[derive(Clone, Debug)]
pub struct InventorySession {
    pub id: String,
    pub company_id: String,
    pub reference_date: String,
    pub fiscal_year: i64,
    pub session_type: String,
    pub gestiune: Option<String>,
    pub status: String,
    pub comisie_members: String,
    pub notes: Option<String>,
    pub created_at: i64,
    pub updated_at: i64,
}

/// One counted line.
#[derive(Clone, Debug)]
pub struct InventoryLine {
    pub id: String,
    pub session_id: String,
    pub account_code: String,
    pub item_name: String,
    pub um: String,
    pub qty_scriptic: String,
    pub qty_faptic: String,
    pub unit_price: String,
    pub value_contabila: String,
    pub value_inventar: String,
    pub diff_value: String,
    pub diff_cause: Option<String>,
    pub imputable: i64,
    pub product_id: Option<String>,
    pub created_at: i64,
    pub updated_at: i64,
}

/// One entry of the inventory register.
#[derive(Clone, Debug)]
pub struct RegistruInventarEntry {
    pub id: String,
    pub company_id: String,
    pub fiscal_year: i64,
    pub seq_no: i64,
    pub recap_text: String,
    pub value_contabila: String,
    pub value_inventar: String,
    pub diff_value: String,
    pub diff_cause: String,
    pub source_session_id: Option<String>,
    pub created_at: i64,
}

/// A new session.
#[derive(Clone, Debug)]
pub struct CreateSessionInput {
    pub company_id: String,
    pub reference_date: String,
    pub fiscal_year: i64,
    pub session_type: Option<String>,
    pub gestiune: Option<String>,
    pub comisie_members: Option<String>,
    pub notes: Option<String>,
}

/// A counted quantity entered for a line.
#[derive(Clone, Debug)]
pub struct UpdateLineFapticInput {
    pub line_id: String,
    pub session_id: String,
    pub company_id: String,
    pub qty_faptic: String,
    pub diff_cause: Option<String>,
    pub imputable: Option<bool>,
}

/// Why an inventory operation was refused.
#[derive(Clone, Debug)]
pub enum InventoryError {
    /// A finalized session cannot be changed.
    SessionFinalized,
    /// Differences are posted only for finalized sessions.
    SessionNotFinalized,
    /// The counted quantity is not a number.
    InvalidQuantity,
    /// The counted quantity is negative.
    NegativeQuantity,
    /// An amount leaves the decimal range.
    Overflow,
    /// The session type is not one of ANUAL, INCEPERE, INCETARE, PREDARE_GESTIUNE, CALAMITATE.
    InvalidSessionType(String),
    /// A session is finalized only when it has lines.
    NoLines,
}

/// The values of a counted line: at book and at counted quantity (each `qty × price`
/// rounded to two decimals) and their difference (rounded likewise).
pub struct LineValues {
    pub value_inventar: Dec,
    pub value_contabila: Dec,
    pub diff_value: Dec,
}

pub open spec fn spec_line_values(qty_f: Dec, qty_s: Dec, price: Dec) -> Option<LineValues> {
    match (spec_dec_mul(qty_f, price), spec_dec_mul(qty_s, price)) {
        (Some(a), Some(b)) => {
            let vi = spec_round_dp_away(a, 2);
            let vc = spec_round_dp_away(b, 2);
            match spec_dec_sub(vi, vc) {
                Some(d) => Some(LineValues { value_inventar: vi, value_contabila: vc, diff_value: spec_round_dp_away(d, 2) }),
                None => None,
            }
        },
        _ => None,
    }
}

/// The first refusal of a counted quantity for a session in `status`.
pub open spec fn spec_faptic_error(status: Seq<char>, qty_faptic: Seq<char>) -> Option<InventoryError> {
    if status == "FINALIZED"@ {
        Some(InventoryError::SessionFinalized)
    } else {
        match crate::payment_instruments::spec_parse_amount(qty_faptic) {
            None => Some(InventoryError::InvalidQuantity),
            Some(q) => if q.val() < 0 { Some(InventoryError::NegativeQuantity) } else { None },
        }
    }
}

/// Values of a line after its counted quantity is entered: the stored unit price and book
/// quantity are read trimmed (zero when not numbers).
pub fn line_faptic_values(status: &str, qty_faptic: &str, unit_price: &str, qty_scriptic: &str) -> (r: Result<LineValues, InventoryError>)
    ensures
        ({
            let err = spec_faptic_error(status@, qty_faptic@);
            &&& err matches Some(e) ==> (r matches Err(x) && x == e)
            &&& err is None ==> {
                let q = crate::payment_instruments::spec_parse_amount(qty_faptic@).unwrap();
                match spec_line_values(q, spec_parse_or_zero(qty_scriptic@), spec_parse_or_zero(unit_price@)) {
                    Some(v) => r matches Ok(x) && x == v,
                    None => r matches Err(InventoryError::Overflow),
                }
            }
        }),
{
    if str_eq(status, "FINALIZED") {
        return Err(InventoryError::SessionFinalized);
    }
    let q = match parse_decimal(trim(qty_faptic)) {
        Some(d) => d,
        None => return Err(InventoryError::InvalidQuantity),
    };
    proof {
        lemma_val_sign(q);
    }
    if q.is_negative() {
        return Err(InventoryError::NegativeQuantity);
    }
    let price = parse_or_zero(unit_price);
    let qs = parse_or_zero(qty_scriptic);
    let (a, b) = match (dec_mul(q, price), dec_mul(qs, price)) {
        (Some(a), Some(b)) => (a, b),
        _ => return Err(InventoryError::Overflow),
    };
    let vi = round2(a);
    let vc = round2(b);
    let d = match dec_sub(vi, vc) {
        Some(x) => x,
        None => return Err(InventoryError::Overflow),
    };
    Ok(LineValues { value_inventar: vi, value_contabila: vc, diff_value: round2(d) })
}

/// The differences to post: the non-imputable lines with a non-zero stored difference
/// (read trimmed, zero when not a number), as (stock account, difference).
pub open spec fn spec_diff_items(ls: Seq<InventoryLine>) -> Seq<(Seq<char>, Dec)>
    decreases ls.len(),
{
    if ls.len() == 0 {
        seq![]
    } else {
        let pre = spec_diff_items(ls.drop_last());
        let l = ls.last();
        let d = spec_parse_or_zero(l.diff_value@);
        if l.imputable == 0 && d.val() != 0 {
            pre.push((l.account_code@, d))
        } else {
            pre
        }
    }
}

/// One stock account's line: a net shortage is credited, anything else debited.
pub open spec fn spec_inv_account_line(p: (Seq<char>, Dec)) -> GlLineView {
    if p.1.val() < 0 {
        pline(p.0, zero_dec(), neg_dec(p.1))
    } else {
        pline(p.0, p.1, zero_dec())
    }
}

/// Σ shortages (as positive numbers) and Σ surpluses over the groups.
pub open spec fn spec_inv_sums(g: Seq<(Seq<char>, Dec)>) -> Option<(Dec, Dec)>
    decreases g.len(),
{
    if g.len() == 0 {
        Some((zero_dec(), zero_dec()))
    } else {
        match spec_inv_sums(g.drop_last()) {
            Some((d, c)) => if g.last().1.val() < 0 {
                match spec_dec_add(d, neg_dec(g.last().1)) {
                    Some(d2) => Some((d2, c)),
                    None => None,
                }
            } else {
                match spec_dec_add(c, g.last().1) {
                    Some(c2) => Some((d, c2)),
                    None => None,
                }
            },
            None => None,
        }
    }
}

/// The 607 leg: D (shortages − surpluses), or C (surpluses − shortages), or, when they are
/// equal and non-zero, one line with both.
pub open spec fn spec_607_leg(d: Dec, c: Dec) -> Option<Seq<GlLineView>> {
    if d.val() > c.val() {
        match spec_dec_sub(d, c) { Some(x) => Some(seq![pline("607"@, x, zero_dec())]), None => None }
    } else if c.val() > d.val() {
        match spec_dec_sub(c, d) { Some(x) => Some(seq![pline("607"@, zero_dec(), x)]), None => None }
    } else if d.val() > 0 {
        Some(seq![pline("607"@, d, c)])
    } else {
        Some(seq![])
    }
}

/// The whole note of the differences; empty when there is nothing to post.
pub open spec fn spec_inventory_note(ls: Seq<InventoryLine>) -> Option<Seq<GlLineView>> {
    match spec_groups(spec_diff_items(ls)) {
        Some(g) => match spec_inv_sums(g) {
            Some((d, c)) => match spec_607_leg(d, c) {
                Some(leg) => Some(g.map_values(|p: (Seq<char>, Dec)| spec_inv_account_line(p)) + leg),
                None => None,
            },
            None => None,
        },
        None => None,
    }
}

proof fn lemma_diff_items_wf(ls: Seq<InventoryLine>)
    ensures
        all_wf(spec_diff_items(ls)),
    decreases ls.len(),
{
    if ls.len() > 0 {
        lemma_diff_items_wf(ls.drop_last());
        crate::decimal::lemma_parse_wf(spec_trim(ls.last().diff_value@));
        let pre = spec_diff_items(ls.drop_last());
        let d = spec_parse_or_zero(ls.last().diff_value@);
        assert forall|i: int| 0 <= i < spec_diff_items(ls).len() implies (#[trigger] spec_diff_items(ls)[i]).1.wf() by {
            if i < pre.len() {
                assert(spec_diff_items(ls)[i] == pre[i]);
            }
        }
    }
}

proof fn lemma_inv_sums(g: Seq<(Seq<char>, Dec)>)
    requires
        all_wf(g),
    ensures
        spec_inv_sums(g) matches Some((d, c)) ==> d.wf() && c.wf() && d.val() >= 0 && c.val() >= 0
            && total_debit(g.map_values(|p: (Seq<char>, Dec)| spec_inv_account_line(p))) == c.val()
            && total_credit(g.map_values(|p: (Seq<char>, Dec)| spec_inv_account_line(p))) == d.val(),
    decreases g.len(),
{
    lemma_zero_val(0);
    reveal_with_fuel(total_debit, 1);
    reveal_with_fuel(total_credit, 1);
    let m = g.map_values(|p: (Seq<char>, Dec)| spec_inv_account_line(p));
    if g.len() > 0 {
        let pre = g.drop_last();
        assert(all_wf(pre)) by {
            assert forall|i: int| 0 <= i < pre.len() implies (#[trigger] pre[i]).1.wf() by {
                assert(pre[i] == g[i]);
            }
        }
        lemma_inv_sums(pre);
        assert(m.drop_last() =~= pre.map_values(|p: (Seq<char>, Dec)| spec_inv_account_line(p)));
        assert(g.last() == g[g.len() - 1]);
        assert(m.last() == spec_inv_account_line(g.last()));
        let v = g.last().1;
        lemma_neg_val(v);
        lemma_val_sign(v);
        if let Some((d, c)) = spec_inv_sums(pre) {
            lemma_spec_add(d, neg_dec(v));
            lemma_spec_add(c, v);
        }
    } else {
        assert(m =~= Seq::<GlLineView>::empty());
    }
}

/// The note of the inventory differences is balanced: the 607 leg takes exactly the net of
/// the shortages and surpluses.
pub proof fn lemma_inventory_note_balanced(ls: Seq<InventoryLine>)
    ensures
        spec_inventory_note(ls) matches Some(n) ==> balanced(n),
{
    lemma_diff_items_wf(ls);
    lemma_groups(spec_diff_items(ls));
    if let Some(g) = spec_groups(spec_diff_items(ls)) {
        lemma_inv_sums(g);
        if let Some((d, c)) = spec_inv_sums(g) {
            lemma_spec_sub(d, c);
            lemma_spec_sub(c, d);
            lemma_zero_val(0);
            if let Some(leg) = spec_607_leg(d, c) {
                let m = g.map_values(|p: (Seq<char>, Dec)| spec_inv_account_line(p));
                reveal_with_fuel(total_debit, 2);
                reveal_with_fuel(total_credit, 2);
                if leg.len() == 1 {
                    assert(leg.drop_last() =~= Seq::<GlLineView>::empty());
                }
                lemma_totals_concat(m, leg);
            }
        }
    }
}

/// Builds the note of the non-imputable differences of a finalized session (see
/// `spec_inventory_note`); refuses a session that is not finalized.
pub fn inventory_diff_note(status: &str, lines: &Vec<InventoryLine>) -> (r: Result<Vec<GlLine>, InventoryError>)
    ensures
        status@ != "FINALIZED"@ ==> r matches Err(InventoryError::SessionNotFinalized),
        status@ == "FINALIZED"@ ==> match spec_inventory_note(lines@) {
            Some(n) => r matches Ok(ls) && views(ls@) == n && balanced(n),
            None => r matches Err(InventoryError::Overflow),
        },
{
    if !str_eq(status, "FINALIZED") {
        return Err(InventoryError::SessionNotFinalized);
    }
    proof {
        lemma_inventory_note_balanced(lines@);
        lemma_diff_items_wf(lines@);
    }
    // the differences to post
    let mut items: Vec<(String, Dec)> = Vec::new();
    let n = lines.len();
    let mut i: usize = 0;
    proof {
        assert(lines@.subrange(0, 0) =~= Seq::<InventoryLine>::empty());
        assert(pair_views(items@) =~= Seq::<(Seq<char>, Dec)>::empty());
    }
    while i < n
        invariant
            n == lines@.len(),
            i <= n,
            pair_views(items@) == spec_diff_items(lines@.subrange(0, i as int)),
        decreases n - i,
    {
        let l = &lines[i];
        let d = parse_or_zero(l.diff_value.as_str());
        proof {
            assert(lines@.subrange(0, i + 1).drop_last() =~= lines@.subrange(0, i as int));
            assert(lines@.subrange(0, i + 1).last() == lines@[i as int]);
            lemma_val_sign(d);
        }
        if l.imputable == 0 && !d.is_zero() {
            let ghost before = pair_views(items@);
            items.push((l.account_code.clone(), d));
            proof {
                assert(pair_views(items@) =~= before.push((l.account_code@, d)));
            }
        }
        i = i + 1;
    }
    proof {
        assert(lines@.subrange(0, n as int) =~= lines@);
    }
    let groups = match group_sums(&items) {
        Some(g) => g,
        None => return Err(InventoryError::Overflow),
    };
    let ghost gv = pair_views(groups@);
    proof {
        lemma_groups(spec_diff_items(lines@));
        lemma_inv_sums(gv);
    }
    let mut out: Vec<GlLine> = Vec::new();
    let mut d607 = Dec::zero();
    let mut c607 = Dec::zero();
    let m = groups.len();
    let mut j: usize = 0;
    proof {
        assert(gv.subrange(0, 0) =~= Seq::<(Seq<char>, Dec)>::empty());
        assert(views(out@) =~= Seq::<GlLineView>::empty());
        assert(gv.subrange(0, 0).map_values(|p: (Seq<char>, Dec)| spec_inv_account_line(p)) =~= Seq::<GlLineView>::empty());
    }
    while j < m
        invariant
            m == groups@.len(),
            gv == pair_views(groups@),
            status@ == "FINALIZED"@,
            Some(gv) == spec_groups(spec_diff_items(lines@)),
            all_wf(gv),
            j <= m,
            spec_inv_sums(gv.subrange(0, j as int)) == Some((d607, c607)),
            views(out@) == gv.subrange(0, j as int).map_values(|p: (Seq<char>, Dec)| spec_inv_account_line(p)),
            d607.wf(),
            c607.wf(),
        decreases m - j,
    {
        let acct = &groups[j].0;
        let net = groups[j].1;
        let ghost sub = gv.subrange(0, j + 1);
        proof {
            assert(sub.drop_last() =~= gv.subrange(0, j as int));
            assert(sub.last() == gv[j as int]);
            assert(gv[j as int] == (acct@, net));
            assert(net.wf());
            lemma_val_sign(net);
            lemma_neg_val(net);
            lemma_spec_add(d607, neg_dec(net));
            lemma_spec_add(c607, net);
        }
        let ghost before = views(out@);
        if net.is_negative() {
            let l = plain_line(acct.as_str(), Dec::zero(), net.neg());
            proof { lemma_views_push(out@, l); }
            out.push(l);
            d607 = match dec_add(d607, net.neg()) {
                Some(x) => x,
                None => {
                    proof { lemma_inv_sums_none(gv, j + 1); }
                    return Err(InventoryError::Overflow);
                },
            };
        } else {
            let l = plain_line(acct.as_str(), net, Dec::zero());
            proof { lemma_views_push(out@, l); }
            out.push(l);
            c607 = match dec_add(c607, net) {
                Some(x) => x,
                None => {
                    proof { lemma_inv_sums_none(gv, j + 1); }
                    return Err(InventoryError::Overflow);
                },
            };
        }
        proof {
            assert(views(out@) =~= sub.map_values(|p: (Seq<char>, Dec)| spec_inv_account_line(p)));
        }
        j = j + 1;
    }
    proof {
        assert(gv.subrange(0, m as int) =~= gv);
        lemma_spec_sub(d607, c607);
        lemma_spec_sub(c607, d607);
        lemma_val_sign(d607);
    }
    let ghost acc_lines = views(out@);
    if dec_lt(c607, d607) {
        let x = match dec_sub(d607, c607) {
            Some(v) => v,
            None => return Err(InventoryError::Overflow),
        };
        let l = plain_line("607", x, Dec::zero());
        proof { lemma_views_push(out@, l); }
        out.push(l);
    } else if dec_lt(d607, c607) {
        let x = match dec_sub(c607, d607) {
            Some(v) => v,
            None => return Err(InventoryError::Overflow),
        };
        let l = plain_line("607", Dec::zero(), x);
        proof { lemma_views_push(out@, l); }
        out.push(l);
    } else if d607.is_positive() {
        let l = plain_line("607", d607, c607);
        proof { lemma_views_push(out@, l); }
        out.push(l);
    }
    proof {
        assert(views(out@) =~= spec_inventory_note(lines@).unwrap());
    }
    Ok(out)
}

proof fn lemma_inv_sums_none(g: Seq<(Seq<char>, Dec)>, k: int)
    requires
        0 <= k <= g.len(),
        spec_inv_sums(g.subrange(0, k)) is None,
    ensures
        spec_inv_sums(g) is None,
    decreases g.len() - k,
{
    if k < g.len() {
        assert(g.subrange(0, k + 1).drop_last() =~= g.subrange(0, k));
        lemma_inv_sums_none(g, k + 1);
    } else {
        assert(g.subrange(0, k) =~= g);
    }
}

/// The session types (annual, start, end of activity, hand-over, calamity).
pub open spec fn spec_valid_session_type(t: Seq<char>) -> bool {
    t == "ANUAL"@ || t == "INCEPERE"@ || t == "INCETARE"@ || t == "PREDARE_GESTIUNE"@ || t == "CALAMITATE"@
}

/// The type of a new session: the one given, `ANUAL` when none is.
pub fn session_type(t: &Option<String>) -> (r: Result<String, InventoryError>)
    ensures
        ({
            let ty = match t { Some(x) => x@, None => "ANUAL"@ };
            &&& spec_valid_session_type(ty) ==> (r matches Ok(x) && x@ == ty)
            &&& !spec_valid_session_type(ty) ==> (r matches Err(InventoryError::InvalidSessionType(x)) && x@ == ty)
        }),
{
    let ty: &str = match t {
        Some(x) => x.as_str(),
        None => "ANUAL",
    };
    if str_eq(ty, "ANUAL") || str_eq(ty, "INCEPERE") || str_eq(ty, "INCETARE") || str_eq(ty, "PREDARE_GESTIUNE")
        || str_eq(ty, "CALAMITATE") {
        Ok(owned(ty))
    } else {
        Err(InventoryError::InvalidSessionType(owned(ty)))
    }
}

/// A finalized session (and its lines) can no longer be changed or deleted.
pub fn session_editable(status: &str) -> (r: bool)
    ensures
        r == (status@ != "FINALIZED"@),
{
    !str_eq(status, "FINALIZED")
}

/// The values of a line filled from the stock: quantity and unit cost (stored texts read
/// trimmed, zero when not numbers) and the book value `qty × cost` rounded to two decimals.
pub struct PrefillValues {
    pub qty: Dec,
    pub cost: Dec,
    pub value: Dec,
}

pub fn prefill_values(stock_qty: &str, avg_cost: &str) -> (r: Option<PrefillValues>)
    ensures
        ({
            let q = spec_parse_or_zero(stock_qty@);
            let c = spec_parse_or_zero(avg_cost@);
            &&& r is None <==> spec_dec_mul(q, c) is None
            &&& r matches Some(v) ==> v.qty == q && v.cost == c && v.value == spec_round_dp_away(spec_dec_mul(q, c).unwrap(), 2)
                && v.value.wf()
        }),
{
    let q = parse_or_zero(stock_qty);
    let c = parse_or_zero(avg_cost);
    match dec_mul(q, c) {
        Some(p) => Some(PrefillValues { qty: q, cost: c, value: round2(p) }),
        None => None,
    }
}

/// One account's row of the inventory register: the sums of its lines' book value,
/// counted value and difference, and the cause of the difference.
#[derive(Clone, Debug)]
pub struct RegistruGroup {
    pub account_code: String,
    pub value_contabila: Dec,
    pub value_inventar: Dec,
    pub diff_value: Dec,
    pub diff_cause: String,
}

pub struct RegRow {
    pub account: Seq<char>,
    pub vc: Dec,
    pub vi: Dec,
    pub diff: Dec,
    pub cause: Seq<char>,
}

pub open spec fn reg_view(g: RegistruGroup) -> RegRow {
    RegRow { account: g.account_code@, vc: g.value_contabila, vi: g.value_inventar, diff: g.diff_value, cause: g.diff_cause@ }
}

pub open spec fn reg_views(v: Seq<RegistruGroup>) -> Seq<RegRow> {
    v.map_values(|g: RegistruGroup| reg_view(g))
}

/// The position of the first row of an account.
pub open spec fn reg_find(g: Seq<RegRow>, key: Seq<char>) -> Option<int>
    decreases g.len(),
{
    if g.len() == 0 {
        None
    } else {
        match reg_find(g.drop_last(), key) {
            Some(i) => Some(i),
            None => if g.last().account == key { Some(g.len() - 1) } else { None },
        }
    }
}

/// A line's cause when it gives one (a non-empty text).
pub open spec fn line_cause(l: InventoryLine) -> Option<Seq<char>> {
    match l.diff_cause {
        Some(c) => if c@.len() > 0 { Some(c@) } else { None },
        None => None,
    }
}

/// Where a new account's row goes among rows kept in account order: after every row whose
/// account is below it.
pub open spec fn reg_pos(g: Seq<RegRow>, key: Seq<char>) -> int
    decreases g.len(),
{
    if g.len() == 0 {
        0
    } else if spec_lex_lt(g.last().account, key) {
        g.len() as int
    } else {
        reg_pos(g.drop_last(), key)
    }
}

pub open spec fn reg_accounts(g: Seq<RegRow>) -> Seq<Seq<char>> {
    g.map_values(|r: RegRow| r.account)
}

/// Adds a line to the register rows: to its account's row (the three values summed, the
/// cause replaced when the line gives one), or as a new row in account order (its cause, or
/// the empty text).
pub open spec fn reg_add(g: Seq<RegRow>, l: InventoryLine) -> Option<Seq<RegRow>> {
    let vc = spec_parse_or_zero(l.value_contabila@);
    let vi = spec_parse_or_zero(l.value_inventar@);
    let d = spec_parse_or_zero(l.diff_value@);
    match reg_find(g, l.account_code@) {
        Some(k) => match (spec_dec_add(g[k].vc, vc), spec_dec_add(g[k].vi, vi), spec_dec_add(g[k].diff, d)) {
            (Some(a), Some(b), Some(c)) => Some(g.update(k, RegRow {
                account: l.account_code@,
                vc: a,
                vi: b,
                diff: c,
                cause: match line_cause(l) { Some(x) => x, None => g[k].cause },
            })),
            _ => None,
        },
        None => Some(g.insert(reg_pos(g, l.account_code@), RegRow {
            account: l.account_code@,
            vc,
            vi,
            diff: d,
            cause: match l.diff_cause { Some(x) => x@, None => Seq::empty() },
        })),
    }
}

/// The register rows of a session's lines, one per account, accounts in code order.
pub open spec fn spec_registru(ls: Seq<InventoryLine>) -> Option<Seq<RegRow>>
    decreases ls.len(),
{
    if ls.len() == 0 {
        Some(seq![])
    } else {
        match spec_registru(ls.drop_last()) {
            Some(g) => reg_add(g, ls.last()),
            None => None,
        }
    }
}

proof fn lemma_reg_find(g: Seq<RegRow>, key: Seq<char>)
    ensures
        reg_find(g, key) matches Some(k) ==> 0 <= k < g.len() && g[k].account == key,
        reg_find(g, key) is None ==> forall|i: int| 0 <= i < g.len() ==> g[i].account != key,
    decreases g.len(),
{
    if g.len() > 0 {
        lemma_reg_find(g.drop_last(), key);
        assert forall|i: int| 0 <= i < g.len() - 1 implies g.drop_last()[i] == g[i] by {}
    }
}

proof fn lemma_reg_find_first(g: Seq<RegRow>, key: Seq<char>, j: int)
    requires
        0 <= j < g.len(),
        g[j].account == key,
        forall|t: int| 0 <= t < j ==> g[t].account != key,
    ensures
        reg_find(g, key) == Some(j),
    decreases g.len(),
{
    if j < g.len() - 1 {
        assert forall|t: int| 0 <= t < j implies g.drop_last()[t].account != key by {
            assert(g.drop_last()[t] == g[t]);
        }
        assert(g.drop_last()[j] == g[j]);
        lemma_reg_find_first(g.drop_last(), key, j);
    } else {
        lemma_reg_find(g.drop_last(), key);
        assert forall|i: int| 0 <= i < g.drop_last().len() implies g.drop_last()[i].account != key by {
            assert(g.drop_last()[i] == g[i]);
        }
    }
}

proof fn lemma_registru_none(ls: Seq<InventoryLine>, k: int)
    requires
        0 <= k <= ls.len(),
        spec_registru(ls.subrange(0, k)) is None,
    ensures
        spec_registru(ls) is None,
    decreases ls.len() - k,
{
    if k < ls.len() {
        assert(ls.subrange(0, k + 1).drop_last() =~= ls.subrange(0, k));
        lemma_registru_none(ls, k + 1);
    } else {
        assert(ls.subrange(0, k) =~= ls);
    }
}

pub open spec fn reg_wf(g: Seq<RegRow>) -> bool {
    forall|i: int| 0 <= i < g.len() ==> (#[trigger] g[i]).vc.wf() && g[i].vi.wf() && g[i].diff.wf()
}

proof fn lemma_registru_wf(ls: Seq<InventoryLine>)
    ensures
        spec_registru(ls) matches Some(g) ==> reg_wf(g),
    decreases ls.len(),
{
    if ls.len() > 0 {
        lemma_registru_wf(ls.drop_last());
        if let Some(g) = spec_registru(ls.drop_last()) {
            let l = ls.last();
            lemma_reg_find(g, l.account_code@);
            if let Some(k) = reg_find(g, l.account_code@) {
                lemma_spec_add(g[k].vc, spec_parse_or_zero(l.value_contabila@));
                lemma_spec_add(g[k].vi, spec_parse_or_zero(l.value_inventar@));
                lemma_spec_add(g[k].diff, spec_parse_or_zero(l.diff_value@));
            } else {
                lemma_reg_pos_bound(g, l.account_code@);
                let p = reg_pos(g, l.account_code@);
                let g2 = reg_add(g, l).unwrap();
                crate::decimal::lemma_parse_wf(spec_trim(l.value_contabila@));
                crate::decimal::lemma_parse_wf(spec_trim(l.value_inventar@));
                crate::decimal::lemma_parse_wf(spec_trim(l.diff_value@));
                assert forall|t: int| 0 <= t < g2.len() implies (#[trigger] g2[t]).vc.wf() && g2[t].vi.wf()
                    && g2[t].diff.wf() by {
                    if t < p {
                        assert(g2[t] == g[t]);
                    } else if t > p {
                        assert(g2[t] == g[t - 1]);
                    }
                }
            }
        }
    }
}

proof fn lemma_reg_pos_bound(g: Seq<RegRow>, key: Seq<char>)
    ensures
        0 <= reg_pos(g, key) <= g.len(),
    decreases g.len(),
{
    if g.len() > 0 {
        lemma_reg_pos_bound(g.drop_last(), key);
    }
}

proof fn lemma_reg_pos(g: Seq<RegRow>, key: Seq<char>)
    requires
        strictly_sorted(reg_accounts(g)),
        forall|t: int| 0 <= t < g.len() ==> g[t].account != key,
    ensures
        0 <= reg_pos(g, key) <= g.len(),
        forall|t: int| 0 <= t < reg_pos(g, key) ==> spec_lex_lt(#[trigger] g[t].account, key),
        forall|t: int| reg_pos(g, key) <= t < g.len() ==> spec_lex_lt(key, #[trigger] g[t].account),
    decreases g.len(),
{
    if g.len() > 0 {
        let pre = g.drop_last();
        let last = g.last();
        assert(reg_accounts(pre) =~= reg_accounts(g).drop_last());
        assert forall|j: int, k: int| 0 <= j < k < reg_accounts(pre).len() implies spec_lex_lt(
            #[trigger] reg_accounts(pre)[j],
            #[trigger] reg_accounts(pre)[k],
        ) by {
            assert(reg_accounts(g)[j] == reg_accounts(pre)[j]);
            assert(reg_accounts(g)[k] == reg_accounts(pre)[k]);
        }
        assert(last.account == g[g.len() - 1].account);
        if spec_lex_lt(last.account, key) {
            assert forall|t: int| 0 <= t < g.len() implies spec_lex_lt(#[trigger] g[t].account, key) by {
                if t < g.len() - 1 {
                    assert(reg_accounts(g)[t] == g[t].account);
                    assert(reg_accounts(g)[g.len() - 1] == last.account);
                    lemma_lex_transitive(g[t].account, last.account, key);
                }
            }
        } else {
            lemma_lex_total(last.account, key);
            lemma_reg_pos(pre, key);
            assert forall|t: int| 0 <= t < reg_pos(pre, key) implies spec_lex_lt(#[trigger] g[t].account, key) by {
                assert(pre[t] == g[t]);
            }
            assert forall|t: int| reg_pos(pre, key) <= t < g.len() implies spec_lex_lt(key, #[trigger] g[t].account) by {
                if t < g.len() - 1 {
                    assert(pre[t] == g[t]);
                }
            }
        }
    }
}

proof fn lemma_sorted_insert(g: Seq<RegRow>, p: int, x: RegRow)
    requires
        strictly_sorted(reg_accounts(g)),
        0 <= p <= g.len(),
        forall|t: int| 0 <= t < p ==> spec_lex_lt(#[trigger] g[t].account, x.account),
        forall|t: int| p <= t < g.len() ==> spec_lex_lt(x.account, #[trigger] g[t].account),
    ensures
        strictly_sorted(reg_accounts(g.insert(p, x))),
{
    let h = g.insert(p, x);
    let a = reg_accounts(h);
    assert forall|j: int, k: int| 0 <= j < k < a.len() implies spec_lex_lt(#[trigger] a[j], #[trigger] a[k]) by {
        let b = reg_accounts(g);
        assert(a[j] == h[j].account);
        assert(a[k] == h[k].account);
        if k < p {
            assert(h[j] == g[j] && h[k] == g[k]);
            assert(b[j] == g[j].account && b[k] == g[k].account);
        } else if k == p {
            assert(h[j] == g[j]);
        } else if j < p {
            assert(h[j] == g[j] && h[k] == g[k - 1]);
            lemma_lex_transitive(g[j].account, x.account, g[k - 1].account);
        } else if j == p {
            assert(h[k] == g[k - 1]);
        } else {
            assert(h[j] == g[j - 1] && h[k] == g[k - 1]);
            assert(b[j - 1] == g[j - 1].account && b[k - 1] == g[k - 1].account);
        }
    }
}

proof fn lemma_reg_sum_insert(g: Seq<RegRow>, p: int, x: RegRow)
    requires
        0 <= p <= g.len(),
    ensures
        reg_diff_sum(g.insert(p, x)) == reg_diff_sum(g) + x.diff.val(),
    decreases g.len(),
{
    if p == g.len() {
        assert(g.insert(p, x).drop_last() =~= g);
    } else {
        assert(g.insert(p, x).drop_last() =~= g.drop_last().insert(p, x));
        assert(g.insert(p, x).last() == g.last());
        lemma_reg_sum_insert(g.drop_last(), p, x);
    }
}

/// The register's rows are in strictly increasing account order, one per account.
pub proof fn lemma_registru_sorted(ls: Seq<InventoryLine>)
    ensures
        spec_registru(ls) matches Some(g) ==> strictly_sorted(reg_accounts(g)),
    decreases ls.len(),
{
    if ls.len() > 0 {
        lemma_registru_sorted(ls.drop_last());
        if let Some(g) = spec_registru(ls.drop_last()) {
            let l = ls.last();
            lemma_reg_find(g, l.account_code@);
            match reg_find(g, l.account_code@) {
                Some(k) => {
                    if let Some(g2) = reg_add(g, l) {
                        assert(reg_accounts(g2) =~= reg_accounts(g));
                    }
                },
                None => {
                    lemma_reg_pos(g, l.account_code@);
                    let g2 = reg_add(g, l).unwrap();
                    lemma_sorted_insert(g, reg_pos(g, l.account_code@), g2[reg_pos(g, l.account_code@)]);
                },
            }
        }
    } else {
        assert(reg_accounts(Seq::<RegRow>::empty()) =~= Seq::<Seq<char>>::empty());
    }
}

/// The rows of the inventory register for a session's lines (see `spec_registru`);
/// `None` when a sum leaves the decimal range.
pub fn registru_groups(lines: &Vec<InventoryLine>) -> (r: Option<Vec<RegistruGroup>>)
    ensures
        r is None <==> spec_registru(lines@) is None,
        r matches Some(g) ==> Some(reg_views(g@)) == spec_registru(lines@),
        r matches Some(g) ==> strictly_sorted(reg_accounts(reg_views(g@))),
{
    let mut g: Vec<RegistruGroup> = Vec::new();
    let n = lines.len();
    let mut i: usize = 0;
    proof {
        assert(lines@.subrange(0, 0) =~= Seq::<InventoryLine>::empty());
        assert(reg_views(g@) =~= Seq::<RegRow>::empty());
    }
    while i < n
        invariant
            n == lines@.len(),
            i <= n,
            spec_registru(lines@.subrange(0, i as int)) == Some(reg_views(g@)),
        decreases n - i,
    {
        let l = &lines[i];
        let ghost gv = reg_views(g@);
        proof {
            assert(lines@.subrange(0, i + 1).drop_last() =~= lines@.subrange(0, i as int));
            assert(lines@.subrange(0, i + 1).last() == lines@[i as int]);
            lemma_registru_wf(lines@.subrange(0, i as int));
            lemma_reg_find(gv, l.account_code@);
        }
        let vc = parse_or_zero(l.value_contabila.as_str());
        let vi = parse_or_zero(l.value_inventar.as_str());
        let d = parse_or_zero(l.diff_value.as_str());
        let m = g.len();
        let mut j: usize = 0;
        while j < m
            invariant_except_break
                m == g@.len(),
                gv == reg_views(g@),
                j <= m,
                forall|t: int| 0 <= t < j ==> gv[t].account != l.account_code@,
            ensures
                j <= m,
                forall|t: int| 0 <= t < j ==> gv[t].account != l.account_code@,
                j < m ==> gv[j as int].account == l.account_code@,
            decreases m - j,
        {
            if str_eq(g[j].account_code.as_str(), l.account_code.as_str()) {
                break;
            }
            j = j + 1;
        }
        if j < m {
            proof {
                lemma_reg_find_first(gv, l.account_code@, j as int);
                assert(reg_wf(gv));
                assert(gv[j as int].vc.wf() && gv[j as int].vi.wf() && gv[j as int].diff.wf());
            }
            let cur_vc = g[j].value_contabila;
            let cur_vi = g[j].value_inventar;
            let cur_diff = g[j].diff_value;
            let cur_cause = g[j].diff_cause.clone();
            proof {
                assert(reg_view(g@[j as int]) == gv[j as int]);
            }
            let a = dec_add(cur_vc, vc);
            let b = dec_add(cur_vi, vi);
            let c = dec_add(cur_diff, d);
            match (a, b, c) {
                (Some(a), Some(b), Some(c)) => {
                    let cause = match &l.diff_cause {
                        Some(x) => if x.as_str().unicode_len() > 0 { x.clone() } else { cur_cause },
                        None => cur_cause,
                    };
                    let row = RegistruGroup {
                        account_code: l.account_code.clone(),
                        value_contabila: a,
                        value_inventar: b,
                        diff_value: c,
                        diff_cause: cause,
                    };
                    g.set(j, row);
                    proof {
                        assert(reg_views(g@) =~= gv.update(j as int, reg_view(row)));
                    }
                },
                _ => {
                    proof {
                        lemma_registru_none(lines@, i + 1);
                    }
                    return None;
                },
            }
        } else {
            proof {
                assert(reg_find(gv, l.account_code@) is None) by {
                    if let Some(k) = reg_find(gv, l.account_code@) {
                        assert(gv[k].account == l.account_code@);
                    }
                }
            }
            let cause = match &l.diff_cause {
                Some(x) => x.clone(),
                None => String::new(),
            };
            let row = RegistruGroup {
                account_code: l.account_code.clone(),
                value_contabila: vc,
                value_inventar: vi,
                diff_value: d,
                diff_cause: cause,
            };
            proof {
                lemma_registru_sorted(lines@.subrange(0, i as int));
                lemma_reg_find(gv, l.account_code@);
                lemma_reg_pos(gv, l.account_code@);
            }
            let mut p: usize = 0;
            while p < m && lex_lt(g[p].account_code.as_str(), l.account_code.as_str())
                invariant
                    m == g@.len(),
                    gv == reg_views(g@),
                    p <= m,
                    forall|t: int| 0 <= t < p ==> spec_lex_lt(#[trigger] gv[t].account, l.account_code@),
                decreases m - p,
            {
                proof {
                    assert(gv[p as int].account == g@[p as int].account_code@);
                }
                p = p + 1;
            }
            proof {
                let q = reg_pos(gv, l.account_code@);
                if p < m {
                    assert(gv[p as int].account == g@[p as int].account_code@);
                }
                if (p as int) < q {
                    assert(spec_lex_lt(gv[p as int].account, l.account_code@));
                } else if (p as int) > q {
                    assert(spec_lex_lt(gv[q].account, l.account_code@));
                    assert(spec_lex_lt(l.account_code@, gv[q].account));
                    lemma_lex_transitive(gv[q].account, l.account_code@, gv[q].account);
                    lemma_lex_irreflexive(gv[q].account);
                }
                assert(p as int == q);
            }
            g.insert(p, row);
            proof {
                assert(reg_views(g@) =~= gv.insert(p as int, reg_view(row)));
            }
        }
        i = i + 1;
    }
    proof {
        assert(lines@.subrange(0, n as int) =~= lines@);
        lemma_registru_sorted(lines@);
    }
    Some(g)
}

/// Σ of the rows' differences (in `10^-28` units).
pub open spec fn reg_diff_sum(g: Seq<RegRow>) -> int
    decreases g.len(),
{
    if g.len() == 0 { 0 } else { reg_diff_sum(g.drop_last()) + g.last().diff.val() }
}

/// Σ of the lines' differences as stored (read as `spec_parse_or_zero`).
pub open spec fn line_diff_sum(ls: Seq<InventoryLine>) -> int
    decreases ls.len(),
{
    if ls.len() == 0 { 0 } else { line_diff_sum(ls.drop_last()) + spec_parse_or_zero(ls.last().diff_value@).val() }
}

proof fn lemma_reg_sum_update(g: Seq<RegRow>, k: int, x: RegRow)
    requires
        0 <= k < g.len(),
    ensures
        reg_diff_sum(g.update(k, x)) == reg_diff_sum(g) - g[k].diff.val() + x.diff.val(),
    decreases g.len(),
{
    if k < g.len() - 1 {
        assert(g.update(k, x).drop_last() =~= g.drop_last().update(k, x));
        lemma_reg_sum_update(g.drop_last(), k, x);
    } else {
        assert(g.update(k, x).drop_last() =~= g.drop_last());
    }
}

/// The inventory register keeps the session's total difference: Σ of the rows'
/// differences equals Σ of the lines' differences.
pub proof fn lemma_registru_keeps_total(ls: Seq<InventoryLine>)
    ensures
        spec_registru(ls) matches Some(g) ==> reg_diff_sum(g) == line_diff_sum(ls),
    decreases ls.len(),
{
    if ls.len() > 0 {
        let pre = ls.drop_last();
        lemma_registru_keeps_total(pre);
        lemma_registru_wf(pre);
        if let Some(g) = spec_registru(pre) {
            let l = ls.last();
            let d = spec_parse_or_zero(l.diff_value@);
            lemma_reg_find(g, l.account_code@);
            match reg_find(g, l.account_code@) {
                Some(k) => {
                    lemma_spec_add(g[k].vc, spec_parse_or_zero(l.value_contabila@));
                    lemma_spec_add(g[k].vi, spec_parse_or_zero(l.value_inventar@));
                    lemma_spec_add(g[k].diff, d);
                    if let Some(g2) = reg_add(g, l) {
                        lemma_reg_sum_update(g, k, g2[k]);
                        assert(g2 == g.update(k, g2[k]));
                    }
                },
                None => {
                    lemma_reg_pos_bound(g, l.account_code@);
                    let g2 = reg_add(g, l).unwrap();
                    lemma_reg_sum_insert(g, reg_pos(g, l.account_code@), g2[reg_pos(g, l.account_code@)]);
                },
            }
        }
    }
}

} // verus!
