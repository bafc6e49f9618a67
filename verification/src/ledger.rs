//! The movements of the general ledger (cartea mare): each entry of the period with its
//! corresponding account, taken from the opposite side of its journal, and the entries
//! grouped by account in account-code order.

use vstd::prelude::*;
use crate::decimal::{parse_or_zero, spec_parse_or_zero, lemma_val_sign};
use crate::reports::{LedgerMovement, contra_account, spec_contra};
use crate::text::{str_eq, str_views, lex_lt, spec_lex_lt, strictly_sorted, lemma_lex_transitive, lemma_lex_total};

verus! {

/// One entry of the period as read, with its journal.
#[derive(Clone, Debug)]
pub struct LedgerRow {
    pub journal_pk: String,
    pub date: String,
    pub journal_id: String,
    pub transaction_id: String,
    pub description: Option<String>,
    pub account: String,
    pub debit: String,
    pub credit: String,
}

/// An entry stands on the debit side of its journal when its debit is positive.
pub open spec fn spec_on_debit_side(r: LedgerRow) -> bool {
    spec_parse_or_zero(r.debit@).val() > 0
}

/// An entry stands on the credit side when it is not a debit and its credit is positive.
pub open spec fn spec_on_credit_side(r: LedgerRow) -> bool {
    !spec_on_debit_side(r) && spec_parse_or_zero(r.credit@).val() > 0
}

pub open spec fn spec_on_side(r: LedgerRow, debit: bool) -> bool {
    if debit {
        spec_on_debit_side(r)
    } else {
        spec_on_credit_side(r)
    }
}

/// The accounts on one side of journal `jpk`, in the order of the entries.
pub open spec fn spec_side_accounts(rows: Seq<LedgerRow>, jpk: Seq<char>, debit: bool) -> Seq<Seq<char>>
    decreases rows.len(),
{
    if rows.len() == 0 {
        Seq::empty()
    } else {
        let pre = spec_side_accounts(rows.drop_last(), jpk, debit);
        if rows.last().journal_pk@ == jpk && spec_on_side(rows.last(), debit) {
            pre.push(rows.last().account@)
        } else {
            pre
        }
    }
}

/// The corresponding account of entry `i`: from the credit side of its journal when the
/// entry is a debit, else from the debit side (see `spec_contra`).
pub open spec fn spec_row_contra(rows: Seq<LedgerRow>, i: int) -> Seq<char> {
    spec_contra(spec_side_accounts(rows, rows[i].journal_pk@, !spec_on_debit_side(rows[i])), rows[i].account@)
}

pub open spec fn opt_views(o: Option<String>) -> Option<Seq<char>> {
    match o {
        Some(s) => Some(s@),
        None => None,
    }
}

/// `m` is the movement of entry `i`: its date, journal, transaction, description and
/// amounts, with the corresponding account of `spec_row_contra`.
pub open spec fn movement_ok(m: LedgerMovement, rows: Seq<LedgerRow>, i: int) -> bool {
    let r = rows[i];
    &&& m.date@ == r.date@
    &&& m.journal_id@ == r.journal_id@
    &&& m.transaction_id@ == r.transaction_id@
    &&& opt_views(m.description) == opt_views(r.description)
    &&& m.contra@ == spec_row_contra(rows, i)
    &&& m.debit@ == r.debit@
    &&& m.credit@ == r.credit@
}

proof fn lemma_side_step(rows: Seq<LedgerRow>, k: int, j: Seq<char>, b: bool)
    requires
        0 <= k < rows.len(),
    ensures
        spec_side_accounts(rows.subrange(0, k + 1), j, b) == (if rows[k].journal_pk@ == j && spec_on_side(rows[k], b) {
            spec_side_accounts(rows.subrange(0, k), j, b).push(rows[k].account@)
        } else {
            spec_side_accounts(rows.subrange(0, k), j, b)
        }),
{
    assert(rows.subrange(0, k + 1).drop_last() =~= rows.subrange(0, k));
    assert(rows.subrange(0, k + 1).last() == rows[k]);
}

/// The two sides of one journal.
struct JournalSides {
    jpk: String,
    debit: Vec<String>,
    credit: Vec<String>,
}

spec fn sides_ok(groups: Seq<JournalSides>, rows: Seq<LedgerRow>) -> bool {
    &&& forall|g: int| 0 <= g < groups.len() ==> str_views(#[trigger] groups[g].debit@) == spec_side_accounts(
        rows,
        groups[g].jpk@,
        true,
    ) && str_views(groups[g].credit@) == spec_side_accounts(rows, groups[g].jpk@, false)
    &&& forall|g: int, h: int| 0 <= g < h < groups.len() ==> groups[g].jpk@ != groups[h].jpk@
    &&& forall|j: Seq<char>|
        #![trigger spec_side_accounts(rows, j, true)]
        (forall|g: int| 0 <= g < groups.len() ==> groups[g].jpk@ != j) ==> spec_side_accounts(rows, j, true).len()
            == 0 && spec_side_accounts(rows, j, false).len() == 0
}

fn find_group(groups: &Vec<JournalSides>, jpk: &str) -> (r: Option<usize>)
    ensures
        r matches Some(g) ==> g < groups@.len() && groups@[g as int].jpk@ == jpk@,
        r is None ==> forall|g: int| 0 <= g < groups@.len() ==> groups@[g].jpk@ != jpk@,
{
    let mut g = groups.len();
    while g > 0
        invariant
            g <= groups@.len(),
            forall|h: int| g <= h < groups@.len() ==> groups@[h].jpk@ != jpk@,
        decreases g,
    {
        g = g - 1;
        if str_eq(groups[g].jpk.as_str(), jpk) {
            return Some(g);
        }
    }
    None
}

fn push_account(v: &mut Vec<String>, a: &String)
    ensures
        str_views(final(v)@) == str_views(old(v)@).push(a@),
{
    v.push(a.clone());
    assert(str_views(v@) =~= str_views(old(v)@).push(a@));
}

/// The sides of every journal of `rows`, and for each entry the index of its journal.
fn journal_sides(rows: &Vec<LedgerRow>) -> (r: (Vec<JournalSides>, Vec<usize>))
    ensures
        sides_ok(r.0@, rows@),
        r.1@.len() == rows@.len(),
        forall|i: int| 0 <= i < rows@.len() ==> (#[trigger] r.1@[i]) < r.0@.len() && r.0@[r.1@[i] as int].jpk@
            == rows@[i].journal_pk@,
{
    let mut groups: Vec<JournalSides> = Vec::new();
    let mut group_of: Vec<usize> = Vec::new();
    let n = rows.len();
    let mut k: usize = 0;
    proof {
        assert(rows@.subrange(0, 0) =~= Seq::<LedgerRow>::empty());
    }
    while k < n
        invariant
            n == rows@.len(),
            k <= n,
            sides_ok(groups@, rows@.subrange(0, k as int)),
            group_of@.len() == k,
            forall|i: int| 0 <= i < k ==> (#[trigger] group_of@[i]) < groups@.len() && groups@[group_of@[i] as int].jpk@
                == rows@[i].journal_pk@,
        decreases n - k,
    {
        let row = &rows[k];
        let d = parse_or_zero(row.debit.as_str());
        let c = parse_or_zero(row.credit.as_str());
        proof {
            lemma_val_sign(d);
            lemma_val_sign(c);
        }
        let on_debit = d.is_positive();
        let on_credit = !on_debit && c.is_positive();
        let ghost old_groups = groups@;
        let ghost pre = rows@.subrange(0, k as int);
        let ghost post = rows@.subrange(0, k + 1);
        assert(on_debit == spec_on_side(rows@[k as int], true));
        assert(on_credit == spec_on_side(rows@[k as int], false));
        match find_group(&groups, row.journal_pk.as_str()) {
            Some(g) => {
                let mut grp = groups.remove(g);
                let ghost g0 = grp;
                assert(g0 == old_groups[g as int]);
                assert(str_views(g0.debit@) == spec_side_accounts(pre, g0.jpk@, true));
                if on_debit {
                    push_account(&mut grp.debit, &row.account);
                } else if on_credit {
                    push_account(&mut grp.credit, &row.account);
                }
                groups.insert(g, grp);
                group_of.push(g);
                proof {
                    assert(groups@ =~= old_groups.update(g as int, grp));
                    assert forall|h: int| 0 <= h < groups@.len() implies str_views(#[trigger] groups@[h].debit@)
                        == spec_side_accounts(post, groups@[h].jpk@, true) && str_views(groups@[h].credit@)
                        == spec_side_accounts(post, groups@[h].jpk@, false) by {
                        lemma_side_step(rows@, k as int, groups@[h].jpk@, true);
                        lemma_side_step(rows@, k as int, groups@[h].jpk@, false);
                        if h != g {
                            assert(old_groups[h].jpk@ != old_groups[g as int].jpk@);
                            assert(str_views(old_groups[h].debit@) == spec_side_accounts(pre, old_groups[h].jpk@, true));
                        } else {
                            assert(groups@[h] == grp);
                            assert(grp.jpk@ == rows@[k as int].journal_pk@);
                        }
                    }
                    assert forall|j: Seq<char>|
                        #![trigger spec_side_accounts(post, j, true)]
                        (forall|h: int| 0 <= h < groups@.len() ==> groups@[h].jpk@ != j) implies spec_side_accounts(
                            post,
                            j,
                            true,
                        ).len() == 0 && spec_side_accounts(post, j, false).len() == 0 by {
                        lemma_side_step(rows@, k as int, j, true);
                        lemma_side_step(rows@, k as int, j, false);
                        assert(groups@[g as int].jpk@ != j);
                        assert forall|h: int| 0 <= h < old_groups.len() implies old_groups[h].jpk@ != j by {
                            assert(groups@[h].jpk@ != j);
                        }
                        assert(spec_side_accounts(pre, j, true).len() == 0);
                    }
                }
            },
            None => {
                let mut dl: Vec<String> = Vec::new();
                let mut cl: Vec<String> = Vec::new();
                if on_debit {
                    push_account(&mut dl, &row.account);
                } else if on_credit {
                    push_account(&mut cl, &row.account);
                }
                let grp = JournalSides { jpk: row.journal_pk.clone(), debit: dl, credit: cl };
                groups.push(grp);
                group_of.push(groups.len() - 1);
                proof {
                    let p = row.journal_pk@;
                    assert(spec_side_accounts(pre, p, true).len() == 0);
                    assert(spec_side_accounts(pre, p, false).len() == 0);
                    assert forall|h: int| 0 <= h < groups@.len() implies str_views(#[trigger] groups@[h].debit@)
                        == spec_side_accounts(post, groups@[h].jpk@, true) && str_views(groups@[h].credit@)
                        == spec_side_accounts(post, groups@[h].jpk@, false) by {
                        lemma_side_step(rows@, k as int, groups@[h].jpk@, true);
                        lemma_side_step(rows@, k as int, groups@[h].jpk@, false);
                        if h < old_groups.len() {
                            assert(groups@[h] == old_groups[h]);
                        } else {
                            assert(str_views(dl@) =~= spec_side_accounts(post, p, true));
                            assert(str_views(cl@) =~= spec_side_accounts(post, p, false));
                        }
                    }
                    assert forall|j: Seq<char>|
                        #![trigger spec_side_accounts(post, j, true)]
                        (forall|h: int| 0 <= h < groups@.len() ==> groups@[h].jpk@ != j) implies spec_side_accounts(
                            post,
                            j,
                            true,
                        ).len() == 0 && spec_side_accounts(post, j, false).len() == 0 by {
                        lemma_side_step(rows@, k as int, j, true);
                        lemma_side_step(rows@, k as int, j, false);
                        assert(groups@[old_groups.len() as int].jpk@ != j);
                        assert forall|h: int| 0 <= h < old_groups.len() implies old_groups[h].jpk@ != j by {
                            assert(groups@[h].jpk@ != j);
                        }
                        assert(spec_side_accounts(pre, j, true).len() == 0);
                    }
                }
            },
        }
        k = k + 1;
    }
    proof {
        assert(rows@.subrange(0, n as int) =~= rows@);
    }
    (groups, group_of)
}

fn copy_opt(o: &Option<String>) -> (r: Option<String>)
    ensures
        opt_views(r) == opt_views(*o),
{
    match o {
        Some(x) => Some(x.clone()),
        None => None,
    }
}

/// The movement of every entry, in the order of the entries, each with its corresponding
/// account.
pub fn ledger_movements(rows: &Vec<LedgerRow>) -> (r: Vec<LedgerMovement>)
    ensures
        r@.len() == rows@.len(),
        forall|i: int| 0 <= i < rows@.len() ==> movement_ok(#[trigger] r@[i], rows@, i),
{
    let (groups, group_of) = journal_sides(rows);
    let mut out: Vec<LedgerMovement> = Vec::new();
    let n = rows.len();
    let mut i: usize = 0;
    while i < n
        invariant
            n == rows@.len(),
            i <= n,
            sides_ok(groups@, rows@),
            group_of@.len() == n,
            forall|k: int| 0 <= k < n ==> (#[trigger] group_of@[k]) < groups@.len() && groups@[group_of@[k] as int].jpk@
                == rows@[k].journal_pk@,
            out@.len() == i,
            forall|k: int| 0 <= k < i ==> movement_ok(#[trigger] out@[k], rows@, k),
        decreases n - i,
    {
        let row = &rows[i];
        let g = group_of[i];
        let d = parse_or_zero(row.debit.as_str());
        proof {
            lemma_val_sign(d);
            assert(groups@[g as int].jpk@ == rows@[i as int].journal_pk@);
            assert(str_views(groups@[g as int].debit@) == spec_side_accounts(rows@, groups@[g as int].jpk@, true));
        }
        let contra = if d.is_positive() {
            contra_account(&groups[g].credit, row.account.as_str())
        } else {
            contra_account(&groups[g].debit, row.account.as_str())
        };
        let m = LedgerMovement {
            date: row.date.clone(),
            journal_id: row.journal_id.clone(),
            transaction_id: row.transaction_id.clone(),
            description: copy_opt(&row.description),
            contra,
            debit: row.debit.clone(),
            credit: row.credit.clone(),
        };
        let ghost old_out = out@;
        out.push(m);
        proof {
            assert forall|k: int| 0 <= k < i + 1 implies movement_ok(#[trigger] out@[k], rows@, k) by {
                if k < i {
                    assert(out@[k] == old_out[k]);
                } else {
                    assert(out@[k] == m);
                }
            }
        }
        i = i + 1;
    }
    out
}

/// The entries of one account, in order: their indices in `rows`.
pub open spec fn spec_account_rows(rows: Seq<LedgerRow>, code: Seq<char>) -> Seq<int>
    decreases rows.len(),
{
    if rows.len() == 0 {
        Seq::empty()
    } else {
        let pre = spec_account_rows(rows.drop_last(), code);
        if rows.last().account@ == code {
            pre.push(rows.len() - 1)
        } else {
            pre
        }
    }
}

/// One account's movements in the period.
pub struct LedgerGroup {
    pub account: String,
    pub movements: Vec<LedgerMovement>,
}

pub open spec fn group_codes(gs: Seq<LedgerGroup>) -> Seq<Seq<char>> {
    gs.map_values(|g: LedgerGroup| g.account@)
}

pub open spec fn row_accounts(rows: Seq<LedgerRow>) -> Seq<Seq<char>> {
    rows.map_values(|r: LedgerRow| r.account@)
}

/// Adds a code to a list kept in strictly increasing order, unless it is there already.
fn insert_code(codes: &mut Vec<String>, c: &String)
    requires
        strictly_sorted(str_views(old(codes)@)),
    ensures
        strictly_sorted(str_views(final(codes)@)),
        forall|x: Seq<char>| #[trigger] str_views(final(codes)@).contains(x) <==> (str_views(old(codes)@).contains(x) || x == c@),
{
    let ghost s = str_views(codes@);
    let n = codes.len();
    let mut j: usize = 0;
    while j < n && lex_lt(codes[j].as_str(), c.as_str())
        invariant
            n == codes@.len(),
            s == str_views(codes@),
            j <= n,
            forall|h: int| 0 <= h < j ==> spec_lex_lt(#[trigger] s[h], c@),
        decreases n - j,
    {
        j = j + 1;
    }
    if j < n && str_eq(codes[j].as_str(), c.as_str()) {
        proof {
            assert(s[j as int] == c@);
        }
        return;
    }
    proof {
        if j < n {
            lemma_lex_total(s[j as int], c@);
        }
        assert forall|h: int| j < h < n implies spec_lex_lt(c@, #[trigger] s[h]) by {
            lemma_lex_transitive(c@, s[j as int], s[h]);
        }
    }
    codes.insert(j, c.clone());
    proof {
        let t = str_views(codes@);
        assert(t =~= s.insert(j as int, c@));
        assert forall|a: int, b: int| 0 <= a < b < t.len() implies spec_lex_lt(#[trigger] t[a], #[trigger] t[b]) by {
            if b < j {
            } else if b == j {
            } else if a < j {
                lemma_lex_transitive(t[a], c@, t[b]);
            } else if a == j {
            } else {
            }
        }
        assert forall|x: Seq<char>| #[trigger] t.contains(x) <==> (s.contains(x) || x == c@) by {
            if t.contains(x) {
                let q = choose|q: int| 0 <= q < t.len() && t[q] == x;
                if q < j {
                    assert(s[q] == x);
                } else if q > j {
                    assert(s[q - 1] == x);
                }
            }
            if s.contains(x) {
                let q = choose|q: int| 0 <= q < s.len() && s[q] == x;
                if q < j {
                    assert(t[q] == x);
                } else {
                    assert(t[q + 1] == x);
                }
            }
            if x == c@ {
                assert(t[j as int] == x);
            }
        }
    }
}

proof fn lemma_account_rows_step(rows: Seq<LedgerRow>, k: int, code: Seq<char>)
    requires
        0 <= k < rows.len(),
    ensures
        spec_account_rows(rows.subrange(0, k + 1), code) == (if rows[k].account@ == code {
            spec_account_rows(rows.subrange(0, k), code).push(k)
        } else {
            spec_account_rows(rows.subrange(0, k), code)
        }),
{
    assert(rows.subrange(0, k + 1).drop_last() =~= rows.subrange(0, k));
}

fn copy_movement(m: &LedgerMovement) -> (r: LedgerMovement)
    ensures
        r.date@ == m.date@,
        r.journal_id@ == m.journal_id@,
        r.transaction_id@ == m.transaction_id@,
        opt_views(r.description) == opt_views(m.description),
        r.contra@ == m.contra@,
        r.debit@ == m.debit@,
        r.credit@ == m.credit@,
{
    LedgerMovement {
        date: m.date.clone(),
        journal_id: m.journal_id.clone(),
        transaction_id: m.transaction_id.clone(),
        description: copy_opt(&m.description),
        contra: m.contra.clone(),
        debit: m.debit.clone(),
        credit: m.credit.clone(),
    }
}

/// The movements of one account, in the order of the entries.
fn account_movements(rows: &Vec<LedgerRow>, movements: &Vec<LedgerMovement>, code: &String) -> (r: Vec<LedgerMovement>)
    requires
        movements@.len() == rows@.len(),
        forall|i: int| 0 <= i < rows@.len() ==> movement_ok(#[trigger] movements@[i], rows@, i),
    ensures
        r@.len() == spec_account_rows(rows@, code@).len(),
        forall|t: int| 0 <= t < r@.len() ==> movement_ok(#[trigger] r@[t], rows@, spec_account_rows(rows@, code@)[t]),
{
    let mut out: Vec<LedgerMovement> = Vec::new();
    let n = rows.len();
    let mut i: usize = 0;
    proof {
        assert(rows@.subrange(0, 0) =~= Seq::<LedgerRow>::empty());
    }
    while i < n
        invariant
            n == rows@.len(),
            movements@.len() == n,
            forall|k: int| 0 <= k < n ==> movement_ok(#[trigger] movements@[k], rows@, k),
            i <= n,
            out@.len() == spec_account_rows(rows@.subrange(0, i as int), code@).len(),
            forall|t: int| 0 <= t < out@.len() ==> movement_ok(#[trigger] out@[t], rows@, spec_account_rows(rows@.subrange(0, i as int), code@)[t]),
        decreases n - i,
    {
        proof {
            lemma_account_rows_step(rows@, i as int, code@);
        }
        if str_eq(rows[i].account.as_str(), code.as_str()) {
            let m = copy_movement(&movements[i]);
            let ghost old_out = out@;
            out.push(m);
            proof {
                assert(movement_ok(movements@[i as int], rows@, i as int));
                assert forall|t: int| 0 <= t < out@.len() implies movement_ok(#[trigger] out@[t], rows@, spec_account_rows(rows@.subrange(0, i + 1), code@)[t]) by {
                    if t < old_out.len() {
                        assert(out@[t] == old_out[t]);
                    } else {
                        assert(out@[t] == m);
                    }
                }
            }
        }
        i = i + 1;
    }
    proof {
        assert(rows@.subrange(0, n as int) =~= rows@);
    }
    out
}

/// The general ledger's accounts in code order, each with its movements: every account
/// with an opening balance (`opening_codes`) or an entry in the period appears once, and
/// its movements are its entries in order, each with its corresponding account.
pub fn ledger_groups(opening_codes: &Vec<String>, rows: &Vec<LedgerRow>) -> (r: Vec<LedgerGroup>)
    ensures
        strictly_sorted(group_codes(r@)),
        forall|x: Seq<char>| #[trigger] group_codes(r@).contains(x) <==> (str_views(opening_codes@).contains(x)
            || row_accounts(rows@).contains(x)),
        forall|j: int| 0 <= j < r@.len() ==> (#[trigger] r@[j]).movements@.len() == spec_account_rows(
            rows@,
            r@[j].account@,
        ).len(),
        forall|j: int, t: int| 0 <= j < r@.len() && 0 <= t < r@[j].movements@.len() ==> movement_ok(
            #[trigger] r@[j].movements@[t],
            rows@,
            spec_account_rows(rows@, r@[j].account@)[t],
        ),
{
    let mut codes: Vec<String> = Vec::new();
    let m = opening_codes.len();
    let mut i: usize = 0;
    proof {
        assert(str_views(codes@) =~= Seq::<Seq<char>>::empty());
    }
    while i < m
        invariant
            m == opening_codes@.len(),
            i <= m,
            strictly_sorted(str_views(codes@)),
            forall|x: Seq<char>| #[trigger] str_views(codes@).contains(x) <==> str_views(opening_codes@).subrange(0, i as int).contains(x),
        decreases m - i,
    {
        insert_code(&mut codes, &opening_codes[i]);
        proof {
            let o = str_views(opening_codes@);
            let w0 = o.subrange(0, i as int);
            let w1 = o.subrange(0, i + 1);
            assert(w1 =~= w0.push(opening_codes@[i as int]@));
            assert forall|x: Seq<char>| #[trigger] str_views(codes@).contains(x) <==> w1.contains(x) by {
                if w1.contains(x) {
                    let q = choose|q: int| 0 <= q < w1.len() && w1[q] == x;
                    if q < i {
                        assert(w0[q] == x);
                    }
                }
                if w0.contains(x) {
                    let q = choose|q: int| 0 <= q < w0.len() && w0[q] == x;
                    assert(w1[q] == x);
                }
                if x == opening_codes@[i as int]@ {
                    assert(w1[i as int] == x);
                }
            }
        }
        i = i + 1;
    }
    proof {
        assert(str_views(opening_codes@).subrange(0, m as int) =~= str_views(opening_codes@));
    }
    let n = rows.len();
    let mut k: usize = 0;
    while k < n
        invariant
            m == opening_codes@.len(),
            n == rows@.len(),
            k <= n,
            strictly_sorted(str_views(codes@)),
            forall|x: Seq<char>| #[trigger] str_views(codes@).contains(x) <==> (str_views(opening_codes@).contains(x)
                || row_accounts(rows@).subrange(0, k as int).contains(x)),
        decreases n - k,
    {
        insert_code(&mut codes, &rows[k].account);
        proof {
            let a = row_accounts(rows@);
            let w0 = a.subrange(0, k as int);
            let w1 = a.subrange(0, k + 1);
            assert forall|x: Seq<char>| #[trigger] str_views(codes@).contains(x) <==> (str_views(opening_codes@).contains(x)
                || w1.contains(x)) by {
                if w1.contains(x) {
                    let q = choose|q: int| 0 <= q < w1.len() && w1[q] == x;
                    if q < k {
                        assert(w0[q] == x);
                    }
                }
                if w0.contains(x) {
                    let q = choose|q: int| 0 <= q < w0.len() && w0[q] == x;
                    assert(w1[q] == x);
                }
                if x == rows@[k as int].account@ {
                    assert(w1[k as int] == x);
                }
            }
        }
        k = k + 1;
    }
    proof {
        assert(row_accounts(rows@).subrange(0, n as int) =~= row_accounts(rows@));
    }
    let movements = ledger_movements(rows);
    let mut out: Vec<LedgerGroup> = Vec::new();
    let a = codes.len();
    let mut j: usize = 0;
    while j < a
        invariant
            a == codes@.len(),
            n == rows@.len(),
            movements@.len() == n,
            forall|i: int| 0 <= i < n ==> movement_ok(#[trigger] movements@[i], rows@, i),
            j <= a,
            out@.len() == j,
            forall|h: int| 0 <= h < j ==> (#[trigger] out@[h]).account@ == codes@[h]@,
            forall|h: int| 0 <= h < j ==> (#[trigger] out@[h]).movements@.len() == spec_account_rows(rows@, out@[h].account@).len(),
            forall|h: int, t: int| 0 <= h < j && 0 <= t < out@[h].movements@.len() ==> movement_ok(
                #[trigger] out@[h].movements@[t],
                rows@,
                spec_account_rows(rows@, out@[h].account@)[t],
            ),
        decreases a - j,
    {
        let ms = account_movements(rows, &movements, &codes[j]);
        let ghost old_out = out@;
        out.push(LedgerGroup { account: codes[j].clone(), movements: ms });
        proof {
            assert forall|h: int| 0 <= h < j + 1 implies (#[trigger] out@[h]).account@ == codes@[h]@ by {
                if h < j {
                    assert(out@[h] == old_out[h]);
                }
            }
            assert forall|h: int| 0 <= h < j + 1 implies (#[trigger] out@[h]).movements@.len() == spec_account_rows(rows@, out@[h].account@).len() by {
                if h < j {
                    assert(out@[h] == old_out[h]);
                }
            }
            assert forall|h: int, t: int| 0 <= h < j + 1 && 0 <= t < out@[h].movements@.len() implies movement_ok(
                #[trigger] out@[h].movements@[t],
                rows@,
                spec_account_rows(rows@, out@[h].account@)[t],
            ) by {
                if h < j {
                    assert(out@[h] == old_out[h]);
                }
            }
        }
        j = j + 1;
    }
    proof {
        assert(group_codes(out@) =~= str_views(codes@));
    }
    out
}

} // verus!
