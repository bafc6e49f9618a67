//! Amounts summed per account, accounts kept in the order of their first occurrence.

use vstd::prelude::*;
use crate::decimal::{Dec, dec_add, spec_dec_add, lemma_spec_add, lemma_zero_val};
use crate::text::str_eq;

verus! {

/// The position of the first group with this key.
pub open spec fn find_key(g: Seq<(Seq<char>, Dec)>, key: Seq<char>) -> Option<int>
    decreases g.len(),
{
    if g.len() == 0 {
        None
    } else {
        match find_key(g.drop_last(), key) {
            Some(i) => Some(i),
            None => if g.last().0 == key { Some(g.len() - 1) } else { None },
        }
    }
}

/// Adds `v` to the group of `key`, or opens a new group at the end.
pub open spec fn spec_group_add(g: Seq<(Seq<char>, Dec)>, key: Seq<char>, v: Dec) -> Option<Seq<(Seq<char>, Dec)>> {
    match find_key(g, key) {
        Some(k) => match spec_dec_add(g[k].1, v) {
            Some(s) => Some(g.update(k, (key, s))),
            None => None,
        },
        None => Some(g.push((key, v))),
    }
}

/// The groups of a sequence of (key, amount) items.
pub open spec fn spec_groups(items: Seq<(Seq<char>, Dec)>) -> Option<Seq<(Seq<char>, Dec)>>
    decreases items.len(),
{
    if items.len() == 0 {
        Some(seq![])
    } else {
        match spec_groups(items.drop_last()) {
            Some(g) => spec_group_add(g, items.last().0, items.last().1),
            None => None,
        }
    }
}

/// Σ of the amounts (in `10^-28` units).
pub open spec fn sum_vals(g: Seq<(Seq<char>, Dec)>) -> int
    decreases g.len(),
{
    if g.len() == 0 {
        0
    } else {
        sum_vals(g.drop_last()) + g.last().1.val()
    }
}

pub open spec fn all_wf(g: Seq<(Seq<char>, Dec)>) -> bool {
    forall|i: int| 0 <= i < g.len() ==> (#[trigger] g[i]).1.wf()
}

pub proof fn lemma_find_key(g: Seq<(Seq<char>, Dec)>, key: Seq<char>)
    ensures
        find_key(g, key) matches Some(k) ==> 0 <= k < g.len() && g[k].0 == key,
        find_key(g, key) is None ==> forall|i: int| 0 <= i < g.len() ==> g[i].0 != key,
    decreases g.len(),
{
    if g.len() > 0 {
        lemma_find_key(g.drop_last(), key);
        assert forall|i: int| 0 <= i < g.len() - 1 implies g.drop_last()[i] == g[i] by {}
    }
}

proof fn lemma_sum_update(g: Seq<(Seq<char>, Dec)>, k: int, x: (Seq<char>, Dec))
    requires
        0 <= k < g.len(),
    ensures
        sum_vals(g.update(k, x)) == sum_vals(g) - g[k].1.val() + x.1.val(),
    decreases g.len(),
{
    if k < g.len() - 1 {
        assert(g.update(k, x).drop_last() =~= g.drop_last().update(k, x));
        lemma_sum_update(g.drop_last(), k, x);
    } else {
        assert(g.update(k, x).drop_last() =~= g.drop_last());
    }
}

proof fn lemma_sum_push(g: Seq<(Seq<char>, Dec)>, x: (Seq<char>, Dec))
    ensures
        sum_vals(g.push(x)) == sum_vals(g) + x.1.val(),
{
    assert(g.push(x).drop_last() =~= g);
}

/// Grouping keeps the total: Σ of the group amounts = Σ of the item amounts, and every
/// group amount is well formed.
pub proof fn lemma_groups(items: Seq<(Seq<char>, Dec)>)
    requires
        all_wf(items),
    ensures
        spec_groups(items) matches Some(g) ==> sum_vals(g) == sum_vals(items) && all_wf(g),
    decreases items.len(),
{
    if items.len() > 0 {
        let pre = items.drop_last();
        assert(all_wf(pre)) by {
            assert forall|i: int| 0 <= i < pre.len() implies (#[trigger] pre[i]).1.wf() by {
                assert(pre[i] == items[i]);
            }
        }
        lemma_groups(pre);
        assert(items.last() == items[items.len() - 1]);
        if let Some(g) = spec_groups(pre) {
            let key = items.last().0;
            let v = items.last().1;
            lemma_find_key(g, key);
            match find_key(g, key) {
                Some(k) => {
                    lemma_spec_add(g[k].1, v);
                    if let Some(s) = spec_dec_add(g[k].1, v) {
                        lemma_sum_update(g, k, (key, s));
                        let g2 = g.update(k, (key, s));
                        assert forall|i: int| 0 <= i < g2.len() implies (#[trigger] g2[i]).1.wf() by {
                            if i != k { assert(g2[i] == g[i]); }
                        }
                    }
                },
                None => {
                    lemma_sum_push(g, (key, v));
                    let g2 = g.push((key, v));
                    assert forall|i: int| 0 <= i < g2.len() implies (#[trigger] g2[i]).1.wf() by {
                        if i < g.len() { assert(g2[i] == g[i]); }
                    }
                },
            }
        }
    } else {
        lemma_zero_val(0);
    }
}

proof fn lemma_groups_none(items: Seq<(Seq<char>, Dec)>, k: int)
    requires
        0 <= k <= items.len(),
        spec_groups(items.subrange(0, k)) is None,
    ensures
        spec_groups(items) is None,
    decreases items.len() - k,
{
    if k < items.len() {
        assert(items.subrange(0, k + 1).drop_last() =~= items.subrange(0, k));
        lemma_groups_none(items, k + 1);
    } else {
        assert(items.subrange(0, k) =~= items);
    }
}

pub open spec fn pair_views(v: Seq<(String, Dec)>) -> Seq<(Seq<char>, Dec)> {
    v.map_values(|p: (String, Dec)| (p.0@, p.1))
}

/// Sums the amounts per key (see `spec_groups`); `None` when a group's sum leaves the
/// decimal range.
pub fn group_sums(items: &Vec<(String, Dec)>) -> (r: Option<Vec<(String, Dec)>>)
    requires
        all_wf(pair_views(items@)),
    ensures
        r is None <==> spec_groups(pair_views(items@)) is None,
        r matches Some(g) ==> Some(pair_views(g@)) == spec_groups(pair_views(items@)),
{
    let ghost iv = pair_views(items@);
    let mut g: Vec<(String, Dec)> = Vec::new();
    let n = items.len();
    let mut i: usize = 0;
    proof {
        assert(iv.subrange(0, 0) =~= Seq::<(Seq<char>, Dec)>::empty());
        assert(pair_views(g@) =~= Seq::<(Seq<char>, Dec)>::empty());
        lemma_groups(iv);
    }
    while i < n
        invariant
            n == items@.len(),
            iv == pair_views(items@),
            all_wf(iv),
            i <= n,
            spec_groups(iv.subrange(0, i as int)) == Some(pair_views(g@)),
        decreases n - i,
    {
        let key = &items[i].0;
        let v = items[i].1;
        let ghost gv = pair_views(g@);
        proof {
            assert(iv.subrange(0, i + 1).drop_last() =~= iv.subrange(0, i as int));
            assert(iv.subrange(0, i + 1).last() == iv[i as int]);
            assert(iv[i as int] == (key@, v));
            lemma_find_key(gv, key@);
            lemma_groups(iv.subrange(0, i as int));
            assert(all_wf(iv.subrange(0, i as int))) by {
                assert forall|j: int| 0 <= j < i implies (#[trigger] iv.subrange(0, i as int)[j]).1.wf() by {
                    assert(iv.subrange(0, i as int)[j] == iv[j]);
                }
            }
            assert(iv[i as int].1.wf());
        }
        let m = g.len();
        let mut j: usize = 0;
        while j < m
            invariant_except_break
                m == g@.len(),
                gv == pair_views(g@),
                j <= m,
                forall|t: int| 0 <= t < j ==> gv[t].0 != key@,
            ensures
                j <= m,
                forall|t: int| 0 <= t < j ==> gv[t].0 != key@,
                j < m ==> gv[j as int].0 == key@,
            decreases m - j,
        {
            if str_eq(g[j].0.as_str(), key.as_str()) {
                break;
            }
            j = j + 1;
        }
        let found = j < m;
        proof {
            lemma_find_key(gv, key@);
            if !found {
                assert(find_key(gv, key@) is None) by {
                    if let Some(k) = find_key(gv, key@) {
                        assert(gv[k].0 == key@);
                    }
                }
            }
        }
        if found {
            proof {
                // the first match is at j
                assert(gv[j as int].0 == key@);
                assert(find_key(gv, key@) == Some(j as int)) by {
                    lemma_find_first(gv, key@, j as int);
                }
                assert(all_wf(gv));
                assert(gv[j as int].1.wf());
                lemma_spec_add(gv[j as int].1, v);
            }
            let cur = g[j].1;
            let s = match dec_add(cur, v) {
                Some(x) => x,
                None => {
                    proof { lemma_groups_none(iv, i + 1); }
                    return None;
                },
            };
            let k2 = key.clone();
            g.set(j, (k2, s));
            proof {
                assert(pair_views(g@) =~= gv.update(j as int, (key@, s)));
            }
        } else {
            g.push((key.clone(), v));
            proof {
                assert(pair_views(g@) =~= gv.push((key@, v)));
            }
        }
        i = i + 1;
    }
    proof {
        assert(iv.subrange(0, n as int) =~= iv);
    }
    Some(g)
}

proof fn lemma_find_first(g: Seq<(Seq<char>, Dec)>, key: Seq<char>, j: int)
    requires
        0 <= j < g.len(),
        g[j].0 == key,
        forall|t: int| 0 <= t < j ==> g[t].0 != key,
    ensures
        find_key(g, key) == Some(j),
    decreases g.len(),
{
    if j < g.len() - 1 {
        lemma_find_first(g.drop_last(), key, j);
    } else {
        lemma_find_key(g.drop_last(), key);
        assert forall|i: int| 0 <= i < g.drop_last().len() implies g.drop_last()[i].0 != key by {
            assert(g.drop_last()[i] == g[i]);
        }
    }
}

} // verus!
