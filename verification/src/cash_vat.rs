//! Cash-accounting VAT ("TVA la încasare"): the standard-rate buckets of an invoice in bani,
//! what was collected before a payment, and the VAT that the allocation of a payment releases.

use vstd::prelude::*;
use crate::decimal::{Dec, dec_mul, spec_dec_mul, round_dp_even, spec_round_dp_even, checked_div, decimal_checked_div};
use crate::gl::VatRelease;
use crate::closing::{to_bani, spec_to_bani};
use crate::text::{str_eq, trim, spec_trim};

verus! {

/// One line of an invoice's VAT analysis, its amounts already in RON.
#[derive(Clone, Debug)]
pub struct VatLineRon {
    pub category: String,
    pub rate: Dec,
    pub base_ron: Dec,
    pub vat_ron: Dec,
}

/// The standard-rate amounts of one VAT rate, in bani; `rate_key` is the rate × 100, rounded.
#[derive(Clone, Copy, Debug, PartialEq, Eq, Structural)]
pub struct RateBucket {
    pub rate_key: i64,
    pub base_bani: i64,
    pub vat_bani: i64,
}

/// What a payment on a cash-VAT invoice is allocated against: the invoice's gross in bani,
/// its standard-rate buckets in ascending key order, and the rate of each bucket.
#[derive(Clone, Debug)]
pub struct CashVatBasis {
    pub gross_bani: i64,
    pub buckets: Vec<RateBucket>,
    pub rates: Vec<Dec>,
}

/// The category is "S" (standard rate), ignoring surrounding white space.
pub open spec fn is_standard(l: VatLineRon) -> bool {
    spec_trim(l.category@) == "S"@
}

/// The category is "AE" or "K": VAT the buyer self-assesses, never paid to the supplier.
pub open spec fn is_self_assessed(l: VatLineRon) -> bool {
    spec_trim(l.category@) == "AE"@ || spec_trim(l.category@) == "K"@
}

pub open spec fn hundred() -> Dec {
    Dec { mant: 100, scale: 0 }
}

/// The key of a rate: `rate × 100` rounded to an integer (midpoints to even), `0` when it
/// does not fit an `i64` or the product leaves the decimal range.
pub open spec fn spec_rate_key(rate: Dec) -> i64 {
    match spec_dec_mul(rate, hundred()) {
        Some(p) => {
            let q = spec_round_dp_even(p, 0);
            if i64::MIN <= q.mant <= i64::MAX && q.scale == 0 {
                q.mant as i64
            } else {
                0
            }
        },
        None => 0,
    }
}

/// What a line adds to the payable gross: its base, and its VAT unless self-assessed.
pub open spec fn line_gross(l: VatLineRon) -> int {
    spec_to_bani(l.base_ron) + if is_self_assessed(l) {
        0int
    } else {
        spec_to_bani(l.vat_ron) as int
    }
}

/// The payable gross of the lines, in bani.
pub open spec fn spec_gross(ls: Seq<VatLineRon>) -> int
    decreases ls.len(),
{
    if ls.len() == 0 {
        0
    } else {
        spec_gross(ls.drop_last()) + line_gross(ls.last())
    }
}

/// The line is a standard-rate line of the bucket `k`.
pub open spec fn in_bucket(l: VatLineRon, k: i64) -> bool {
    is_standard(l) && spec_rate_key(l.rate) == k
}

/// Some line falls in the bucket `k`.
pub open spec fn spec_has_key(ls: Seq<VatLineRon>, k: i64) -> bool
    decreases ls.len(),
{
    if ls.len() == 0 {
        false
    } else {
        spec_has_key(ls.drop_last(), k) || in_bucket(ls.last(), k)
    }
}

/// Σ of the bases (in bani) of the lines of bucket `k`.
pub open spec fn spec_key_base(ls: Seq<VatLineRon>, k: i64) -> int
    decreases ls.len(),
{
    if ls.len() == 0 {
        0
    } else {
        spec_key_base(ls.drop_last(), k) + if in_bucket(ls.last(), k) {
            spec_to_bani(ls.last().base_ron) as int
        } else {
            0int
        }
    }
}

/// Σ of the VAT amounts (in bani) of the lines of bucket `k`.
pub open spec fn spec_key_vat(ls: Seq<VatLineRon>, k: i64) -> int
    decreases ls.len(),
{
    if ls.len() == 0 {
        0
    } else {
        spec_key_vat(ls.drop_last(), k) + if in_bucket(ls.last(), k) {
            spec_to_bani(ls.last().vat_ron) as int
        } else {
            0int
        }
    }
}

/// The rate of the first line of bucket `k`.
pub open spec fn spec_first_rate(ls: Seq<VatLineRon>, k: i64) -> Dec
    decreases ls.len(),
{
    if ls.len() == 0 {
        Dec { mant: 0, scale: 0 }
    } else if spec_has_key(ls.drop_last(), k) {
        spec_first_rate(ls.drop_last(), k)
    } else if in_bucket(ls.last(), k) {
        ls.last().rate
    } else {
        Dec { mant: 0, scale: 0 }
    }
}

pub open spec fn fits_i64(v: int) -> bool {
    i64::MIN <= v <= i64::MAX
}

/// `b` holds the buckets of the lines `ls`: keys strictly ascending, one bucket for each key
/// that occurs, each with the sums and the first rate of its lines.
pub open spec fn buckets_of(b: CashVatBasis, ls: Seq<VatLineRon>) -> bool {
    &&& b.buckets@.len() == b.rates@.len()
    &&& forall|i: int, j: int|
        #![trigger b.buckets@[i], b.buckets@[j]]
        0 <= i < j < b.buckets@.len() ==> b.buckets@[i].rate_key < b.buckets@[j].rate_key
    &&& forall|i: int|
        #![trigger b.buckets@[i]]
        0 <= i < b.buckets@.len() ==> {
            let k = b.buckets@[i].rate_key;
            &&& spec_has_key(ls, k)
            &&& b.buckets@[i].base_bani == spec_key_base(ls, k)
            &&& b.buckets@[i].vat_bani == spec_key_vat(ls, k)
            &&& b.rates@[i] == spec_first_rate(ls, k)
        }
    &&& forall|k: i64|
        #![trigger spec_has_key(ls, k)]
        spec_has_key(ls, k) ==> exists|i: int|
            #![trigger b.buckets@[i]]
            0 <= i < b.buckets@.len() && b.buckets@[i].rate_key == k
}

/// Some bucket's sums leave the `i64` range.
pub open spec fn bucket_overflows(ls: Seq<VatLineRon>) -> bool {
    exists|k: i64|
        #![trigger spec_has_key(ls, k)]
        spec_has_key(ls, k) && (!fits_i64(spec_key_base(ls, k)) || !fits_i64(spec_key_vat(ls, k)))
}

pub open spec fn lines_wf(ls: Seq<VatLineRon>) -> bool {
    forall|i: int|
        #![trigger ls[i]]
        0 <= i < ls.len() ==> ls[i].rate.wf() && ls[i].base_ron.wf() && ls[i].vat_ron.wf()
}

/// `rate × 100`, rounded to an integer the way `Decimal::round` does.
fn rate_key(rate: Dec) -> (r: i64)
    requires
        rate.wf(),
    ensures
        r == spec_rate_key(rate),
{
    match dec_mul(rate, Dec { mant: 100, scale: 0 }) {
        Some(p) => {
            let q = round_dp_even(p, 0);
            if i64::MIN as i128 <= q.mant && q.mant <= i64::MAX as i128 && q.scale == 0 {
                q.mant as i64
            } else {
                0
            }
        },
        None => 0,
    }
}

/// A bucket while the lines are read: sums in a wider type.
#[derive(Clone, Copy)]
struct BucketAcc {
    key: i64,
    base: i128,
    vat: i128,
    rate: Dec,
}

spec fn acc_matches(acc: Seq<BucketAcc>, ls: Seq<VatLineRon>) -> bool {
    &&& forall|a: int, b: int|
        #![trigger acc[a], acc[b]]
        0 <= a < b < acc.len() ==> acc[a].key < acc[b].key
    &&& forall|a: int|
        #![trigger acc[a]]
        0 <= a < acc.len() ==> {
            &&& spec_has_key(ls, acc[a].key)
            &&& acc[a].base == spec_key_base(ls, acc[a].key)
            &&& acc[a].vat == spec_key_vat(ls, acc[a].key)
            &&& acc[a].rate == spec_first_rate(ls, acc[a].key)
        }
    &&& forall|k: i64|
        #![trigger spec_has_key(ls, k)]
        spec_has_key(ls, k) ==> exists|a: int| #![trigger acc[a]] 0 <= a < acc.len() && acc[a].key == k
}

pub open spec fn two63() -> int {
    0x8000_0000_0000_0000
}

spec fn acc_bounded(acc: Seq<BucketAcc>, n: int) -> bool {
    forall|a: int|
        #![trigger acc[a]]
        0 <= a < acc.len() ==> -n * two63() <= acc[a].base <= n * two63() && -n * two63()
            <= acc[a].vat <= n * two63()
}

proof fn lemma_no_key_zero(ls: Seq<VatLineRon>, k: i64)
    requires
        !spec_has_key(ls, k),
    ensures
        spec_key_base(ls, k) == 0,
        spec_key_vat(ls, k) == 0,
    decreases ls.len(),
{
    if ls.len() > 0 {
        lemma_no_key_zero(ls.drop_last(), k);
    }
}

proof fn lemma_bounded_grow(acc: Seq<BucketAcc>, n: int)
    requires
        n >= 0,
        acc_bounded(acc, n),
    ensures
        acc_bounded(acc, n + 1),
{
    assert forall|a: int| #![trigger acc[a]] 0 <= a < acc.len() implies -(n + 1) * two63() <= acc[a].base
        <= (n + 1) * two63() && -(n + 1) * two63() <= acc[a].vat <= (n + 1) * two63() by {}
}

/// A line outside every bucket changes no bucket.
proof fn lemma_acc_skip(acc: Seq<BucketAcc>, p: Seq<VatLineRon>, l: VatLineRon)
    requires
        acc_matches(acc, p),
        !is_standard(l),
    ensures
        acc_matches(acc, p.push(l)),
{
    let p2 = p.push(l);
    assert(p2.drop_last() =~= p);
    assert forall|a: int| #![trigger acc[a]] 0 <= a < acc.len() implies {
        &&& spec_has_key(p2, acc[a].key)
        &&& acc[a].base == spec_key_base(p2, acc[a].key)
        &&& acc[a].vat == spec_key_vat(p2, acc[a].key)
        &&& acc[a].rate == spec_first_rate(p2, acc[a].key)
    } by {}
    assert forall|k: i64| #![trigger spec_has_key(p2, k)] spec_has_key(p2, k) implies exists|a: int|
        #![trigger acc[a]]
        0 <= a < acc.len() && acc[a].key == k by {
        assert(spec_has_key(p, k));
    }
}

/// A line of an existing bucket adds its amounts to that bucket.
proof fn lemma_acc_step(before: Seq<BucketAcc>, after: Seq<BucketAcc>, p: Seq<VatLineRon>, l: VatLineRon, j: int)
    requires
        acc_matches(before, p),
        is_standard(l),
        0 <= j < before.len(),
        before[j].key == spec_rate_key(l.rate),
        after.len() == before.len(),
        forall|a: int| 0 <= a < before.len() && a != j ==> after[a] == before[a],
        after[j].key == before[j].key,
        after[j].base == before[j].base + spec_to_bani(l.base_ron),
        after[j].vat == before[j].vat + spec_to_bani(l.vat_ron),
        after[j].rate == before[j].rate,
    ensures
        acc_matches(after, p.push(l)),
{
    let p2 = p.push(l);
    let k = before[j].key;
    assert(p2.drop_last() =~= p);
    assert forall|a: int, b: int| #![trigger after[a], after[b]] 0 <= a < b < after.len() implies after[a].key
        < after[b].key by {
        assert(before[a].key < before[b].key);
    }
    assert forall|a: int| #![trigger after[a]] 0 <= a < after.len() implies {
        &&& spec_has_key(p2, after[a].key)
        &&& after[a].base == spec_key_base(p2, after[a].key)
        &&& after[a].vat == spec_key_vat(p2, after[a].key)
        &&& after[a].rate == spec_first_rate(p2, after[a].key)
    } by {
        if a != j {
            assert(after[a] == before[a]);
            if a < j {
                assert(before[a].key < before[j].key);
            } else {
                assert(before[j].key < before[a].key);
            }
        } else {
            assert(spec_has_key(p, k));
        }
    }
    assert forall|k2: i64| #![trigger spec_has_key(p2, k2)] spec_has_key(p2, k2) implies exists|a: int|
        #![trigger after[a]]
        0 <= a < after.len() && after[a].key == k2 by {
        if k2 == k {
            assert(after[j].key == k2);
        } else {
            assert(spec_has_key(p, k2));
            let a = choose|a: int| #![trigger before[a]] 0 <= a < before.len() && before[a].key == k2;
            if a == j {
            } else {
                assert(after[a] == before[a]);
            }
        }
    }
}

/// A line of a new bucket opens it at its place in the key order.
proof fn lemma_acc_insert(before: Seq<BucketAcc>, after: Seq<BucketAcc>, p: Seq<VatLineRon>, l: VatLineRon, j: int)
    requires
        acc_matches(before, p),
        is_standard(l),
        0 <= j <= before.len(),
        forall|a: int| 0 <= a < j ==> (#[trigger] before[a]).key < spec_rate_key(l.rate),
        j < before.len() ==> before[j].key > spec_rate_key(l.rate),
        !spec_has_key(p, spec_rate_key(l.rate)),
        spec_key_base(p, spec_rate_key(l.rate)) == 0,
        spec_key_vat(p, spec_rate_key(l.rate)) == 0,
        after == before.insert(
            j,
            BucketAcc {
                key: spec_rate_key(l.rate),
                base: spec_to_bani(l.base_ron) as i128,
                vat: spec_to_bani(l.vat_ron) as i128,
                rate: l.rate,
            },
        ),
    ensures
        acc_matches(after, p.push(l)),
{
    let p2 = p.push(l);
    let k = spec_rate_key(l.rate);
    assert(p2.drop_last() =~= p);
    assert forall|a: int| #![trigger after[a]] 0 <= a < after.len() implies (a < j ==> after[a] == before[a])
        && (a > j ==> after[a] == before[a - 1]) && (a == j ==> after[a].key == k) by {}
    assert forall|a: int, b: int| #![trigger after[a], after[b]] 0 <= a < b < after.len() implies after[a].key
        < after[b].key by {
        if b < j {
            assert(before[a].key < before[b].key);
        } else if b == j {
            assert(before[a].key < k);
        } else if a < j {
            assert(before[a].key < k);
            assert(before[j].key > k);
            if b - 1 > j {
                assert(before[j].key < before[b - 1].key);
            }
        } else if a == j {
            assert(before[j].key > k);
            if b - 1 > j {
                assert(before[j].key < before[b - 1].key);
            }
        } else {
            assert(before[a - 1].key < before[b - 1].key);
        }
    }
    assert forall|a: int| #![trigger after[a]] 0 <= a < after.len() implies {
        &&& spec_has_key(p2, after[a].key)
        &&& after[a].base == spec_key_base(p2, after[a].key)
        &&& after[a].vat == spec_key_vat(p2, after[a].key)
        &&& after[a].rate == spec_first_rate(p2, after[a].key)
    } by {
        if a < j {
            assert(before[a].key < k);
        } else if a > j {
            assert(before[a - 1].key > k) by {
                assert(before[j].key > k);
                if a - 1 > j {
                    assert(before[j].key < before[a - 1].key);
                }
            }
        }
    }
    assert forall|k2: i64| #![trigger spec_has_key(p2, k2)] spec_has_key(p2, k2) implies exists|a: int|
        #![trigger after[a]]
        0 <= a < after.len() && after[a].key == k2 by {
        if k2 == k {
            assert(after[j].key == k2);
        } else {
            assert(spec_has_key(p, k2));
            let a = choose|a: int| #![trigger before[a]] 0 <= a < before.len() && before[a].key == k2;
            if a < j {
                assert(after[a] == before[a]);
            } else {
                assert(after[a + 1] == before[a]);
            }
        }
    }
}

/// Reads the lines of a cash-VAT invoice into its payable gross and its standard-rate
/// buckets. `None` when the gross or a bucket's sum leaves the `i64` range.
pub fn cash_vat_basis(lines: &Vec<VatLineRon>) -> (r: Option<CashVatBasis>)
    requires
        lines@.len() < 0x4000_0000_0000_0000,
        lines_wf(lines@),
    ensures
        r is None <==> !fits_i64(spec_gross(lines@)) || bucket_overflows(lines@),
        r matches Some(b) ==> b.gross_bani == spec_gross(lines@) && buckets_of(b, lines@),
{
    let n = lines.len();
    let mut gross: i128 = 0;
    let mut acc: Vec<BucketAcc> = Vec::new();
    let mut i: usize = 0;
    while i < n
        invariant
            n == lines@.len(),
            n < 0x4000_0000_0000_0000,
            lines_wf(lines@),
            0 <= i <= n,
            gross == spec_gross(lines@.take(i as int)),
            -2 * i * two63() <= gross <= 2 * i * two63(),
            acc_matches(acc@, lines@.take(i as int)),
            acc_bounded(acc@, i as int),
        decreases n - i,
    {
        let ghost p = lines@.take(i as int);
        let ghost p2 = lines@.take(i + 1);
        let l = &lines[i];
        proof {
            assert(p2 =~= p.push(*l));
            assert(p2.drop_last() =~= p);
            assert(l.rate.wf() && l.base_ron.wf() && l.vat_ron.wf());
            lemma_bounded_grow(acc@, i as int);
        }
        let bb = to_bani(l.base_ron);
        let vb = to_bani(l.vat_ron);
        let cat = trim(l.category.as_str());
        let self_assessed = str_eq(cat, "AE") || str_eq(cat, "K");
        gross = gross + bb as i128;
        if !self_assessed {
            gross = gross + vb as i128;
        }
        proof {
            assert(is_self_assessed(*l) == self_assessed);
            assert(gross == spec_gross(p2));
        }
        if str_eq(cat, "S") {
            let k = rate_key(l.rate);
            let mut j: usize = 0;
            while j < acc.len() && acc[j].key < k
                invariant
                    j <= acc@.len(),
                    forall|a: int| 0 <= a < j ==> (#[trigger] acc@[a]).key < k,
                decreases acc@.len() - j,
            {
                j = j + 1;
            }
            let ghost before = acc@;
            if j < acc.len() && acc[j].key == k {
                let old_b = acc[j];
                let nb = BucketAcc {
                    key: k,
                    base: old_b.base + bb as i128,
                    vat: old_b.vat + vb as i128,
                    rate: old_b.rate,
                };
                acc.set(j, nb);
                proof {
                    lemma_acc_step(before, acc@, p, *l, j as int);
                    assert forall|a: int| #![trigger acc@[a]] 0 <= a < acc@.len() implies -(i + 1)
                        * two63() <= acc@[a].base <= (i + 1) * two63() && -(i + 1) * two63()
                        <= acc@[a].vat <= (i + 1) * two63() by {
                        if a != j {
                            assert(acc@[a] == before[a]);
                        }
                    }
                }
            } else {
                proof {
                    assert(j < before.len() ==> before[j as int].key > k);
                    assert(!spec_has_key(p, k)) by {
                        if spec_has_key(p, k) {
                            let a = choose|a: int| #![trigger before[a]] 0 <= a < before.len() && before[a].key == k;
                            if a > j {
                                assert(before[j as int].key < before[a].key);
                            }
                        }
                    }
                    lemma_no_key_zero(p, k);
                }
                let nb = BucketAcc { key: k, base: bb as i128, vat: vb as i128, rate: l.rate };
                acc.insert(j, nb);
                proof {
                    lemma_acc_insert(before, acc@, p, *l, j as int);
                    assert forall|a: int| #![trigger acc@[a]] 0 <= a < acc@.len() implies -(i + 1)
                        * two63() <= acc@[a].base <= (i + 1) * two63() && -(i + 1) * two63()
                        <= acc@[a].vat <= (i + 1) * two63() by {
                        if a < j {
                            assert(acc@[a] == before[a]);
                        } else if a > j {
                            assert(acc@[a] == before[a - 1]);
                        }
                    }
                }
            }
        } else {
            proof {
                lemma_acc_skip(acc@, p, *l);
            }
        }
        i = i + 1;
    }
    proof {
        assert(lines@.take(n as int) =~= lines@);
    }
    if gross < i64::MIN as i128 || gross > i64::MAX as i128 {
        return None;
    }
    let mut buckets: Vec<RateBucket> = Vec::new();
    let mut rates: Vec<Dec> = Vec::new();
    let mut a: usize = 0;
    while a < acc.len()
        invariant
            acc_matches(acc@, lines@),
            a <= acc@.len(),
            buckets@.len() == a,
            rates@.len() == a,
            forall|x: int|
                #![trigger buckets@[x]]
                0 <= x < a ==> buckets@[x].rate_key == acc@[x].key && buckets@[x].base_bani
                    == acc@[x].base && buckets@[x].vat_bani == acc@[x].vat && rates@[x]
                    == acc@[x].rate,
            forall|x: int|
                #![trigger acc@[x]]
                0 <= x < a ==> fits_i64(acc@[x].base as int) && fits_i64(acc@[x].vat as int),
        decreases acc@.len() - a,
    {
        let e = acc[a];
        if e.base < i64::MIN as i128 || e.base > i64::MAX as i128 || e.vat < i64::MIN as i128
            || e.vat > i64::MAX as i128 {
            proof {
                assert(acc@[a as int] == e);
                assert(spec_has_key(lines@, e.key));
                assert(bucket_overflows(lines@));
            }
            return None;
        }
        buckets.push(RateBucket { rate_key: e.key, base_bani: e.base as i64, vat_bani: e.vat as i64 });
        rates.push(e.rate);
        proof {
            assert(acc@[a as int] == e);
            assert forall|x: int| #![trigger buckets@[x]] 0 <= x < a + 1 implies buckets@[x].rate_key
                == acc@[x].key && buckets@[x].base_bani == acc@[x].base && buckets@[x].vat_bani
                == acc@[x].vat && rates@[x] == acc@[x].rate by {}
        }
        a = a + 1;
    }
    let b = CashVatBasis { gross_bani: gross as i64, buckets, rates };
    proof {
        assert(!bucket_overflows(lines@)) by {
            if bucket_overflows(lines@) {
                let k = choose|k: i64|
                    #![trigger spec_has_key(lines@, k)]
                    spec_has_key(lines@, k) && (!fits_i64(spec_key_base(lines@, k)) || !fits_i64(
                        spec_key_vat(lines@, k),
                    ));
                let x = choose|x: int| #![trigger acc@[x]] 0 <= x < acc@.len() && acc@[x].key == k;
                assert(fits_i64(acc@[x].base as int));
            }
        }
        assert forall|k: i64| spec_has_key(lines@, k) implies exists|i: int|
            #![trigger b.buckets@[i]]
            0 <= i < b.buckets@.len() && b.buckets@[i].rate_key == k by {
            let x = choose|x: int| #![trigger acc@[x]] 0 <= x < acc@.len() && acc@[x].key == k;
            assert(b.buckets@[x].rate_key == k);
        }
        assert forall|i: int, j: int|
            #![trigger b.buckets@[i], b.buckets@[j]]
            0 <= i < j < b.buckets@.len() implies b.buckets@[i].rate_key < b.buckets@[j].rate_key by {
            assert(acc@[i].key < acc@[j].key);
        }
        assert forall|i: int| #![trigger b.buckets@[i]] 0 <= i < b.buckets@.len() implies {
            let k = b.buckets@[i].rate_key;
            &&& spec_has_key(lines@, k)
            &&& b.buckets@[i].base_bani == spec_key_base(lines@, k)
            &&& b.buckets@[i].vat_bani == spec_key_vat(lines@, k)
            &&& b.rates@[i] == spec_first_rate(lines@, k)
        } by {
            assert(acc@[i].key == b.buckets@[i].rate_key);
        }
    }
    Some(b)
}

impl CashVatBasis {
    /// A payment releases VAT only when the invoice has standard-rate lines and a positive
    /// payable gross.
    pub fn has_release_basis(&self) -> (r: bool)
        ensures
            r == (self.buckets@.len() > 0 && self.gross_bani > 0),
    {
        self.buckets.len() > 0 && self.gross_bani > 0
    }
}

/// Σ of the positive bani amounts of the payments made before this one.
pub open spec fn spec_paid_before(amounts: Seq<Dec>) -> int
    decreases amounts.len(),
{
    if amounts.len() == 0 {
        0
    } else {
        spec_paid_before(amounts.drop_last()) + if spec_to_bani(amounts.last()) > 0 {
            spec_to_bani(amounts.last()) as int
        } else {
            0int
        }
    }
}

/// What was collected on the invoice before a payment, in bani: each earlier payment (in
/// RON) rounded to bani on its own, non-positive ones left out. `None` when the sum leaves
/// the `i64` range.
pub fn paid_before_bani(amounts_ron: &Vec<Dec>) -> (r: Option<i64>)
    requires
        forall|i: int| 0 <= i < amounts_ron@.len() ==> (#[trigger] amounts_ron@[i]).wf(),
    ensures
        r is None <==> spec_paid_before(amounts_ron@) > i64::MAX,
        r matches Some(v) ==> v == spec_paid_before(amounts_ron@),
{
    let n = amounts_ron.len();
    let mut sum: i128 = 0;
    let mut i: usize = 0;
    while i < n
        invariant
            n == amounts_ron@.len(),
            forall|k: int| 0 <= k < amounts_ron@.len() ==> (#[trigger] amounts_ron@[k]).wf(),
            0 <= i <= n,
            sum == spec_paid_before(amounts_ron@.take(i as int)),
            0 <= sum <= i * two63(),
        decreases n - i,
    {
        proof {
            assert(amounts_ron@.take(i + 1).drop_last() =~= amounts_ron@.take(i as int));
            assert(amounts_ron@[i as int].wf());
        }
        let b = to_bani(amounts_ron[i]);
        if b > 0 {
            sum = sum + b as i128;
        }
        i = i + 1;
    }
    proof {
        assert(amounts_ron@.take(n as int) =~= amounts_ron@);
    }
    if sum > i64::MAX as i128 {
        None
    } else {
        Some(sum as i64)
    }
}

/// The rate of the first bucket with key `k`, zero when there is none.
pub open spec fn spec_rate_of(bs: Seq<RateBucket>, rs: Seq<Dec>, k: i64) -> Dec
    decreases bs.len(),
{
    if bs.len() == 0 {
        Dec { mant: 0, scale: 0 }
    } else if bs[0].rate_key == k {
        rs[0]
    } else {
        spec_rate_of(bs.subrange(1, bs.len() as int), rs.subrange(1, rs.len() as int), k)
    }
}

/// The VAT released by an allocation, per rate: buckets with a zero VAT share are left out,
/// each other share is `vat_bani / 100` (the named `Decimal` quotient) at the rate of its
/// key. `None` when a quotient fails.
pub open spec fn spec_released(alloc: Seq<RateBucket>, bs: Seq<RateBucket>, rs: Seq<Dec>) -> Option<Seq<VatRelease>>
    decreases alloc.len(),
{
    if alloc.len() == 0 {
        Some(seq![])
    } else {
        match spec_released(alloc.drop_last(), bs, rs) {
            None => None,
            Some(prev) => {
                let rb = alloc.last();
                if rb.vat_bani == 0 {
                    Some(prev)
                } else {
                    match decimal_checked_div(rb.vat_bani as i128, 0, 100, 0) {
                        Some((m, sc)) => Some(prev.push(VatRelease { rate: spec_rate_of(bs, rs, rb.rate_key), vat: Dec { mant: m, scale: sc } })),
                        None => None,
                    }
                }
            },
        }
    }
}

/// The rate of the bucket with key `k`.
fn rate_of(basis: &CashVatBasis, k: i64) -> (r: Dec)
    requires
        basis.buckets@.len() == basis.rates@.len(),
    ensures
        r == spec_rate_of(basis.buckets@, basis.rates@, k),
{
    let n = basis.buckets.len();
    let mut i: usize = 0;
    proof {
        assert(basis.buckets@.subrange(0, n as int) =~= basis.buckets@);
        assert(basis.rates@.subrange(0, n as int) =~= basis.rates@);
    }
    while i < n
        invariant
            n == basis.buckets@.len(),
            n == basis.rates@.len(),
            0 <= i <= n,
            spec_rate_of(basis.buckets@, basis.rates@, k) == spec_rate_of(
                basis.buckets@.subrange(i as int, n as int),
                basis.rates@.subrange(i as int, n as int),
                k,
            ),
        decreases n - i,
    {
        let ghost bs = basis.buckets@.subrange(i as int, n as int);
        let ghost rs = basis.rates@.subrange(i as int, n as int);
        proof {
            assert(bs[0] == basis.buckets@[i as int]);
            assert(rs[0] == basis.rates@[i as int]);
            assert(bs.subrange(1, bs.len() as int) =~= basis.buckets@.subrange(i + 1, n as int));
            assert(rs.subrange(1, rs.len() as int) =~= basis.rates@.subrange(i + 1, n as int));
        }
        if basis.buckets[i].rate_key == k {
            return basis.rates[i];
        }
        i = i + 1;
    }
    proof {
        assert(basis.buckets@.subrange(n as int, n as int).len() == 0);
    }
    Dec::zero()
}

/// The VAT that an allocation of a payment releases, per rate (see `spec_released`).
pub fn released_vat(alloc: &Vec<RateBucket>, basis: &CashVatBasis) -> (r: Option<Vec<VatRelease>>)
    requires
        basis.buckets@.len() == basis.rates@.len(),
    ensures
        r is None <==> spec_released(alloc@, basis.buckets@, basis.rates@) is None,
        r matches Some(v) ==> Some(v@) == spec_released(alloc@, basis.buckets@, basis.rates@)
            && forall|k: int| 0 <= k < v@.len() ==> (#[trigger] v@[k]).vat.wf(),
{
    let n = alloc.len();
    let mut out: Vec<VatRelease> = Vec::new();
    let mut i: usize = 0;
    while i < n
        invariant
            n == alloc@.len(),
            basis.buckets@.len() == basis.rates@.len(),
            0 <= i <= n,
            spec_released(alloc@.take(i as int), basis.buckets@, basis.rates@) == Some(out@),
            forall|k: int| 0 <= k < out@.len() ==> (#[trigger] out@[k]).vat.wf(),
        decreases n - i,
    {
        let ghost pre = alloc@.take(i as int);
        proof {
            assert(alloc@.take(i + 1).drop_last() =~= pre);
            assert(alloc@.take(i + 1).last() == alloc@[i as int]);
        }
        let rb = alloc[i];
        if rb.vat_bani != 0 {
            let q = checked_div(Dec { mant: rb.vat_bani as i128, scale: 0 }, Dec { mant: 100, scale: 0 });
            match q {
                Some(v) => {
                    let rate = rate_of(basis, rb.rate_key);
                    out.push(VatRelease { rate, vat: v });
                },
                None => {
                    proof {
                        assert(spec_released(alloc@.take(i + 1), basis.buckets@, basis.rates@) is None);
                        lemma_released_none(alloc@, basis.buckets@, basis.rates@, i + 1);
                        assert(alloc@.take(n as int) =~= alloc@);
                    }
                    return None;
                },
            }
        }
        i = i + 1;
    }
    proof {
        assert(alloc@.take(n as int) =~= alloc@);
    }
    Some(out)
}

/// Once the release of a prefix fails, the release of every longer prefix fails.
proof fn lemma_released_none(alloc: Seq<RateBucket>, bs: Seq<RateBucket>, rs: Seq<Dec>, m: int)
    requires
        0 <= m <= alloc.len(),
        spec_released(alloc.take(m), bs, rs) is None,
    ensures
        spec_released(alloc.take(alloc.len() as int), bs, rs) is None,
    decreases alloc.len() - m,
{
    if m < alloc.len() {
        assert(alloc.take(m + 1).drop_last() =~= alloc.take(m));
        lemma_released_none(alloc, bs, rs, m + 1);
    }
}

/// The base (`vat` false) or VAT amount of a line, in bani.
pub open spec fn line_bani(l: VatLineRon, vat: bool) -> int {
    if vat { spec_to_bani(l.vat_ron) as int } else { spec_to_bani(l.base_ron) as int }
}

/// Σ over the standard-rate lines of their base (or VAT) in bani.
pub open spec fn std_sum(ls: Seq<VatLineRon>, vat: bool) -> int
    decreases ls.len(),
{
    if ls.len() == 0 {
        0
    } else {
        std_sum(ls.drop_last(), vat) + if is_standard(ls.last()) { line_bani(ls.last(), vat) } else { 0int }
    }
}

/// Σ over the buckets of their base (or VAT) in bani.
pub open spec fn bucket_sum(bs: Seq<RateBucket>, vat: bool) -> int
    decreases bs.len(),
{
    if bs.len() == 0 {
        0
    } else {
        bucket_sum(bs.drop_last(), vat) + if vat { bs.last().vat_bani as int } else { bs.last().base_bani as int }
    }
}

spec fn key_sum(ls: Seq<VatLineRon>, k: i64, vat: bool) -> int {
    if vat { spec_key_vat(ls, k) } else { spec_key_base(ls, k) }
}

spec fn keys_sum(ls: Seq<VatLineRon>, ks: Seq<i64>, vat: bool) -> int
    decreases ks.len(),
{
    if ks.len() == 0 { 0 } else { keys_sum(ls, ks.drop_last(), vat) + key_sum(ls, ks.last(), vat) }
}

spec fn count_of(ks: Seq<i64>, x: i64) -> int
    decreases ks.len(),
{
    if ks.len() == 0 { 0 } else { count_of(ks.drop_last(), x) + if ks.last() == x { 1int } else { 0int } }
}

proof fn lemma_keys_sum_empty(ks: Seq<i64>, vat: bool)
    ensures
        keys_sum(Seq::empty(), ks, vat) == 0,
    decreases ks.len(),
{
    if ks.len() > 0 {
        lemma_keys_sum_empty(ks.drop_last(), vat);
    }
}

proof fn lemma_keys_sum_push(p: Seq<VatLineRon>, l: VatLineRon, ks: Seq<i64>, vat: bool)
    ensures
        keys_sum(p.push(l), ks, vat) == keys_sum(p, ks, vat) + if is_standard(l) {
            count_of(ks, spec_rate_key(l.rate)) * line_bani(l, vat)
        } else {
            0int
        },
    decreases ks.len(),
{
    assert(p.push(l).drop_last() =~= p);
    if ks.len() > 0 {
        lemma_keys_sum_push(p, l, ks.drop_last(), vat);
        let c = count_of(ks.drop_last(), spec_rate_key(l.rate));
        let b = line_bani(l, vat);
        assert((c + 1) * b == c * b + b) by (nonlinear_arith);
    }
}

proof fn lemma_count_distinct(ks: Seq<i64>, x: i64)
    requires
        forall|i: int, j: int| 0 <= i < j < ks.len() ==> ks[i] != ks[j],
    ensures
        count_of(ks, x) == if ks.contains(x) { 1int } else { 0int },
    decreases ks.len(),
{
    if ks.len() > 0 {
        let pre = ks.drop_last();
        assert forall|i: int, j: int| 0 <= i < j < pre.len() implies pre[i] != pre[j] by {
            assert(pre[i] == ks[i] && pre[j] == ks[j]);
        }
        lemma_count_distinct(pre, x);
        if ks.last() == x {
            assert(!pre.contains(x)) by {
                if pre.contains(x) {
                    let i = choose|i: int| 0 <= i < pre.len() && pre[i] == x;
                    assert(ks[i] == x && ks[ks.len() - 1] == x);
                }
            }
            assert(ks.contains(x)) by { assert(ks[ks.len() - 1] == x); }
        } else {
            assert(pre.contains(x) == ks.contains(x)) by {
                if ks.contains(x) {
                    let i = choose|i: int| 0 <= i < ks.len() && ks[i] == x;
                    assert(i < ks.len() - 1);
                    assert(pre[i] == x);
                }
                if pre.contains(x) {
                    let i = choose|i: int| 0 <= i < pre.len() && pre[i] == x;
                    assert(ks[i] == x);
                }
            }
        }
    }
}

proof fn lemma_keys_sum_total(ls: Seq<VatLineRon>, ks: Seq<i64>, vat: bool)
    requires
        forall|i: int, j: int| 0 <= i < j < ks.len() ==> ks[i] != ks[j],
        forall|k: i64| spec_has_key(ls, k) ==> ks.contains(k),
    ensures
        keys_sum(ls, ks, vat) == std_sum(ls, vat),
    decreases ls.len(),
{
    if ls.len() == 0 {
        assert(ls =~= Seq::<VatLineRon>::empty());
        lemma_keys_sum_empty(ks, vat);
    } else {
        let p = ls.drop_last();
        let l = ls.last();
        assert(p.push(l) =~= ls);
        assert forall|k: i64| spec_has_key(p, k) implies ks.contains(k) by {
            assert(spec_has_key(ls, k));
        }
        lemma_keys_sum_total(p, ks, vat);
        lemma_keys_sum_push(p, l, ks, vat);
        if is_standard(l) {
            let k = spec_rate_key(l.rate);
            assert(spec_has_key(ls, k));
            lemma_count_distinct(ks, k);
        }
    }
}

proof fn lemma_bucket_sum_keys(bs: Seq<RateBucket>, ls: Seq<VatLineRon>, vat: bool)
    requires
        forall|i: int| 0 <= i < bs.len() ==> (#[trigger] bs[i]).base_bani == spec_key_base(ls, bs[i].rate_key)
            && bs[i].vat_bani == spec_key_vat(ls, bs[i].rate_key),
    ensures
        bucket_sum(bs, vat) == keys_sum(ls, bs.map_values(|b: RateBucket| b.rate_key), vat),
    decreases bs.len(),
{
    if bs.len() > 0 {
        let pre = bs.drop_last();
        assert forall|i: int| 0 <= i < pre.len() implies (#[trigger] pre[i]).base_bani == spec_key_base(ls, pre[i].rate_key)
            && pre[i].vat_bani == spec_key_vat(ls, pre[i].rate_key) by {
            assert(pre[i] == bs[i]);
        }
        lemma_bucket_sum_keys(pre, ls, vat);
        assert(bs.map_values(|b: RateBucket| b.rate_key).drop_last() =~= pre.map_values(|b: RateBucket| b.rate_key));
        assert(bs[bs.len() - 1] == bs.last());
    }
}

/// Bucketing keeps the standard-rate totals: Σ of the buckets' bases (and of their VAT)
/// equals Σ of the bases (and VAT) of the standard-rate lines.
pub proof fn lemma_buckets_keep_totals(b: CashVatBasis, ls: Seq<VatLineRon>)
    requires
        buckets_of(b, ls),
    ensures
        bucket_sum(b.buckets@, false) == std_sum(ls, false),
        bucket_sum(b.buckets@, true) == std_sum(ls, true),
{
    let bs = b.buckets@;
    let ks = bs.map_values(|x: RateBucket| x.rate_key);
    assert forall|i: int| 0 <= i < bs.len() implies (#[trigger] bs[i]).base_bani == spec_key_base(ls, bs[i].rate_key)
        && bs[i].vat_bani == spec_key_vat(ls, bs[i].rate_key) by {}
    assert forall|i: int, j: int| 0 <= i < j < ks.len() implies ks[i] != ks[j] by {
        assert(bs[i].rate_key < bs[j].rate_key);
    }
    assert forall|k: i64| spec_has_key(ls, k) implies ks.contains(k) by {
        let i = choose|i: int| #![trigger bs[i]] 0 <= i < bs.len() && bs[i].rate_key == k;
        assert(ks[i] == k);
    }
    lemma_bucket_sum_keys(bs, ls, false);
    lemma_bucket_sum_keys(bs, ls, true);
    lemma_keys_sum_total(ls, ks, false);
    lemma_keys_sum_total(ls, ks, true);
}

} // verus!
