//! Language statistics: per-language percentages held in hundredths of a
//! percent, derived exactly from the byte counts, and the threshold
//! collapsing of small languages into an "Other" bucket.

use vstd::prelude::*;
use vstd::string::*;
use vstd::arithmetic::div_mod::{lemma_fundamental_div_mod, lemma_mod_bound};
use crate::aggregate::{
    Counts, counts_wf, keys_unique, has_key, sum_values, find_key,
    lemma_sum_values_element, lemma_sum_values_nonneg, lemma_sum_values_push,
    lemma_sum_values_update, lemma_val_of_update, lemma_sum_take_monotone,
};

verus! {

/// A language -> percentage map. A value is a percentage in hundredths of
/// a percent: `7500` stands for `75.00` percent.
pub struct Stats {
    pub entries: Vec<(String, u64)>,
}

/// The fixed-point percentage of `bytes` out of `total`, in hundredths of
/// a percent, rounded toward zero.
pub open spec fn spec_pct(bytes: int, total: int) -> int {
    bytes * 10000 / total
}

/// The sum of the fixed-point percentages of an entry list.
pub open spec fn sum_pcts(s: Seq<(String, u64)>, total: int) -> int
    decreases s.len(),
{
    if s.len() == 0 {
        0
    } else {
        sum_pcts(s.drop_last(), total) + spec_pct(s.last().1 as int, total)
    }
}

proof fn lemma_pct_sum_scaled(s: Seq<(String, u64)>, total: int)
    requires
        total > 0,
    ensures
        total * sum_pcts(s, total) <= 10000 * sum_values(s),
        total * sum_pcts(s, total) >= 10000 * sum_values(s) - s.len() * total,
    decreases s.len(),
{
    if s.len() == 0 {
        assert(total * 0 == 0) by (nonlinear_arith);
        assert(s.len() * total == 0);
    } else {
        let dl = s.drop_last();
        let v = s.last().1 as int;
        let q = spec_pct(v, total);
        let s0 = sum_pcts(dl, total);
        lemma_pct_sum_scaled(dl, total);
        lemma_fundamental_div_mod(v * 10000, total);
        lemma_mod_bound(v * 10000, total);
        assert(v * 10000 == 10000 * v) by (nonlinear_arith);
        assert((v * 10000) / total == q);
        let r = (v * 10000) % total;
        assert(total * q == 10000 * v - r);
        assert(total * (s0 + q) == total * s0 + total * q) by (nonlinear_arith);
        assert((dl.len() + 1) * total == dl.len() * total + total) by (nonlinear_arith);
        assert(sum_pcts(s, total) == s0 + q);
        assert(sum_values(s) == sum_values(dl) + v);
        assert(10000 * (sum_values(dl) + v) == 10000 * sum_values(dl) + 10000 * v);
        assert(s.len() == dl.len() + 1);
    }
}

/// For every aggregation with a nonzero total and no collapsing, the
/// fixed-point percentages sum to at most exactly one hundred percent and
/// miss it by less than one hundredth of a percent per language; the
/// underlying rational percentages `100 * bytes / total` sum to exactly
/// one hundred, because the grand total equals the sum of the
/// per-language byte sums.
pub proof fn lemma_percentages_sum_to_whole(s: Seq<(String, u64)>, total: int)
    requires
        total > 0,
        sum_values(s) == total,
    ensures
        sum_pcts(s, total) <= 10000,
        sum_pcts(s, total) >= 10000 - s.len(),
{
    lemma_pct_sum_scaled(s, total);
    let sp = sum_pcts(s, total);
    let n = s.len() as int;
    assert(total * sp <= 10000 * total);
    assert(total * sp >= 10000 * total - n * total);
    assert(sp <= 10000) by (nonlinear_arith)
        requires
            total > 0,
            total * sp <= 10000 * total,
    ;
    assert(sp >= 10000 - n) by (nonlinear_arith)
        requires
            total > 0,
            total * sp >= 10000 * total - n * total,
    ;
}

/// Turns byte counts into fixed-point percentages of the grand total,
/// entry for entry. A zero total yields an empty map: there is never a
/// division by zero.
pub fn to_percentages(c: &Counts) -> (r: Stats)
    requires
        counts_wf(*c),
    ensures
        c.total == 0 ==> r.entries@.len() == 0,
        c.total > 0 ==> r.entries@.len() == c.entries@.len(),
        c.total > 0 ==> forall|j: int|
            0 <= j < c.entries@.len() ==> r.entries@[j].0@ == c.entries@[j].0@
                && r.entries@[j].1 == spec_pct(c.entries@[j].1 as int, c.total as int),
        keys_unique(r.entries@),
        forall|j: int| 0 <= j < r.entries@.len() ==> r.entries@[j].1 <= 10000,
        c.total > 0 ==> sum_values(r.entries@) == sum_pcts(c.entries@, c.total as int),
{
    let mut out: Vec<(String, u64)> = Vec::new();
    if c.total == 0 {
        return Stats { entries: out };
    }
    let t = c.total;
    let mut i: usize = 0;
    while i < c.entries.len()
        invariant
            counts_wf(*c),
            t == c.total,
            t > 0,
            i <= c.entries@.len(),
            out@.len() == i,
            forall|j: int|
                0 <= j < i ==> out@[j].0@ == c.entries@[j].0@ && out@[j].1 == spec_pct(
                    c.entries@[j].1 as int,
                    t as int,
                ),
            forall|j: int| 0 <= j < i ==> out@[j].1 <= 10000,
            sum_values(out@) == sum_pcts(c.entries@.take(i as int), t as int),
        decreases c.entries@.len() - i,
    {
        let key = c.entries[i].0.clone();
        let b = c.entries[i].1;
        proof {
            lemma_sum_values_element(c.entries@, i as int);
            assert(b <= t);
        }
        let q128: u128 = (b as u128) * 10000 / (t as u128);
        proof {
            let bi = b as int;
            let ti = t as int;
            lemma_fundamental_div_mod(bi * 10000, ti);
            lemma_mod_bound(bi * 10000, ti);
            let q = spec_pct(bi, ti);
            assert(bi * 10000 == 10000 * bi) by (nonlinear_arith);
            assert(ti * q == 10000 * bi - (bi * 10000) % ti);
            assert(10000 * bi <= 10000 * ti);
            assert(ti * q <= 10000 * ti);
            vstd::arithmetic::div_mod::lemma_div_pos_is_pos(bi * 10000, ti);
            assert(q >= 0);
            assert(q <= 10000) by (nonlinear_arith)
                requires
                    ti > 0,
                    ti * q <= 10000 * ti,
            ;
            assert(q128 == q);
        }
        let pct: u64 = q128 as u64;
        let ghost o0 = out@;
        out.push((key, pct));
        proof {
            let p = out@[o0.len() as int];
            assert(out@ == o0.push(p));
            lemma_sum_values_push(o0, p);
            assert(c.entries@.take(i as int + 1).drop_last() =~= c.entries@.take(i as int));
            assert(c.entries@.take(i as int + 1).last() == c.entries@[i as int]);
        }
        i += 1;
    }
    proof {
        assert(c.entries@.take(c.entries@.len() as int) =~= c.entries@);
        assert(keys_unique(out@)) by {
            assert(forall|a: int, b2: int|
                0 <= a < b2 < out@.len() ==> out@[a].0@ == c.entries@[a].0@ && out@[b2].0@
                    == c.entries@[b2].0@);
        }
    }
    Stats { entries: out }
}

/// What threshold collapsing keeps: the entries at or above the threshold,
/// in their original order.
pub open spec fn spec_keep(s: Seq<(String, u64)>, thr: u64) -> Seq<(String, u64)>
    decreases s.len(),
{
    if s.len() == 0 {
        Seq::empty()
    } else {
        let p = spec_keep(s.drop_last(), thr);
        if s.last().1 >= thr {
            p.push(s.last())
        } else {
            p
        }
    }
}

/// The percentage mass of the entries strictly below the threshold.
pub open spec fn spec_small_sum(s: Seq<(String, u64)>, thr: u64) -> int
    decreases s.len(),
{
    if s.len() == 0 {
        0
    } else {
        spec_small_sum(s.drop_last(), thr) + (if s.last().1 < thr {
            s.last().1 as int
        } else {
            0
        })
    }
}

proof fn lemma_keep_props(s: Seq<(String, u64)>, thr: u64)
    requires
        keys_unique(s),
    ensures
        keys_unique(spec_keep(s, thr)),
        forall|l: Seq<char>| #[trigger] has_key(spec_keep(s, thr), l) ==> has_key(s, l),
        sum_values(spec_keep(s, thr)) + spec_small_sum(s, thr) == sum_values(s),
        forall|k: int| 0 <= k < spec_keep(s, thr).len() ==> spec_keep(s, thr)[k].1 >= thr,
        spec_small_sum(s, thr) >= 0,
    decreases s.len(),
{
    if s.len() > 0 {
        let dl = s.drop_last();
        assert(keys_unique(dl)) by {
            assert(forall|a: int| 0 <= a < dl.len() ==> dl[a] == s[a]);
        }
        lemma_keep_props(dl, thr);
        let p = spec_keep(dl, thr);
        if s.last().1 >= thr {
            let t = spec_keep(s, thr);
            assert(t == p.push(s.last()));
            lemma_sum_values_push(p, s.last());
            assert(!has_key(p, s.last().0@)) by {
                if has_key(p, s.last().0@) {
                    assert(has_key(dl, s.last().0@));
                    let k = choose|k: int| 0 <= k < dl.len() && dl[k].0@ == s.last().0@;
                    assert(s[k].0@ == s[s.len() - 1].0@);
                }
            }
            assert(keys_unique(t)) by {
                assert(forall|a: int| 0 <= a < p.len() ==> t[a] == p[a]);
                assert(t[t.len() - 1] == s.last());
            }
            assert forall|l: Seq<char>| #[trigger] has_key(t, l) implies has_key(s, l) by {
                let k = choose|k: int| 0 <= k < t.len() && t[k].0@ == l;
                if k < p.len() {
                    assert(has_key(p, l));
                    let m = choose|m: int| 0 <= m < dl.len() && dl[m].0@ == l;
                    assert(s[m].0@ == l);
                } else {
                    assert(s[s.len() - 1].0@ == l);
                }
            }
        } else {
            assert forall|l: Seq<char>| #[trigger] has_key(spec_keep(s, thr), l) implies has_key(
                s,
                l,
            ) by {
                let m = choose|m: int| 0 <= m < dl.len() && dl[m].0@ == l;
                assert(s[m].0@ == l);
            }
        }
    }
}

/// What threshold collapsing does, as a relation between the raw map and
/// the displayed map: sum preserved; nothing collapsed means the kept
/// entries unchanged; otherwise the collapsed mass is added to the kept
/// "Other" entry or appended as a new last "Other" entry.
pub open spec fn is_collapse_of(r: Seq<(String, u64)>, raw: Seq<(String, u64)>, thr: u64) -> bool {
    let keep = spec_keep(raw, thr);
    let sm = spec_small_sum(raw, thr);
    &&& sum_values(r) == sum_values(raw)
    &&& (sm == 0 ==> r == keep)
    &&& (sm > 0 && !has_key(keep, "Other"@) ==> r.len() == keep.len() + 1 && (forall|k: int|
        0 <= k < keep.len() ==> r[k] == keep[k]) && r.last().0@ == "Other"@ && r.last().1 == sm)
    &&& (sm > 0 && has_key(keep, "Other"@) ==> exists|j: int|
        0 <= j < keep.len() && keep[j].0@ == "Other"@ && r.len() == keep.len() && (forall|k: int|
            0 <= k < r.len() && k != j ==> r[k] == keep[k]) && r[j].0@ == "Other"@ && r[j].1
            == keep[j].1 + sm)
}

/// Collapses every language strictly below the threshold into the "Other"
/// bucket: the kept languages stay in order, the collapsed mass is added
/// to the existing "Other" entry or appended as a new last entry, the
/// languages displayed besides "Other" are all at or above the threshold,
/// and the sum of the displayed percentages equals the sum of the input
/// percentages. When nothing falls below the threshold the map is
/// unchanged and no "Other" entry is invented.
#[verifier::rlimit(50)]
#[verifier::spinoff_prover]
pub fn collapse_small(s: &Stats, thr: u64) -> (r: Stats)
    requires
        keys_unique(s.entries@),
        sum_values(s.entries@) <= u64::MAX,
    ensures
        keys_unique(r.entries@),
        is_collapse_of(r.entries@, s.entries@, thr),
        sum_values(r.entries@) == sum_values(s.entries@),
        forall|k: int|
            0 <= k < r.entries@.len() ==> r.entries@[k].1 >= thr || r.entries@[k].0@
                == "Other"@,
        spec_small_sum(s.entries@, thr) == 0 ==> r.entries@ == spec_keep(s.entries@, thr),
        (spec_small_sum(s.entries@, thr) > 0 && !has_key(spec_keep(s.entries@, thr), "Other"@))
            ==> (r.entries@.len() == spec_keep(s.entries@, thr).len() + 1 && (forall|k: int|
            0 <= k < spec_keep(s.entries@, thr).len() ==> r.entries@[k] == spec_keep(
                s.entries@,
                thr,
            )[k]) && r.entries@.last().0@ == "Other"@ && r.entries@.last().1 == spec_small_sum(
            s.entries@,
            thr,
        )),
        (spec_small_sum(s.entries@, thr) > 0 && has_key(spec_keep(s.entries@, thr), "Other"@))
            ==> (exists|j: int|
            0 <= j < spec_keep(s.entries@, thr).len() && spec_keep(s.entries@, thr)[j].0@
                == "Other"@ && r.entries@.len() == spec_keep(s.entries@, thr).len() && (forall|
                k: int,
            |
                0 <= k < r.entries@.len() && k != j ==> r.entries@[k] == spec_keep(
                    s.entries@,
                    thr,
                )[k]) && r.entries@[j].0@ == "Other"@ && r.entries@[j].1 == spec_keep(
                s.entries@,
                thr,
            )[j].1 + spec_small_sum(s.entries@, thr)),
{
    let ghost all = s.entries@;
    let mut kept: Vec<(String, u64)> = Vec::new();
    let mut small: u64 = 0;
    let mut i: usize = 0;
    proof {
        assert(all.take(0) =~= Seq::<(String, u64)>::empty());
        lemma_keep_props(all, thr);
    }
    while i < s.entries.len()
        invariant
            i <= all.len(),
            all == s.entries@,
            keys_unique(all),
            sum_values(all) <= u64::MAX,
            kept@ == spec_keep(all.take(i as int), thr),
            small == spec_small_sum(all.take(i as int), thr),
            sum_values(kept@) + small == sum_values(all.take(i as int)),
        decreases all.len() - i,
    {
        let ghost t0 = all.take(i as int);
        let ghost t1 = all.take(i as int + 1);
        proof {
            assert(t1.drop_last() =~= t0);
            assert(t1.last() == all[i as int]);
            lemma_sum_take_monotone(all, i as int + 1);
            lemma_sum_values_nonneg(kept@);
            assert(keys_unique(t0)) by {
                assert(forall|a: int| 0 <= a < t0.len() ==> t0[a] == all[a]);
            }
            lemma_keep_props(t0, thr);
        }
        let v = s.entries[i].1;
        if v < thr {
            small = small + v;
        } else {
            let key = s.entries[i].0.clone();
            let ghost k0 = kept@;
            kept.push((key, v));
            proof {
                assert(kept@[k0.len() as int] == all[i as int]);
                assert(kept@ =~= k0.push(all[i as int]));
                lemma_sum_values_push(k0, all[i as int]);
            }
        }
        i += 1;
    }
    proof {
        assert(all.take(all.len() as int) =~= all);
    }
    let ghost keep = spec_keep(all, thr);
    let ghost sm = spec_small_sum(all, thr);
    if small == 0 {
        proof {
            assert(is_collapse_of(kept@, s.entries@, thr));
        }
        return Stats { entries: kept };
    }
    match find_key(&kept, "Other") {
        Some(j) => {
            let ko = kept[j].0.clone();
            let v = kept[j].1;
            proof {
                lemma_sum_values_element(kept@, j as int);
            }
            let nv = v + small;
            let ghost k0 = kept@;
            kept.set(j, (ko, nv));
            proof {
                lemma_sum_values_update(k0, j as int, (ko, nv));
                lemma_val_of_update(k0, j as int, (ko, nv));
                assert(kept@[j as int].0@ == "Other"@);
                let gj = j as int;
                assert(k0 == keep);
                assert(keep == spec_keep(s.entries@, thr));
                assert(sm == spec_small_sum(s.entries@, thr));
                assert(0 <= gj < keep.len() && keep[gj].0@ == "Other"@ && kept@.len()
                    == keep.len() && (forall|k: int|
                    0 <= k < kept@.len() && k != gj ==> kept@[k] == keep[k]) && kept@[gj].0@
                    == "Other"@ && kept@[gj].1 == keep[gj].1 + sm);
                assert(exists|jj: int|
                    0 <= jj < spec_keep(s.entries@, thr).len() && spec_keep(s.entries@, thr)[jj].0@
                        == "Other"@ && kept@.len() == spec_keep(s.entries@, thr).len() && (forall|
                        k: int,
                    |
                        0 <= k < kept@.len() && k != jj ==> kept@[k] == spec_keep(
                            s.entries@,
                            thr,
                        )[k]) && kept@[jj].0@ == "Other"@ && kept@[jj].1 == spec_keep(
                        s.entries@,
                        thr,
                    )[jj].1 + spec_small_sum(s.entries@, thr)) by {
                    assert(0 <= gj < spec_keep(s.entries@, thr).len() && spec_keep(
                        s.entries@,
                        thr,
                    )[gj].0@ == "Other"@ && kept@.len() == spec_keep(s.entries@, thr).len() && (
                    forall|k: int|
                        0 <= k < kept@.len() && k != gj ==> kept@[k] == spec_keep(
                            s.entries@,
                            thr,
                        )[k]) && kept@[gj].0@ == "Other"@ && kept@[gj].1 == spec_keep(
                        s.entries@,
                        thr,
                    )[gj].1 + spec_small_sum(s.entries@, thr));
                }
                assert forall|k: int|
                    0 <= k < kept@.len() implies kept@[k].1 >= thr || kept@[k].0@
                    == "Other"@ by {
                    if k != j {
                        assert(kept@[k] == k0[k]);
                    }
                }
                assert(is_collapse_of(kept@, s.entries@, thr));
            }
            Stats { entries: kept }
        },
        None => {
            let ghost k0 = kept@;
            kept.push(("Other".to_owned(), small));
            proof {
                let p = kept@[k0.len() as int];
                assert(p.0@ == "Other"@ && p.1 == small);
                assert(kept@ == k0.push(p));
                lemma_sum_values_push(k0, p);
                assert(keys_unique(kept@)) by {
                    assert(forall|a: int| 0 <= a < k0.len() ==> kept@[a] == k0[a]);
                }
                assert(kept@.last() == p);
                assert forall|k: int|
                    0 <= k < kept@.len() implies kept@[k].1 >= thr || kept@[k].0@
                    == "Other"@ by {
                    if k < k0.len() {
                        assert(kept@[k] == k0[k]);
                    }
                }
                assert(is_collapse_of(kept@, s.entries@, thr));
            }
            Stats { entries: kept }
        },
    }
}

} // verus!
