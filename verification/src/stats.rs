//! Order statistics over inter-point time deltas.
//!
//! The analyzer collects the whole-second gaps between consecutive points
//! of a segment and reports their mean, median (the lower-middle element
//! of the sorted list on even counts, no interpolation), and mode (the
//! most frequent delta, the smallest one when several are equally
//! frequent).

use vstd::prelude::*;
use vstd::multiset::Multiset;
use vstd::seq_lib::lemma_multiset_commutative;

verus! {

broadcast use
    vstd::seq_lib::group_to_multiset_ensures,
    vstd::multiset::group_multiset_axioms,
;

/// Sum of a delta list.
pub open spec fn sum64(s: Seq<u64>) -> int
    decreases s.len(),
{
    if s.len() == 0 {
        0
    } else {
        sum64(s.drop_last()) + s.last()
    }
}

/// The deltas are in nondecreasing order.
pub open spec fn sorted64(s: Seq<u64>) -> bool {
    forall|i: int, j: int| 0 <= i < j < s.len() ==> s[i] <= s[j]
}

/// `x` inserted before the first element it does not exceed.
pub open spec fn insert_sorted(x: u64, s: Seq<u64>) -> Seq<u64>
    decreases s.len(),
{
    if s.len() == 0 {
        seq![x]
    } else if x <= s[0] {
        seq![x] + s
    } else {
        seq![s[0]] + insert_sorted(x, s.skip(1))
    }
}

/// The delta list in nondecreasing order (insertion sort).
pub open spec fn sort_spec(s: Seq<u64>) -> Seq<u64>
    decreases s.len(),
{
    if s.len() == 0 {
        Seq::<u64>::empty()
    } else {
        insert_sorted(s.last(), sort_spec(s.drop_last()))
    }
}

/// Number of occurrences of `x` among the deltas.
pub open spec fn count64(s: Seq<u64>, x: u64) -> nat {
    s.to_multiset().count(x)
}

/// `m` is the mode of `s`: it occurs, nothing occurs more often, and no
/// smaller delta occurs equally often.
pub open spec fn is_mode(s: Seq<u64>, m: u64) -> bool {
    &&& s.contains(m)
    &&& forall|x: u64| #[trigger] count64(s, x) <= count64(s, m)
    &&& forall|x: u64| #[trigger] count64(s, x) == count64(s, m) ==> m <= x
}

proof fn lemma_insert_sorted_ensures(x: u64, s: Seq<u64>)
    requires
        sorted64(s),
    ensures
        sorted64(insert_sorted(x, s)),
        insert_sorted(x, s).to_multiset() == s.to_multiset().insert(x),
        insert_sorted(x, s).len() == s.len() + 1,
    decreases s.len(),
{
    if s.len() == 0 {
        assert(seq![x] =~= Seq::<u64>::empty().push(x));
        assert(Seq::<u64>::empty().to_multiset() =~= Multiset::<u64>::empty()) by {
            assert(forall|e: u64| !Seq::<u64>::empty().contains(e));
        }
        assert(insert_sorted(x, s).to_multiset() =~= s.to_multiset().insert(x));
    } else if x <= s[0] {
        let r = seq![x] + s;
        assert(forall|i: int, j: int| 0 <= i < j < r.len() ==> r[i] <= r[j]) by {
            assert(forall|j: int| 1 <= j < r.len() ==> r[j] == s[j - 1]);
        }
        assert(r =~= s.insert(0, x));
        assert(r.to_multiset() =~= s.to_multiset().insert(x)) by {
            assert(seq![x].to_multiset() =~= Multiset::<u64>::empty().insert(x)) by {
                assert(seq![x] =~= Seq::<u64>::empty().push(x));
                assert(Seq::<u64>::empty().to_multiset() =~= Multiset::<u64>::empty()) by {
                    assert(forall|e: u64| !Seq::<u64>::empty().contains(e));
                }
            }
            lemma_multiset_commutative(seq![x], s);
            assert(Multiset::<u64>::empty().insert(x).add(s.to_multiset()) =~= s.to_multiset()
                .insert(x));
        }
    } else {
        let t = s.skip(1);
        assert(sorted64(t)) by {
            assert(forall|i: int, j: int| 0 <= i < j < t.len() ==> t[i] == s[i + 1] && t[j] == s[
                j + 1
            ]);
        }
        lemma_insert_sorted_ensures(x, t);
        let rest = insert_sorted(x, t);
        let r = seq![s[0]] + rest;
        // Every element of `rest` is at least `s[0]`.
        assert(forall|j: int| 0 <= j < rest.len() ==> s[0] <= #[trigger] rest[j]) by {
            assert(forall|j: int| 0 <= j < rest.len() ==> rest.contains(rest[j]));
            assert(forall|e: u64| rest.contains(e) ==> rest.to_multiset().count(e) > 0);
            assert(forall|e: u64| rest.to_multiset().count(e) > 0 ==> e == x || t.to_multiset()
                .count(e) > 0);
            assert(forall|e: u64| t.to_multiset().count(e) > 0 ==> t.contains(e));
            assert(forall|e: u64| t.contains(e) ==> s[0] <= e) by {
                assert(forall|j: int| 0 <= j < t.len() ==> s[0] <= #[trigger] t[j]);
            }
        }
        assert(sorted64(r)) by {
            assert(forall|j: int| 1 <= j < r.len() ==> r[j] == rest[j - 1]);
            assert(forall|i: int, j: int|
                1 <= i < j < r.len() ==> r[i] == rest[i - 1] && r[j] == rest[j - 1]);
        }
        assert(r.to_multiset() =~= s.to_multiset().insert(x)) by {
            lemma_multiset_commutative(seq![s[0]], rest);
            assert(seq![s[0]].to_multiset() =~= Multiset::<u64>::empty().insert(s[0])) by {
                assert(seq![s[0]] =~= Seq::<u64>::empty().push(s[0]));
                assert(Seq::<u64>::empty().to_multiset() =~= Multiset::<u64>::empty()) by {
                    assert(forall|e: u64| !Seq::<u64>::empty().contains(e));
                }
            }
            assert(s =~= t.insert(0, s[0]));
            assert(s.to_multiset() =~= seq![s[0]].to_multiset().add(t.to_multiset())) by {
                assert(s =~= seq![s[0]] + t);
                lemma_multiset_commutative(seq![s[0]], t);
            }
        }
    }
}

proof fn lemma_sort_spec_ensures(s: Seq<u64>)
    ensures
        sorted64(sort_spec(s)),
        sort_spec(s).to_multiset() == s.to_multiset(),
        sort_spec(s).len() == s.len(),
    decreases s.len(),
{
    if s.len() > 0 {
        lemma_sort_spec_ensures(s.drop_last());
        lemma_insert_sorted_ensures(s.last(), sort_spec(s.drop_last()));
        assert(s =~= s.drop_last().push(s.last()));
        assert(s.drop_last().push(s.last()).to_multiset() =~= s.drop_last().to_multiset().insert(
            s.last(),
        ));
    }
}

/// `is_mode` only looks at the multiset of deltas.
pub proof fn lemma_is_mode_multiset(a: Seq<u64>, b: Seq<u64>, m: u64)
    requires
        a.to_multiset() == b.to_multiset(),
        is_mode(a, m),
    ensures
        is_mode(b, m),
{
    assert(a.to_multiset().count(m) > 0);
    assert(b.contains(m));
    assert(forall|x: u64| count64(b, x) == count64(a, x));
}

/// Inserts `x` into a vector, before the first element it does not exceed.
fn insert_one(v: &mut Vec<u64>, x: u64)
    ensures
        final(v)@ == insert_sorted(x, old(v)@),
{
    let n = v.len();
    let mut i: usize = 0;
    while i < n && v[i] < x
        invariant
            0 <= i <= n,
            n == v@.len(),
            v@ == old(v)@,
            forall|j: int| 0 <= j < i ==> v@[j] < x,
        decreases n - i,
    {
        i = i + 1;
    }
    v.insert(i, x);
    proof {
        lemma_insert_sorted_at(old(v)@, x, i as int);
    }
}

proof fn lemma_insert_sorted_at(s: Seq<u64>, x: u64, i: int)
    requires
        0 <= i <= s.len(),
        forall|j: int| 0 <= j < i ==> s[j] < x,
        i < s.len() ==> x <= s[i],
    ensures
        insert_sorted(x, s) == s.insert(i, x),
    decreases i,
{
    if i == 0 {
        if s.len() == 0 {
            assert(seq![x] =~= s.insert(0, x));
        } else {
            assert(seq![x] + s =~= s.insert(0, x));
        }
    } else {
        let t = s.skip(1);
        assert(forall|j: int| 0 <= j < i - 1 ==> t[j] == s[j + 1] && s[j + 1] < x);
        assert(i - 1 < t.len() ==> t[i - 1] == s[i]);
        lemma_insert_sorted_at(t, x, i - 1);
        assert(seq![s[0]] + t.insert(i - 1, x) =~= s.insert(i, x));
    }
}

/// A sorted copy of the delta list.
pub fn sorted_copy(v: &Vec<u64>) -> (r: Vec<u64>)
    ensures
        r@ == sort_spec(v@),
        sorted64(r@),
        r@.to_multiset() == v@.to_multiset(),
        r@.len() == v@.len(),
{
    let mut out: Vec<u64> = Vec::new();
    let mut j: usize = 0;
    while j < v.len()
        invariant
            0 <= j <= v@.len(),
            out@ == sort_spec(v@.take(j as int)),
        decreases v@.len() - j,
    {
        insert_one(&mut out, v[j]);
        proof {
            assert(v@.take(j + 1).drop_last() =~= v@.take(j as int));
            assert(v@.take(j + 1).last() == v@[j as int]);
        }
        j = j + 1;
    }
    proof {
        assert(v@.take(v@.len() as int) =~= v@);
        lemma_sort_spec_ensures(v@);
    }
    out
}

/// The mode of a sorted delta list: scans runs, a strictly longer run
/// displacing the current best, so the smallest delta wins ties.
pub fn mode_of_sorted(v: &Vec<u64>) -> (m: u64)
    requires
        v@.len() >= 1,
        sorted64(v@),
    ensures
        is_mode(v@, m),
{
    let mut best: u64 = v[0];
    let mut best_n: usize = 1;
    let mut cur: u64 = v[0];
    let mut cur_n: usize = 1;
    let mut i: usize = 1;
    proof {
        assert(v@.take(1) =~= Seq::<u64>::empty().push(v@[0]));
        assert(Seq::<u64>::empty().to_multiset() =~= Multiset::<u64>::empty()) by {
            assert(forall|e: u64| !Seq::<u64>::empty().contains(e));
        }
        assert(count64(v@.take(1), v@[0]) == 1);
        assert(forall|x: u64| x != v@[0] ==> count64(v@.take(1), x) == 0);
        assert(v@.take(1).contains(v@[0])) by {
            assert(v@.take(1)[0] == v@[0]);
        }
    }
    while i < v.len()
        invariant
            1 <= i <= v@.len(),
            sorted64(v@),
            cur == v@[i - 1],
            1 <= cur_n <= i,
            1 <= best_n <= i,
            cur_n <= best_n || cur == best,
            best <= cur,
            cur_n == count64(v@.take(i as int), cur),
            best_n == count64(v@.take(i as int), best),
            v@.take(i as int).contains(best),
            forall|x: u64| #[trigger] count64(v@.take(i as int), x) <= best_n,
            forall|x: u64| #[trigger] count64(v@.take(i as int), x) == best_n ==> best <= x,
        decreases v@.len() - i,
    {
        let x = v[i];
        let ghost pre = v@.take(i as int);
        let ghost post = v@.take(i + 1);
        let ghost best0 = best;
        let ghost best_n0 = best_n;
        let ghost cur0 = cur;
        proof {
            assert(post =~= pre.push(v@[i as int]));
            assert(post.to_multiset() =~= pre.to_multiset().insert(x));
            assert(count64(post, x) == count64(pre, x) + 1);
            assert(forall|y: u64| y != x ==> count64(post, y) == count64(pre, y));
            assert(cur <= x) by {
                assert(v@[i - 1] <= v@[i as int]);
            }
            if x != cur {
                // A new run begins: x has not occurred before position i.
                assert(count64(pre, x) == 0) by {
                    if pre.to_multiset().count(x) > 0 {
                        assert(pre.contains(x));
                        let j = choose|j: int| 0 <= j < i && pre[j] == x;
                        assert(v@[j] == x);
                        assert(v@[j] <= v@[i - 1]);
                    }
                }
            }
        }
        if x == cur {
            cur_n = cur_n + 1;
        } else {
            cur = x;
            cur_n = 1;
        }
        if cur_n > best_n {
            best = cur;
            best_n = cur_n;
        }
        i = i + 1;
        proof {
            assert(post.contains(best)) by {
                if best == best0 {
                    assert(pre.contains(best0));
                    let j = choose|j: int| 0 <= j < pre.len() && pre[j] == best0;
                    assert(post[j] == best0);
                } else {
                    assert(post[i - 1] == x);
                }
            }
            assert(forall|y: u64| #[trigger] count64(post, y) <= best_n) by {
                assert(forall|y: u64| y != x ==> count64(post, y) == count64(pre, y)
                    && count64(pre, y) <= best_n0);
            }
            assert(forall|y: u64| #[trigger] count64(post, y) == best_n ==> best <= y) by {
                assert(forall|y: u64|
                    y != x && count64(post, y) == best_n && best_n == best_n0 ==> best0 <= y);
            }
        }
    }
    proof {
        assert(v@.take(v@.len() as int) =~= v@);
    }
    best
}

} // verus!
