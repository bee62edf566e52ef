use vstd::prelude::*;
use core::cmp::Ordering;
use vstd::std_specs::cmp::{PartialOrdIs, PartialOrdSpec};

verus! {

/// A ray meets an object at parameter `t`. The object is named by its index
/// in the scene, so two equal objects stay apart.
#[derive(Debug, Clone, Copy)]
pub struct Intersection<K> {
    pub t: K,
    pub object: usize,
}

/// Index of the hit among `xs`: of the entries whose `t` is at least `zero`,
/// the first one whose `t` no later entry is strictly below.
pub open spec fn hit_index<K: PartialOrd>(xs: Seq<Intersection<K>>, zero: K) -> Option<int>
    decreases xs.len(),
{
    if xs.len() == 0 {
        None
    } else {
        let prev = hit_index(xs.drop_last(), zero);
        let i = xs.len() - 1;
        if !xs[i].t.is_ge(&zero) {
            prev
        } else {
            match prev {
                None => Some(i),
                Some(j) => if xs[i].t.is_lt(&xs[j].t) {
                    Some(i)
                } else {
                    Some(j)
                },
            }
        }
    }
}

/// Where `x` goes when it is inserted into `s` from the back: past every
/// entry whose `t` is strictly greater than its own, and no further.
pub open spec fn insert_pos<K: PartialOrd>(s: Seq<Intersection<K>>, x: Intersection<K>) -> int
    decreases s.len(),
{
    if s.len() == 0 {
        0
    } else if x.t.is_lt(&s.last().t) {
        insert_pos(s.drop_last(), x)
    } else {
        s.len() as int
    }
}

/// `s` with `x` inserted at `insert_pos(s, x)`.
pub open spec fn insert_sorted<K: PartialOrd>(s: Seq<Intersection<K>>, x: Intersection<K>) -> Seq<
    Intersection<K>,
> {
    let p = insert_pos(s, x);
    s.take(p) + seq![x] + s.skip(p)
}

/// `s` ordered by `t` by inserting its entries one after the other; an entry
/// never passes one with an equal `t`, so entries with equal `t` keep their
/// order.
pub open spec fn sorted_by_t<K: PartialOrd>(s: Seq<Intersection<K>>) -> Seq<Intersection<K>>
    decreases s.len(),
{
    if s.len() == 0 {
        s
    } else {
        insert_sorted(sorted_by_t(s.drop_last()), s.last())
    }
}

/// With whole-number parameters the hit is the nearest intersection that is
/// not behind the origin, the first of them where several are equally near,
/// and there is none exactly when every intersection is behind the origin.
pub proof fn hit_is_first_nearest(xs: Seq<Intersection<i64>>, zero: i64)
    ensures
        hit_index(xs, zero) is None <==> forall|j: int| 0 <= j < xs.len() ==> #[trigger] xs[j].t < zero,
        hit_index(xs, zero) matches Some(i) ==> {
            &&& 0 <= i < xs.len()
            &&& xs[i].t >= zero
            &&& forall|j: int| 0 <= j < xs.len() && #[trigger] xs[j].t >= zero ==> xs[i].t <= xs[j].t
            &&& forall|j: int| 0 <= j < i && #[trigger] xs[j].t >= zero ==> xs[i].t < xs[j].t
        },
    decreases xs.len(),
{
    if xs.len() > 0 {
        let init = xs.drop_last();
        let n = xs.len() - 1;
        hit_is_first_nearest(init, zero);
        assert forall|j: int| 0 <= j < init.len() implies #[trigger] init[j] == xs[j] by {}
        assert(xs[n].t.is_ge(&zero) <==> xs[n].t >= zero);
        match hit_index(init, zero) {
            Some(j) => {
                assert(xs[n].t.is_lt(&xs[j].t) <==> xs[n].t < xs[j].t);
                assert(init[j] == xs[j]);
            },
            None => {},
        }
        if let Some(i) = hit_index(xs, zero) {
            assert forall|j: int| 0 <= j < xs.len() && #[trigger] xs[j].t >= zero implies xs[i].t
                <= xs[j].t by {
                if j < n {
                    assert(init[j] == xs[j]);
                }
            }
            assert forall|j: int| 0 <= j < i && #[trigger] xs[j].t >= zero implies xs[i].t
                < xs[j].t by {
                if j < n {
                    assert(init[j] == xs[j]);
                }
            }
        }
        if hit_index(xs, zero) is None {
            assert forall|j: int| 0 <= j < xs.len() implies #[trigger] xs[j].t < zero by {
                if j < n {
                    assert(init[j] == xs[j]);
                }
            }
        }
    }
}

/// Ascending by `t`.
pub open spec fn ascending(s: Seq<Intersection<i64>>) -> bool {
    forall|a: int, b: int| 0 <= a < b < s.len() ==> #[trigger] s[a].t <= #[trigger] s[b].t
}

proof fn lemma_insert_pos(s: Seq<Intersection<i64>>, x: Intersection<i64>)
    ensures
        0 <= insert_pos(s, x) <= s.len(),
        forall|k: int| insert_pos(s, x) <= k < s.len() ==> x.t < #[trigger] s[k].t,
        insert_pos(s, x) > 0 ==> s[insert_pos(s, x) - 1].t <= x.t,
    decreases s.len(),
{
    if s.len() > 0 {
        let init = s.drop_last();
        lemma_insert_pos(init, x);
        assert forall|k: int| 0 <= k < init.len() implies #[trigger] init[k] == s[k] by {}
        if x.t.is_lt(&s.last().t) {
            assert(x.t < s.last().t);
            assert forall|k: int| insert_pos(s, x) <= k < s.len() implies x.t < #[trigger] s[k].t by {
                if k < init.len() {
                    assert(init[k] == s[k]);
                }
            }
        }
    }
}

proof fn lemma_insert_sorted(s: Seq<Intersection<i64>>, x: Intersection<i64>)
    requires
        ascending(s),
    ensures
        ascending(insert_sorted(s, x)),
        insert_sorted(s, x).to_multiset() == s.to_multiset().insert(x),
        insert_sorted(s, x).len() == s.len() + 1,
{
    broadcast use vstd::seq_lib::group_to_multiset_ensures;

    let p = insert_pos(s, x);
    lemma_insert_pos(s, x);
    let r = insert_sorted(s, x);
    assert(r =~= s.insert(p, x));
    assert forall|a: int, b: int| 0 <= a < b < r.len() implies #[trigger] r[a].t
        <= #[trigger] r[b].t by {
        if a < p {
            assert(r[a] == s[a]);
            if b < p {
                assert(r[b] == s[b]);
            } else if b == p {
                assert(s[a].t <= s[p - 1].t);
            } else {
                assert(r[b] == s[b - 1]);
            }
        } else if a == p {
            assert(r[b] == s[b - 1]);
        } else {
            assert(r[a] == s[a - 1]);
            assert(r[b] == s[b - 1]);
        }
    }
}

/// The entries whose `t` is `v`.
pub open spec fn with_t(v: i64) -> spec_fn(Intersection<i64>) -> bool {
    |e: Intersection<i64>| e.t == v
}

proof fn lemma_filter_push(s: Seq<Intersection<i64>>, x: Intersection<i64>, v: i64)
    ensures
        s.push(x).filter(with_t(v)) == if x.t == v {
            s.filter(with_t(v)).push(x)
        } else {
            s.filter(with_t(v))
        },
{
    reveal(Seq::filter);
    assert(s.push(x).drop_last() =~= s);
}

proof fn lemma_none_with_t(s: Seq<Intersection<i64>>, v: i64)
    requires
        forall|k: int| 0 <= k < s.len() ==> #[trigger] s[k].t != v,
    ensures
        s.filter(with_t(v)) == Seq::<Intersection<i64>>::empty(),
    decreases s.len(),
{
    reveal(Seq::filter);
    if s.len() > 0 {
        let init = s.drop_last();
        assert forall|k: int| 0 <= k < init.len() implies #[trigger] init[k].t != v by {
            assert(init[k] == s[k]);
        }
        lemma_none_with_t(init, v);
    }
}

proof fn lemma_insert_keeps_ties(s: Seq<Intersection<i64>>, x: Intersection<i64>, v: i64)
    ensures
        insert_sorted(s, x).filter(with_t(v)) == s.push(x).filter(with_t(v)),
{
    let p = insert_pos(s, x);
    lemma_insert_pos(s, x);
    let a = s.take(p);
    let b = s.skip(p);
    assert(s =~= a + b);
    Seq::filter_distributes_over_add(a + seq![x], b, with_t(v));
    Seq::filter_distributes_over_add(a, seq![x], with_t(v));
    Seq::filter_distributes_over_add(a, b, with_t(v));
    lemma_filter_push(s, x, v);
    assert(seq![x] =~= Seq::<Intersection<i64>>::empty().push(x));
    lemma_filter_push(Seq::<Intersection<i64>>::empty(), x, v);
    reveal_with_fuel(Seq::filter, 1);
    if x.t == v {
        assert forall|k: int| 0 <= k < b.len() implies #[trigger] b[k].t != v by {
            assert(b[k] == s[p + k]);
        }
        lemma_none_with_t(b, v);
        assert(a.filter(with_t(v)) + b.filter(with_t(v)) =~= a.filter(with_t(v)));
        assert(a.filter(with_t(v)) + seq![x].filter(with_t(v)) =~= a.filter(with_t(v)).push(x));
    } else {
        assert(seq![x].filter(with_t(v)) =~= Seq::<Intersection<i64>>::empty());
        assert(a.filter(with_t(v)) + seq![x].filter(with_t(v)) =~= a.filter(with_t(v)));
    }
}

/// With whole-number parameters, ordering by `t` keeps the entries of each
/// `t` in the order they came in.
pub proof fn sorted_by_t_is_stable(s: Seq<Intersection<i64>>, v: i64)
    ensures
        sorted_by_t(s).filter(with_t(v)) == s.filter(with_t(v)),
    decreases s.len(),
{
    if s.len() > 0 {
        let init = s.drop_last();
        sorted_by_t_is_stable(init, v);
        lemma_insert_keeps_ties(sorted_by_t(init), s.last(), v);
        lemma_filter_push(sorted_by_t(init), s.last(), v);
        lemma_filter_push(init, s.last(), v);
        assert(init.push(s.last()) =~= s);
    }
}

/// With whole-number parameters, ordering by `t` gives the same entries,
/// each as often as before, in ascending order of `t`.
pub proof fn sorted_by_t_is_ascending_permutation(s: Seq<Intersection<i64>>)
    ensures
        ascending(sorted_by_t(s)),
        sorted_by_t(s).to_multiset() == s.to_multiset(),
        sorted_by_t(s).len() == s.len(),
    decreases s.len(),
{
    broadcast use vstd::seq_lib::group_to_multiset_ensures;

    if s.len() > 0 {
        let init = s.drop_last();
        sorted_by_t_is_ascending_permutation(init);
        lemma_insert_sorted(sorted_by_t(init), s.last());
        assert(init.push(s.last()) =~= s);
    }
}

impl<K: PartialOrd + Copy> Intersection<K> {
    /// The visible intersection: the one with the smallest `t` that is not
    /// below `zero` (behind the ray's origin). Among equal `t`s the first
    /// wins. `None` when every `t` is below `zero`.
    pub fn hit(xs: &Vec<Intersection<K>>, zero: &K) -> (r: Option<Intersection<K>>)
        ensures
            r matches Some(h) ==> exists|i: int| 0 <= i < xs@.len() && h == xs@[i],
            xs@.len() == 0 ==> r is None,
            K::obeys_partial_cmp_spec() ==> match hit_index(xs@, *zero) {
                None => r is None,
                Some(i) => r == Some(xs@[i]),
            },
    {
        let mut best: Option<usize> = None;
        let mut i: usize = 0;
        while i < xs.len()
            invariant
                i <= xs@.len(),
                best matches Some(j) ==> j < i,
                K::obeys_partial_cmp_spec() ==> hit_index(xs@.take(i as int), *zero) == match best {
                    None => None,
                    Some(j) => Some(j as int),
                },
            decreases xs@.len() - i,
        {
            proof {
                assert(xs@.take(i as int + 1).drop_last() =~= xs@.take(i as int));
            }
            if xs[i].t.ge(zero) {
                match best {
                    None => {
                        best = Some(i);
                    },
                    Some(j) => {
                        if xs[i].t.lt(&xs[j].t) {
                            best = Some(i);
                        }
                    },
                }
            }
            i += 1;
        }
        proof {
            assert(xs@.take(xs@.len() as int) =~= xs@);
        }
        match best {
            None => None,
            Some(j) => Some(xs[j]),
        }
    }

    /// Orders `xs` by `t`, nearest first, keeping the order of entries with
    /// equal `t`.
    pub fn sort_by_t(xs: &mut Vec<Intersection<K>>)
        ensures
            final(xs)@.len() == old(xs)@.len(),
            K::obeys_partial_cmp_spec() ==> final(xs)@ == sorted_by_t(old(xs)@),
    {
        let ghost orig = xs@;
        let n = xs.len();
        let mut i: usize = 0;
        while i < n
            invariant
                n == xs@.len(),
                n == orig.len(),
                i <= n,
                xs@.skip(i as int) == orig.skip(i as int),
                K::obeys_partial_cmp_spec() ==> xs@.take(i as int) == sorted_by_t(
                    orig.take(i as int),
                ),
            decreases n - i,
        {
            let x = xs[i];
            let ghost p = xs@.take(i as int);
            proof {
                assert(x == orig[i as int]) by {
                    assert(xs@.skip(i as int)[0] == orig.skip(i as int)[0]);
                }
                assert(p.take(i as int) =~= p);
                assert forall|k: int| i < k < n implies #[trigger] xs@[k] == orig[k] by {
                    assert(xs@.skip(i as int)[k - i] == orig.skip(i as int)[k - i]);
                }
            }
            let mut j: usize = i;
            while j > 0 && x.t.lt(&xs[j - 1].t)
                invariant
                    j <= i < n,
                    xs@.len() == n,
                    p.len() == i,
                    forall|k: int| 0 <= k < j ==> #[trigger] xs@[k] == p[k],
                    forall|k: int| j < k <= i ==> #[trigger] xs@[k] == p[k - 1],
                    forall|k: int| i < k < n ==> #[trigger] xs@[k] == orig[k],
                    K::obeys_partial_cmp_spec() ==> insert_pos(p.take(j as int), x) == insert_pos(
                        p,
                        x,
                    ),
                decreases j,
            {
                proof {
                    assert(p.take(j as int).drop_last() =~= p.take(j - 1));
                }
                let prev = xs[j - 1];
                xs.set(j, prev);
                j -= 1;
            }
            proof {
                if K::obeys_partial_cmp_spec() {
                    if j > 0 {
                        assert(p.take(j as int).last() == p[j - 1]);
                    } else {
                        assert(p.take(0).len() == 0);
                    }
                    assert(insert_pos(p.take(j as int), x) == j);
                }
            }
            xs.set(j, x);
            proof {
                assert forall|k: int| i < k < n implies #[trigger] xs@[k] == orig[k] by {}
                assert(xs@.skip(i + 1) =~= orig.skip(i + 1));
                assert(orig.take(i + 1).drop_last() =~= orig.take(i as int));
                if K::obeys_partial_cmp_spec() {
                    assert(xs@.take(i + 1) =~= p.take(j as int) + seq![x] + p.skip(j as int));
                }
            }
            i += 1;
        }
        proof {
            assert(xs@.take(n as int) =~= xs@);
            assert(orig.take(n as int) =~= orig);
        }
    }
}

/// How many times a ray meets a quadric whose discriminant is
/// `discriminant`: none below `zero`, one (a tangent) at `zero`, two above.
/// `None` when the discriminant compares with nothing (it is not a number).
pub fn root_count<K: PartialOrd>(discriminant: &K, zero: &K) -> (r: Option<usize>)
    ensures
        K::obeys_partial_cmp_spec() ==> r == match discriminant.partial_cmp_spec(zero) {
            Some(Ordering::Less) => Some(0usize),
            Some(Ordering::Equal) => Some(1usize),
            Some(Ordering::Greater) => Some(2usize),
            None => None,
        },
        r matches Some(n) ==> n <= 2,
{
    match discriminant.partial_cmp(zero) {
        Some(Ordering::Less) => Some(0),
        Some(Ordering::Equal) => Some(1),
        Some(Ordering::Greater) => Some(2),
        None => None,
    }
}

} // verus!
