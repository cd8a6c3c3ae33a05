//! Sorting.

use vstd::prelude::*;

use crate::text;

verus! {

/// A type whose values stand in a line.
pub trait Ordered: DeepView + Sized {
    /// Whether one value comes strictly before another.
    spec fn below(a: Self::V, b: Self::V) -> bool;

    proof fn below_irreflexive(a: Self::V)
        ensures
            !Self::below(a, a),
    ;

    proof fn below_total(a: Self::V, b: Self::V)
        ensures
            Self::below(a, b) || a == b || Self::below(b, a),
    ;

    proof fn below_transitive(a: Self::V, b: Self::V, c: Self::V)
        requires
            Self::below(a, b),
            Self::below(b, c),
        ensures
            Self::below(a, c),
    ;

    fn is_below(&self, other: &Self) -> (r: bool)
        ensures
            r == Self::below(self.deep_view(), other.deep_view()),
    ;
}

impl Ordered for String {
    open spec fn below(a: Seq<char>, b: Seq<char>) -> bool {
        text::less(a, b)
    }

    proof fn below_irreflexive(a: Seq<char>) {
        text::lemma_less_irreflexive(a);
    }

    proof fn below_total(a: Seq<char>, b: Seq<char>) {
        text::lemma_less_total(a, b);
    }

    proof fn below_transitive(a: Seq<char>, b: Seq<char>, c: Seq<char>) {
        text::lemma_less_transitive(a, b, c);
    }

    fn is_below(&self, other: &Self) -> (r: bool) {
        text::is_less(self.as_str(), other.as_str())
    }
}

proof fn lemma_below_asymmetric<T: Ordered>(a: T::V, b: T::V)
    requires
        T::below(a, b),
    ensures
        !T::below(b, a),
{
    if T::below(b, a) {
        T::below_transitive(a, b, a);
        T::below_irreflexive(a);
    }
}

/// `s` with `x` after the last element that is not above it.
pub open spec fn placed<T: Ordered>(s: Seq<T::V>, x: T::V) -> Seq<T::V>
    decreases s.len(),
{
    if s.len() > 0 && T::below(x, s.last()) {
        placed::<T>(s.drop_last(), x).push(s.last())
    } else {
        s.push(x)
    }
}

/// The values of `s` in order.
pub open spec fn sorted<T: Ordered>(s: Seq<T::V>) -> Seq<T::V>
    decreases s.len(),
{
    if s.len() == 0 {
        Seq::empty()
    } else {
        placed::<T>(sorted::<T>(s.drop_last()), s.last())
    }
}

/// No value stands before a smaller one.
pub open spec fn in_order<T: Ordered>(s: Seq<T::V>) -> bool {
    forall|i: int, j: int| #![trigger s[i], s[j]] 0 <= i < j < s.len() ==> !T::below(s[j], s[i])
}

proof fn lemma_placed_at<T: Ordered>(s: Seq<T::V>, x: T::V, p: int)
    requires
        0 <= p <= s.len(),
        p > 0 ==> !T::below(x, s[p - 1]),
        forall|k: int| p <= k < s.len() ==> T::below(x, #[trigger] s[k]),
    ensures
        placed::<T>(s, x) == s.insert(p, x),
    decreases s.len(),
{
    if p < s.len() {
        assert(T::below(x, s[s.len() - 1]));
        lemma_placed_at::<T>(s.drop_last(), x, p);
        assert(s.drop_last().insert(p, x).push(s.last()) =~= s.insert(p, x));
    } else {
        assert(s.push(x) =~= s.insert(p, x));
    }
}

proof fn lemma_placed<T: Ordered>(s: Seq<T::V>, x: T::V)
    requires
        in_order::<T>(s),
    ensures
        in_order::<T>(placed::<T>(s, x)),
        placed::<T>(s, x).to_multiset() == s.to_multiset().insert(x),
        placed::<T>(s, x).len() == s.len() + 1,
        placed::<T>(s, x).len() > 0 && (placed::<T>(s, x).last() == x || (s.len() > 0 && placed::<T>(s, x).last() == s.last())),
    decreases s.len(),
{
    broadcast use vstd::seq_lib::group_to_multiset_ensures;

    if s.len() > 0 && T::below(x, s.last()) {
        let r = s.drop_last();
        assert(in_order::<T>(r)) by {
            assert forall|i: int, j: int| #![trigger r[i], r[j]] 0 <= i < j < r.len() implies !T::below(r[j], r[i]) by {
                assert(r[i] == s[i] && r[j] == s[j]);
            }
        }
        lemma_placed::<T>(r, x);
        let q = placed::<T>(r, x);
        let out = q.push(s.last());
        assert(s =~= r.push(s.last()));
        assert(out.to_multiset() == q.to_multiset().insert(s.last()));
        assert(s.to_multiset() == r.to_multiset().insert(s.last()));
        assert(out.to_multiset() =~= s.to_multiset().insert(x));
        assert forall|i: int, j: int| #![trigger out[i], out[j]] 0 <= i < j < out.len() implies !T::below(
            out[j],
            out[i],
        ) by {
            if j < q.len() {
                assert(out[i] == q[i] && out[j] == q[j]);
            } else {
                assert(out[j] == s.last());
                assert(out[i] == q[i]);
                assert(q.contains(q[i]));
                assert(q.to_multiset().count(q[i]) > 0);
                if q[i] == x {
                    lemma_below_asymmetric::<T>(x, s.last());
                } else {
                    assert(r.to_multiset().count(q[i]) > 0);
                    assert(r.contains(q[i]));
                    let k = choose|k: int| 0 <= k < r.len() && r[k] == q[i];
                    assert(s[k] == q[i] && s[s.len() - 1] == s.last());
                }
            }
        }
    } else {
        let out = s.push(x);
        assert forall|i: int, j: int| #![trigger out[i], out[j]] 0 <= i < j < out.len() implies !T::below(
            out[j],
            out[i],
        ) by {
            if j < s.len() {
                assert(out[i] == s[i] && out[j] == s[j]);
            } else {
                assert(out[i] == s[i]);
                assert(s[s.len() - 1] == s.last());
                if i < s.len() - 1 && T::below(x, s[i]) {
                    assert(!T::below(s[s.len() - 1], s[i]));
                    T::below_total(s[i], s.last());
                    if s[i] != s.last() {
                        T::below_transitive(x, s[i], s.last());
                    }
                }
            }
        }
    }
}

/// Sorting puts the same values in order.
pub proof fn law_sorted<T: Ordered>(s: Seq<T::V>)
    ensures
        in_order::<T>(sorted::<T>(s)),
        sorted::<T>(s).to_multiset() == s.to_multiset(),
        sorted::<T>(s).len() == s.len(),
    decreases s.len(),
{
    broadcast use vstd::seq_lib::group_to_multiset_ensures;

    if s.len() > 0 {
        law_sorted::<T>(s.drop_last());
        lemma_placed::<T>(sorted::<T>(s.drop_last()), s.last());
        assert(s =~= s.drop_last().push(s.last()));
    } else {
        assert(s =~= Seq::empty());
    }
}

proof fn lemma_in_order_unique<T: Ordered>(a: Seq<T::V>, b: Seq<T::V>)
    requires
        in_order::<T>(a),
        in_order::<T>(b),
        a.to_multiset() == b.to_multiset(),
    ensures
        a == b,
    decreases a.len(),
{
    broadcast use vstd::seq_lib::group_to_multiset_ensures;

    assert(a.len() == a.to_multiset().len());
    assert(b.len() == b.to_multiset().len());
    if a.len() > 0 {
        let x = a.last();
        let y = b.last();
        assert(a[a.len() - 1] == x && b[b.len() - 1] == y);
        assert(a.contains(x) && b.contains(y));
        assert(b.to_multiset().count(x) > 0 && a.to_multiset().count(y) > 0);
        assert(b.contains(x) && a.contains(y));
        let i = choose|i: int| 0 <= i < b.len() && b[i] == x;
        let j = choose|j: int| 0 <= j < a.len() && a[j] == y;
        T::below_total(x, y);
        assert(x == y) by {
            if i < b.len() - 1 {
                assert(!T::below(b[b.len() - 1], b[i]));
            }
            if j < a.len() - 1 {
                assert(!T::below(a[a.len() - 1], a[j]));
            }
        }
        let c = a.drop_last();
        let d = b.drop_last();
        assert(a =~= c.push(x) && b =~= d.push(x));
        assert(c.to_multiset() =~= d.to_multiset()) by {
            assert(c.push(x).to_multiset() == c.to_multiset().insert(x));
            assert(d.push(x).to_multiset() == d.to_multiset().insert(x));
            assert forall|v: T::V| c.to_multiset().count(v) == d.to_multiset().count(v) by {
                assert(c.to_multiset().insert(x).count(v) == d.to_multiset().insert(x).count(v));
            }
        }
        assert(in_order::<T>(c)) by {
            assert forall|i: int, j: int| #![trigger c[i], c[j]] 0 <= i < j < c.len() implies !T::below(c[j], c[i]) by {
                assert(c[i] == a[i] && c[j] == a[j]);
            }
        }
        assert(in_order::<T>(d)) by {
            assert forall|i: int, j: int| #![trigger d[i], d[j]] 0 <= i < j < d.len() implies !T::below(d[j], d[i]) by {
                assert(d[i] == b[i] && d[j] == b[j]);
            }
        }
        lemma_in_order_unique::<T>(c, d);
    } else {
        assert(a =~= b);
    }
}

/// The order in which values are given does not matter to the sorted sequence.
pub proof fn law_sorted_ignores_order<T: Ordered>(a: Seq<T::V>, b: Seq<T::V>)
    requires
        a.to_multiset() == b.to_multiset(),
    ensures
        sorted::<T>(a) == sorted::<T>(b),
{
    law_sorted::<T>(a);
    law_sorted::<T>(b);
    lemma_in_order_unique::<T>(sorted::<T>(a), sorted::<T>(b));
}

/// Sorts values.
pub fn sort_values<T: Ordered>(v: Vec<T>) -> (r: Vec<T>)
    ensures
        r.deep_view() == sorted::<T>(v.deep_view()),
{
    let ghost all = v.deep_view();
    let n: usize = v.len();
    let mut v = v;
    let mut out: Vec<T> = Vec::new();
    let mut i: usize = 0;
    assert(out.deep_view() =~= sorted::<T>(all.subrange(0, 0)));
    assert(all.subrange(0, all.len() as int) =~= all);
    while i < n
        invariant
            n == all.len(),
            i <= n,
            out.len() == i,
            v.deep_view() == all.subrange(i as int, n as int),
            out.deep_view() == sorted::<T>(all.subrange(0, i as int)),
        decreases n - i,
    {
        let ghost s = out.deep_view();
        let ghost before = v@;
        assert(v.deep_view().len() == n - i);
        assert(v.deep_view()[0] == all[i as int]);
        let x = v.remove(0);
        assert(v@ =~= before.drop_first());
        assert(x.deep_view() == all[i as int]);
        assert(v.deep_view() =~= all.subrange(i + 1, n as int)) by {
            assert forall|k: int| 0 <= k < v@.len() implies v.deep_view()[k] == all[i + 1 + k] by {
                assert(v@[k] == before[k + 1]);
                assert(all.subrange(i as int, n as int)[k + 1] == before[k + 1].deep_view());
            }
        }
        let mut p: usize = out.len();
        while p > 0 && x.is_below(&out[p - 1])
            invariant
                s == out.deep_view(),
                x.deep_view() == all[i as int],
                p <= out.len(),
                forall|k: int| p <= k < s.len() ==> T::below(all[i as int], #[trigger] s[k]),
            decreases p,
        {
            assert(s[p - 1] == out@[p - 1].deep_view());
            p = p - 1;
        }
        proof {
            if p > 0 {
                assert(s[p - 1] == out@[p - 1].deep_view());
            }
            lemma_placed_at::<T>(s, all[i as int], p as int);
        }
        out.insert(p, x);
        assert(out.deep_view() =~= s.insert(p as int, all[i as int]));
        assert(all.subrange(0, i + 1).drop_last() =~= all.subrange(0, i as int));
        i = i + 1;
    }
    out
}

} // verus!
