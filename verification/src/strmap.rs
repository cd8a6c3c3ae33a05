//! Maps from strings, kept in key order.

use vstd::prelude::*;

use crate::duplicate::Duplicate;
use crate::text;

verus! {

/// The keys rise strictly.
pub open spec fn sorted<V>(s: Seq<(Seq<char>, V)>) -> bool {
    forall|i: int, j: int| #![trigger s[i], s[j]] 0 <= i < j < s.len() ==> text::less(s[i].0, s[j].0)
}

/// The value under `k`.
pub open spec fn get<V>(s: Seq<(Seq<char>, V)>, k: Seq<char>) -> Option<V>
    decreases s.len(),
{
    if s.len() == 0 {
        None
    } else if s[0].0 == k {
        Some(s[0].1)
    } else {
        get(s.drop_first(), k)
    }
}

/// `s` with `v` under `k`, at its place in the order.
pub open spec fn insert<V>(s: Seq<(Seq<char>, V)>, k: Seq<char>, v: V) -> Seq<(Seq<char>, V)>
    decreases s.len(),
{
    if s.len() == 0 {
        seq![(k, v)]
    } else if s[0].0 == k {
        seq![(k, v)] + s.drop_first()
    } else if text::less(k, s[0].0) {
        seq![(k, v)] + s
    } else {
        seq![s[0]] + insert(s.drop_first(), k, v)
    }
}

/// A value is found under the key it was inserted under, and no other key is affected.
pub proof fn lemma_get_after_insert<V>(s: Seq<(Seq<char>, V)>, k: Seq<char>, v: V, q: Seq<char>)
    requires
        sorted(s),
    ensures
        get(insert(s, k, v), q) == (if q == k {
            Some(v)
        } else {
            get(s, q)
        }),
    decreases s.len(),
{
    let t = insert(s, k, v);
    if s.len() == 0 {
        assert(t.drop_first() =~= s);
    } else if s[0].0 == k {
        assert(t.drop_first() =~= s.drop_first());
        assert(t[0] == (k, v));
    } else if text::less(k, s[0].0) {
        assert(t.drop_first() =~= s);
        assert(t[0] == (k, v));
    } else {
        lemma_get_after_insert(s.drop_first(), k, v, q);
        assert(t.drop_first() =~= insert(s.drop_first(), k, v));
        assert(t[0] == s[0]);
    }
}

/// Insertion keeps the keys in order, and adds at most the new one.
pub proof fn lemma_insert_sorted<V>(s: Seq<(Seq<char>, V)>, k: Seq<char>, v: V)
    requires
        sorted(s),
    ensures
        sorted(insert(s, k, v)),
        forall|i: int|
            0 <= i < insert(s, k, v).len() ==> {
                let e = #[trigger] insert(s, k, v)[i];
                e.0 == k || exists|j: int| 0 <= j < s.len() && (#[trigger] s[j]).0 == e.0
            },
    decreases s.len(),
{
    let t = insert(s, k, v);
    if s.len() == 0 {
    } else if s[0].0 == k {
        assert forall|i: int| 0 <= i < t.len() implies (#[trigger] t[i]).0 == k || exists|j: int|
            0 <= j < s.len() && (#[trigger] s[j]).0 == t[i].0 by {
            assert(s[i].0 == t[i].0);
        }
        assert forall|i: int, j: int| #![trigger t[i], t[j]] 0 <= i < j < t.len() implies text::less(
            t[i].0,
            t[j].0,
        ) by {
            assert(s[i].0 == t[i].0 && s[j].0 == t[j].0);
        }
    } else if text::less(k, s[0].0) {
        assert forall|i: int, j: int| #![trigger t[i], t[j]] 0 <= i < j < t.len() implies text::less(
            t[i].0,
            t[j].0,
        ) by {
            assert(t[j] == s[j - 1]);
            if i > 0 {
                assert(t[i] == s[i - 1]);
            } else if j > 1 {
                assert(text::less(s[0].0, s[j - 1].0));
                text::lemma_less_transitive(k, s[0].0, s[j - 1].0);
            }
        }
        assert forall|i: int| 0 <= i < t.len() implies (#[trigger] t[i]).0 == k || exists|j: int|
            0 <= j < s.len() && (#[trigger] s[j]).0 == t[i].0 by {
            if i > 0 {
                assert(s[i - 1].0 == t[i].0);
            }
        }
    } else {
        let r = s.drop_first();
        assert(sorted(r)) by {
            assert forall|i: int, j: int| #![trigger r[i], r[j]] 0 <= i < j < r.len() implies text::less(
                r[i].0,
                r[j].0,
            ) by {
                assert(r[i] == s[i + 1] && r[j] == s[j + 1]);
            }
        }
        lemma_insert_sorted(r, k, v);
        let u = insert(r, k, v);
        text::lemma_less_total(k, s[0].0);
        assert forall|i: int| 0 <= i < t.len() implies (#[trigger] t[i]).0 == k || exists|j: int|
            0 <= j < s.len() && (#[trigger] s[j]).0 == t[i].0 by {
            if i == 0 {
                assert(s[0].0 == t[0].0);
            } else {
                let e = u[i - 1];
                assert(t[i] == e);
                if e.0 != k {
                    let j = choose|j: int| 0 <= j < r.len() && (#[trigger] r[j]).0 == e.0;
                    assert(s[j + 1].0 == t[i].0);
                }
            }
        }
        assert forall|i: int, j: int| #![trigger t[i], t[j]] 0 <= i < j < t.len() implies text::less(
            t[i].0,
            t[j].0,
        ) by {
            assert(t[j] == u[j - 1]);
            if i > 0 {
                assert(t[i] == u[i - 1]);
            } else if u[j - 1].0 != k {
                let m = choose|m: int| 0 <= m < r.len() && (#[trigger] r[m]).0 == u[j - 1].0;
                assert(r[m] == s[m + 1]);
            }
        }
    }
}

/// A map from strings to `V`, kept in key order.
#[derive(Debug, PartialEq)]
pub struct StrMap<V> {
    entries: Vec<(String, V)>,
}

/// Entries as a model.
pub open spec fn entries_model<V: DeepView>(e: Seq<(String, V)>) -> Seq<(Seq<char>, V::V)> {
    Seq::new(e.len(), |i: int| (e[i].0@, e[i].1.deep_view()))
}

impl<V> StrMap<V> {
    pub closed spec fn spec_entries(&self) -> Seq<(String, V)> {
        self.entries@
    }

    #[verifier::type_invariant]
    spec fn in_order(self) -> bool {
        forall|i: int, j: int|
            #![trigger self.entries@[i], self.entries@[j]]
            0 <= i < j < self.entries@.len() ==> text::less(self.entries@[i].0@, self.entries@[j].0@)
    }
}

impl<V: DeepView> DeepView for StrMap<V> {
    type V = Seq<(Seq<char>, V::V)>;

    open spec fn deep_view(&self) -> Seq<(Seq<char>, V::V)> {
        entries_model(self.spec_entries())
    }
}

impl<V: DeepView> StrMap<V> {
    pub fn new() -> (r: Self)
        ensures
            r.deep_view() == Seq::<(Seq<char>, V::V)>::empty(),
    {
        let r = StrMap { entries: Vec::new() };
        assert(r.deep_view() =~= Seq::<(Seq<char>, V::V)>::empty());
        r
    }

    pub fn len(&self) -> (n: usize)
        ensures
            n == self.deep_view().len(),
            sorted(self.deep_view()),
    {
        proof {
            use_type_invariant(self);
            let s = self.deep_view();
            assert forall|i: int, j: int| #![trigger s[i], s[j]] 0 <= i < j < s.len() implies text::less(
                s[i].0,
                s[j].0,
            ) by {
                assert(text::less(self.entries@[i].0@, self.entries@[j].0@));
            }
        }
        self.entries.len()
    }

    pub fn is_empty(&self) -> (r: bool)
        ensures
            r == (self.deep_view().len() == 0),
    {
        self.entries.len() == 0
    }

    /// The entry at `i`, in key order.
    pub fn at(&self, i: usize) -> (r: (&str, &V))
        requires
            i < self.deep_view().len(),
        ensures
            self.deep_view()[i as int] == (r.0@, r.1.deep_view()),
    {
        (self.entries[i].0.as_str(), &self.entries[i].1)
    }

    pub fn get(&self, k: &str) -> (r: Option<&V>)
        ensures
            r.deep_view() == get(self.deep_view(), k@),
    {
        let ghost s = self.deep_view();
        let mut i: usize = 0;
        assert(s.subrange(0, s.len() as int) =~= s);
        while i < self.entries.len()
            invariant
                s == self.deep_view(),
                i <= self.entries.len(),
                get(s, k@) == get(s.subrange(i as int, s.len() as int), k@),
            decreases self.entries.len() - i,
        {
            let ghost rest = s.subrange(i as int, s.len() as int);
            if text::eq(self.entries[i].0.as_str(), k) {
                assert(rest[0] == s[i as int]);
                return Some(&self.entries[i].1);
            }
            assert(rest.drop_first() =~= s.subrange(i + 1, s.len() as int));
            i = i + 1;
        }
        None
    }

    pub fn contains_key(&self, k: &str) -> (r: bool)
        ensures
            r == get(self.deep_view(), k@) is Some,
    {
        self.get(k).is_some()
    }

    pub fn insert(&mut self, k: String, v: V)
        ensures
            final(self).deep_view() == insert(old(self).deep_view(), k@, v.deep_view()),
            sorted(old(self).deep_view()),
            sorted(final(self).deep_view()),
    {
        proof {
            use_type_invariant(&*self);
            let s = self.deep_view();
            assert forall|i: int, j: int| #![trigger s[i], s[j]] 0 <= i < j < s.len() implies text::less(
                s[i].0,
                s[j].0,
            ) by {
                assert(text::less(self.entries@[i].0@, self.entries@[j].0@));
            }
        }
        let ghost s = self.deep_view();
        let ghost e0 = self.entries@;
        let mut i: usize = 0;
        let mut e: Vec<(String, V)> = Vec::new();
        std::mem::swap(&mut e, &mut self.entries);
        assert(s.subrange(0, s.len() as int) =~= s);
        assert(s.subrange(0, 0) + insert(s, k@, v.deep_view()) =~= insert(s, k@, v.deep_view()));
        while i < e.len() && text::is_less(e[i].0.as_str(), k.as_str())
            invariant
                e@ == e0,
                s == entries_model(e0),
                i <= e.len(),
                insert(s, k@, v.deep_view()) == s.subrange(0, i as int) + insert(
                    s.subrange(i as int, s.len() as int),
                    k@,
                    v.deep_view(),
                ),
            decreases e.len() - i,
        {
            proof {
                let rest = s.subrange(i as int, s.len() as int);
                assert(rest[0] == s[i as int]);
                assert(rest.drop_first() =~= s.subrange(i + 1, s.len() as int));
                text::lemma_less_asymmetric(rest[0].0, k@);
                text::lemma_less_irreflexive(k@);
                assert(s.subrange(0, i as int) + (seq![rest[0]] + insert(rest.drop_first(), k@, v.deep_view()))
                    =~= s.subrange(0, i + 1) + insert(rest.drop_first(), k@, v.deep_view()));
            }
            i = i + 1;
        }
        let ghost rest = s.subrange(i as int, s.len() as int);
        if i < e.len() && text::eq(e[i].0.as_str(), k.as_str()) {
            assert(rest[0] == s[i as int]);
            e.remove(i);
            e.insert(i, (k, v));
        } else {
            proof {
                if i < e0.len() {
                    assert(rest[0] == s[i as int]);
                    text::lemma_less_total(k@, rest[0].0);
                }
            }
            e.insert(i, (k, v));
        }
        proof {
            let t = insert(s, k@, v.deep_view());
            assert(entries_model(e@) =~= t);
            assert(sorted(s)) by {
                assert forall|i: int, j: int| #![trigger s[i], s[j]] 0 <= i < j < s.len() implies text::less(
                    s[i].0,
                    s[j].0,
                ) by {
                    assert(text::less(e0[i].0@, e0[j].0@));
                }
            }
            lemma_insert_sorted(s, k@, v.deep_view());
            assert forall|i: int, j: int| #![trigger e@[i], e@[j]] 0 <= i < j < e@.len() implies text::less(
                e@[i].0@,
                e@[j].0@,
            ) by {
                assert(t[i].0 == e@[i].0@ && t[j].0 == e@[j].0@);
            }
        }
        self.entries = e;
    }
}

/// `base` with every entry of `more` inserted, in order.
pub open spec fn extended<V>(base: Seq<(Seq<char>, V)>, more: Seq<(Seq<char>, V)>) -> Seq<(Seq<char>, V)>
    decreases more.len(),
{
    if more.len() == 0 {
        base
    } else {
        insert(extended(base, more.drop_last()), more.last().0, more.last().1)
    }
}

/// The value that [`extended`] leaves under a key: the later map's, where it has one.
pub proof fn lemma_get_after_extend<V>(base: Seq<(Seq<char>, V)>, more: Seq<(Seq<char>, V)>, q: Seq<char>)
    requires
        sorted(base),
        sorted(more),
    ensures
        sorted(extended(base, more)),
        get(extended(base, more), q) == (match get(more, q) {
            Some(v) => Some(v),
            None => get(base, q),
        }),
    decreases more.len(),
{
    if more.len() > 0 {
        let rest = more.drop_last();
        let k = more.last().0;
        assert(sorted(rest)) by {
            assert forall|i: int, j: int| #![trigger rest[i], rest[j]] 0 <= i < j < rest.len() implies text::less(
                rest[i].0,
                rest[j].0,
            ) by {
                assert(rest[i] == more[i] && rest[j] == more[j]);
            }
        }
        lemma_get_after_extend(base, rest, q);
        lemma_insert_sorted(extended(base, rest), k, more.last().1);
        lemma_get_after_insert(extended(base, rest), k, more.last().1, q);
        lemma_get_of_last(more, q);
    }
}

/// The value under a key, with the last entry set apart.
pub proof fn lemma_get_of_last<V>(s: Seq<(Seq<char>, V)>, q: Seq<char>)
    requires
        sorted(s),
        s.len() > 0,
    ensures
        get(s, q) == (if q == s.last().0 {
            Some(s.last().1)
        } else {
            get(s.drop_last(), q)
        }),
    decreases s.len(),
{
    if s.len() > 1 {
        let r = s.drop_first();
        assert(sorted(r)) by {
            assert forall|i: int, j: int| #![trigger r[i], r[j]] 0 <= i < j < r.len() implies text::less(
                r[i].0,
                r[j].0,
            ) by {
                assert(r[i] == s[i + 1] && r[j] == s[j + 1]);
            }
        }
        lemma_get_of_last(r, q);
        assert(s.drop_last().drop_first() =~= r.drop_last());
        assert(text::less(s[0].0, s[s.len() - 1].0));
        text::lemma_less_irreflexive(s[0].0);
    } else {
        assert(s.drop_first() =~= Seq::<(Seq<char>, V)>::empty());
        assert(s.drop_last() =~= Seq::<(Seq<char>, V)>::empty());
    }
}

/// Nothing is found under a key that no entry has.
pub proof fn lemma_absent<V>(s: Seq<(Seq<char>, V)>, k: Seq<char>)
    requires
        forall|i: int| 0 <= i < s.len() ==> (#[trigger] s[i]).0 != k,
    ensures
        get(s, k) is None,
    decreases s.len(),
{
    if s.len() > 0 {
        let r = s.drop_first();
        assert(s[0].0 != k);
        assert forall|i: int| 0 <= i < r.len() implies (#[trigger] r[i]).0 != k by {
            assert(r[i] == s[i + 1]);
        }
        lemma_absent(r, k);
    }
}

proof fn lemma_absent_above<V>(s: Seq<(Seq<char>, V)>, k: Seq<char>)
    requires
        sorted(s),
        s.len() > 0 ==> text::less(k, s[0].0),
    ensures
        get(s, k) is None,
{
    assert forall|i: int| 0 <= i < s.len() implies (#[trigger] s[i]).0 != k by {
        if i > 0 {
            assert(text::less(s[0].0, s[i].0));
            text::lemma_less_transitive(k, s[0].0, s[i].0);
        }
        text::lemma_less_irreflexive(k);
    }
    lemma_absent(s, k);
}

proof fn lemma_tail_sorted<V>(s: Seq<(Seq<char>, V)>)
    requires
        sorted(s),
        s.len() > 0,
    ensures
        sorted(s.drop_first()),
        s.len() > 1 ==> text::less(s[0].0, s.drop_first()[0].0),
        get(s.drop_first(), s[0].0) is None,
{
    let r = s.drop_first();
    assert forall|i: int, j: int| #![trigger r[i], r[j]] 0 <= i < j < r.len() implies text::less(r[i].0, r[j].0) by {
        assert(r[i] == s[i + 1] && r[j] == s[j + 1]);
    }
    if s.len() > 1 {
        assert(r[0] == s[1]);
        assert(text::less(s[0].0, s[1].0));
    }
    lemma_absent_above(r, s[0].0);
}

/// Two maps that give the same under every key are the same.
pub proof fn lemma_same_under_every_key<V>(a: Seq<(Seq<char>, V)>, b: Seq<(Seq<char>, V)>)
    requires
        sorted(a),
        sorted(b),
        forall|q: Seq<char>| #[trigger] get(a, q) == get(b, q),
    ensures
        a == b,
    decreases a.len(),
{
    if a.len() == 0 || b.len() == 0 {
        if a.len() > 0 {
            assert(get(a, a[0].0) == get(b, a[0].0));
        }
        if b.len() > 0 {
            assert(get(a, b[0].0) == get(b, b[0].0));
        }
        assert(a =~= b);
    } else {
        let (k, l) = (a[0].0, b[0].0);
        assert(get(a, k) == get(b, k));
        assert(get(a, l) == get(b, l));
        text::lemma_less_total(k, l);
        if text::less(k, l) {
            lemma_absent_above(b, k);
        }
        if text::less(l, k) {
            lemma_absent_above(a, l);
        }
        let (r, t) = (a.drop_first(), b.drop_first());
        lemma_tail_sorted(a);
        lemma_tail_sorted(b);
        assert forall|q: Seq<char>| #[trigger] get(r, q) == get(t, q) by {
            assert(get(a, q) == get(b, q));
        }
        lemma_same_under_every_key(r, t);
        assert(a =~= seq![a[0]] + r);
        assert(b =~= seq![b[0]] + t);
    }
}

/// To insert the entries of a map twice is to insert them once.
pub proof fn lemma_extended_twice<V>(base: Seq<(Seq<char>, V)>, more: Seq<(Seq<char>, V)>)
    requires
        sorted(base),
        sorted(more),
    ensures
        extended(extended(base, more), more) == extended(base, more),
{
    let once = extended(base, more);
    let twice = extended(once, more);
    lemma_get_after_extend(base, more, Seq::empty());
    lemma_get_after_extend(once, more, Seq::empty());
    assert forall|q: Seq<char>| #[trigger] get(twice, q) == get(once, q) by {
        lemma_get_after_extend(base, more, q);
        lemma_get_after_extend(once, more, q);
    }
    lemma_same_under_every_key(twice, once);
}

proof fn lemma_extended_from_empty<V>(s: Seq<(Seq<char>, V)>)
    requires
        sorted(s),
    ensures
        extended(Seq::empty(), s) == s,
    decreases s.len(),
{
    if s.len() > 0 {
        let r = s.drop_last();
        assert(sorted(r)) by {
            assert forall|i: int, j: int| #![trigger r[i], r[j]] 0 <= i < j < r.len() implies text::less(
                r[i].0,
                r[j].0,
            ) by {
                assert(r[i] == s[i] && r[j] == s[j]);
            }
        }
        lemma_extended_from_empty(r);
        lemma_insert_at_end(r, s.last().0, s.last().1);
        assert(r.push(s.last()) =~= s);
    } else {
        assert(s =~= Seq::empty());
    }
}

/// A key above all others goes to the end.
pub proof fn lemma_insert_at_end<V>(s: Seq<(Seq<char>, V)>, k: Seq<char>, v: V)
    requires
        forall|i: int| 0 <= i < s.len() ==> text::less((#[trigger] s[i]).0, k),
    ensures
        insert(s, k, v) == s.push((k, v)),
    decreases s.len(),
{
    if s.len() > 0 {
        let r = s.drop_first();
        assert(text::less(s[0].0, k));
        text::lemma_less_irreflexive(k);
        text::lemma_less_asymmetric(s[0].0, k);
        assert forall|i: int| 0 <= i < r.len() implies text::less((#[trigger] r[i]).0, k) by {
            assert(r[i] == s[i + 1]);
        }
        lemma_insert_at_end(r, k, v);
        assert(seq![s[0]] + r.push((k, v)) =~= s.push((k, v)));
    } else {
        assert(seq![(k, v)] =~= s.push((k, v)));
    }
}

/// Entries with different keys can be inserted in either order.
pub proof fn lemma_inserts_commute<V>(s: Seq<(Seq<char>, V)>, k: Seq<char>, v: V, l: Seq<char>, w: V)
    requires
        k != l,
    ensures
        insert(insert(s, k, v), l, w) == insert(insert(s, l, w), k, v),
    decreases s.len(),
{
    text::lemma_less_total(k, l);
    text::lemma_less_irreflexive(k);
    text::lemma_less_irreflexive(l);
    if text::less(k, l) {
        text::lemma_less_asymmetric(k, l);
    } else {
        text::lemma_less_asymmetric(l, k);
    }
    if s.len() > 0 {
        let h = s[0].0;
        let r = s.drop_first();
        lemma_inserts_commute(r, k, v, l, w);
        text::lemma_less_total(k, h);
        text::lemma_less_total(l, h);
        text::lemma_less_irreflexive(h);
        if text::less(k, l) && text::less(l, h) {
            text::lemma_less_transitive(k, l, h);
        }
        if text::less(l, k) && text::less(k, h) {
            text::lemma_less_transitive(l, k, h);
        }
        if text::less(k, h) {
            text::lemma_less_asymmetric(k, h);
        }
        if text::less(l, h) {
            text::lemma_less_asymmetric(l, h);
        }
        let a = insert(s, k, v);
        let b = insert(s, l, w);
        assert(a.drop_first() =~= (if text::less(k, h) {
            s
        } else if k == h {
            r
        } else {
            insert(r, k, v)
        }));
        assert(b.drop_first() =~= (if text::less(l, h) {
            s
        } else if l == h {
            r
        } else {
            insert(r, l, w)
        }));
        assert(a[0] == (if text::less(k, h) || k == h {
            (k, v)
        } else {
            s[0]
        }));
        assert(b[0] == (if text::less(l, h) || l == h {
            (l, w)
        } else {
            s[0]
        }));
        if text::less(k, h) && text::less(l, h) {
            assert(insert(a.drop_first(), l, w) == b);
            assert(insert(b.drop_first(), k, v) == a);
            if text::less(k, l) {
                assert(insert(a, l, w) =~= seq![(k, v)] + b);
                assert(insert(b, k, v) =~= seq![(k, v)] + b);
            } else {
                assert(insert(a, l, w) =~= seq![(l, w)] + a);
                assert(insert(b, k, v) =~= seq![(l, w)] + a);
            }
        } else if text::less(k, h) {
            assert(insert(a.drop_first(), l, w) == b);
            assert(insert(a, l, w) =~= seq![(k, v)] + b);
            assert(insert(b, k, v) =~= seq![(k, v)] + b);
        } else if text::less(l, h) {
            assert(insert(b.drop_first(), k, v) == a);
            assert(insert(a, l, w) =~= seq![(l, w)] + a);
            assert(insert(b, k, v) =~= seq![(l, w)] + a);
        } else if k == h {
            assert(insert(a, l, w) =~= seq![(k, v)] + insert(r, l, w));
            assert(insert(b, k, v) =~= seq![(k, v)] + insert(r, l, w));
        } else if l == h {
            assert(insert(a, l, w) =~= seq![(l, w)] + insert(r, k, v));
            assert(insert(b, k, v) =~= seq![(l, w)] + insert(r, k, v));
        } else {
            assert(insert(a, l, w) =~= seq![s[0]] + insert(insert(r, k, v), l, w));
            assert(insert(b, k, v) =~= seq![s[0]] + insert(insert(r, l, w), k, v));
        }
    } else {
        let a = insert(s, k, v);
        let b = insert(s, l, w);
        assert(a.drop_first() =~= s);
        assert(b.drop_first() =~= s);
        assert(insert(a, l, w) =~= insert(b, k, v));
    }
}

impl<V: Duplicate> StrMap<V> {
    /// Inserts a copy of every entry of `more`.
    pub fn extend_from(&mut self, more: &StrMap<V>)
        ensures
            final(self).deep_view() == extended(old(self).deep_view(), more.deep_view()),
    {
        let ghost base = self.deep_view();
        let ghost all = more.deep_view();
        let mut i: usize = 0;
        let n: usize = more.len();
        while i < n
            invariant
                n == all.len(),
                all == more.deep_view(),
                i <= n,
                self.deep_view() == extended(base, all.subrange(0, i as int)),
            decreases n - i,
        {
            let (k, v) = more.at(i);
            self.insert(k.to_owned(), v.duplicate());
            i = i + 1;
            assert(all.subrange(0, i as int).drop_last() =~= all.subrange(0, i - 1));
        }
        assert(all.subrange(0, n as int) =~= all);
    }
}

impl<V: Duplicate> Duplicate for StrMap<V> {
    fn duplicate(&self) -> (r: Self) {
        let mut out = StrMap::new();
        out.extend_from(self);
        // The length comes with the order of the keys.
        let _n: usize = self.len();
        proof {
            lemma_extended_from_empty(self.deep_view());
        }
        out
    }
}

} // verus!
