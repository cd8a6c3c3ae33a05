//! What holds of every installation.

use vstd::prelude::*;

use super::Rank;
use crate::devcontainer::native::feature::ResolvedModel;
use crate::devcontainer::native::oci::{self, FeatureKind};
use crate::text;

verus! {

broadcast use vstd::seq_lib::group_to_multiset_ensures;

// ----------------------------------------------------------------------------------------------
// Nothing is lost
// ----------------------------------------------------------------------------------------------

proof fn lemma_rounds_keep(
    work: Seq<ResolvedModel>,
    all: Seq<ResolvedModel>,
    done: Seq<ResolvedModel>,
    order: Seq<Seq<char>>,
)
    requires
        super::rounds(work, all, done, order) is Ok,
    ensures
        super::rounds(work, all, done, order)->Ok_0.to_multiset() == work.to_multiset().add(done.to_multiset()),
    decreases work.len(),
{
    if work.len() == 0 {
        assert(work.to_multiset().add(done.to_multiset()) =~= done.to_multiset());
    } else {
        let now = super::ready(work, all, done);
        super::lemma_round_shrinks(work, all, done, order);
        lemma_rounds_keep(
            super::waiting(work, all, done) + super::deferred(now, order),
            all,
            done + super::sorted(super::foremost(now, order)),
            order,
        );
    }
}

/// Exactly the Features that were asked for are installed, each as often as it was asked for.
pub proof fn law_nothing_is_lost(fs: Seq<ResolvedModel>, order: Seq<Seq<char>>)
    requires
        super::installed(fs, order) is Ok,
    ensures
        super::installed(fs, order)->Ok_0.to_multiset() == fs.to_multiset(),
{
    lemma_rounds_keep(fs, fs, Seq::empty(), order);
    assert(fs.to_multiset().add(Seq::<ResolvedModel>::empty().to_multiset()) =~= fs.to_multiset());
}

// ----------------------------------------------------------------------------------------------
// Dependencies come first
// ----------------------------------------------------------------------------------------------

/// Whether one of some Features is known by a key.
pub open spec fn is_known(fs: Seq<ResolvedModel>, key: Seq<char>) -> bool {
    exists|j: int| 0 <= j < fs.len() && (#[trigger] fs[j]).key() == key
}

/// Whether one of some Features goes by a name.
pub open spec fn is_named(fs: Seq<ResolvedModel>, name: Seq<char>) -> bool {
    exists|j: int| 0 <= j < fs.len() && (#[trigger] fs[j]).reference.untagged() == name
}

/// Whether a Feature finds everything that it depends on among `before`, and everything that it asks to
/// follow and that is one of `all`.
pub open spec fn finds_its_own(f: ResolvedModel, all: Seq<ResolvedModel>, before: Seq<ResolvedModel>) -> bool {
    &&& forall|d: int| 0 <= d < f.hard_deps.len() ==> is_known(before, #[trigger] f.hard_deps[d])
    &&& forall|h: int|
        0 <= h < f.metadata.installs_after.len() && is_named(
            all,
            super::bare_entry(#[trigger] f.metadata.installs_after[h]),
        ) ==> is_named(before, super::bare_entry(f.metadata.installs_after[h]))
}

proof fn lemma_finds(f: ResolvedModel, all: Seq<ResolvedModel>, before: Seq<ResolvedModel>)
    ensures
        finds_its_own(f, all, before) == super::eligible(f, all, before),
{
    assert forall|key: Seq<char>| #[trigger] is_known(before, key) == super::has_key(before, key) by {}
    assert forall|name: Seq<char>| #[trigger] is_named(before, name) == super::has_name(before, name) by {}
    assert forall|name: Seq<char>| #[trigger] is_named(all, name) == super::has_name(all, name) by {}
    if finds_its_own(f, all, before) {
        assert forall|i: int| 0 <= i < f.hard_deps.len() implies super::has_key(before, #[trigger] f.hard_deps[i]) by {
            assert(is_known(before, f.hard_deps[i]));
        }
        assert forall|i: int| 0 <= i < f.metadata.installs_after.len() implies !super::has_name(
            all,
            super::bare_entry(#[trigger] f.metadata.installs_after[i]),
        ) || super::has_name(before, super::bare_entry(f.metadata.installs_after[i])) by {
            let h = super::bare_entry(f.metadata.installs_after[i]);
            assert(is_named(all, h) == super::has_name(all, h));
            assert(is_named(before, h) == super::has_name(before, h));
        }
    }
}

/// An order in which every Feature finds what it depends on already installed.
pub open spec fn legal(way: Seq<ResolvedModel>, all: Seq<ResolvedModel>) -> bool {
    forall|i: int| 0 <= i < way.len() ==> finds_its_own(#[trigger] way[i], all, way.subrange(0, i))
}

proof fn lemma_eligible_grows(
    f: ResolvedModel,
    all: Seq<ResolvedModel>,
    done: Seq<ResolvedModel>,
    more: Seq<ResolvedModel>,
)
    requires
        super::eligible(f, all, done),
        forall|i: int| 0 <= i < done.len() ==> more.contains(#[trigger] done[i]),
    ensures
        super::eligible(f, all, more),
{
    assert forall|i: int| 0 <= i < f.hard_deps.len() implies super::has_key(more, #[trigger] f.hard_deps[i]) by {
        let k = choose|k: int| 0 <= k < done.len() && (#[trigger] done[k]).key() == f.hard_deps[i];
        assert(more.contains(done[k]));
        let m = choose|m: int| 0 <= m < more.len() && more[m] == done[k];
        assert(more[m].key() == f.hard_deps[i]);
    }
    assert forall|i: int| 0 <= i < f.metadata.installs_after.len() implies !super::has_name(
        all,
        super::bare_entry(#[trigger] f.metadata.installs_after[i]),
    ) || super::has_name(more, super::bare_entry(f.metadata.installs_after[i])) by {
        let h = super::bare_entry(f.metadata.installs_after[i]);
        if super::has_name(all, h) {
            let k = choose|k: int| 0 <= k < done.len() && (#[trigger] done[k]).reference.untagged() == h;
            assert(more.contains(done[k]));
            let m = choose|m: int| 0 <= m < more.len() && more[m] == done[k];
            assert(more[m].reference.untagged() == h);
        }
    }
}

proof fn lemma_same_members(a: Seq<ResolvedModel>, b: Seq<ResolvedModel>, x: ResolvedModel)
    requires
        a.to_multiset() == b.to_multiset(),
        a.contains(x),
    ensures
        b.contains(x),
{
    assert(a.to_multiset().count(x) > 0);
}

proof fn lemma_rounds_legal(
    work: Seq<ResolvedModel>,
    all: Seq<ResolvedModel>,
    done: Seq<ResolvedModel>,
    order: Seq<Seq<char>>,
)
    requires
        legal(done, all),
        super::rounds(work, all, done, order) is Ok,
    ensures
        legal(super::rounds(work, all, done, order)->Ok_0, all),
    decreases work.len(),
{
    if work.len() > 0 {
        let now = super::ready(work, all, done);
        let p = |f: ResolvedModel| super::eligible(f, all, done);
        let first = super::foremost(now, order);
        let more = done + super::sorted(first);
        super::lemma_round_shrinks(work, all, done, order);
        super::lemma_sorted_keeps(first);
        assert forall|i: int| 0 <= i < more.len() implies finds_its_own(#[trigger] more[i], all, more.subrange(0, i)) by {
            lemma_finds(more[i], all, more.subrange(0, i));
            if i < done.len() {
                assert(more[i] == done[i]);
                assert(more.subrange(0, i) =~= done.subrange(0, i));
                lemma_finds(done[i], all, done.subrange(0, i));
            } else {
                let s = super::sorted(first);
                let x = s[i - done.len()];
                assert(s.contains(x));
                lemma_same_members(s, first, x);
                now.lemma_filter_contains_rev(
                    |f: ResolvedModel| super::priority(f, order) == super::top_priority(now, order),
                    x,
                );
                let k = choose|k: int| 0 <= k < now.len() && now[k] == x;
                work.lemma_filter_pred(p, k);
                assert(p(x));
                let head = more.subrange(0, i);
                assert forall|j: int| 0 <= j < done.len() implies head.contains(#[trigger] done[j]) by {
                    assert(head[j] == done[j]);
                }
                lemma_eligible_grows(x, all, done, head);
            }
        }
        lemma_rounds_legal(
            super::waiting(work, all, done) + super::deferred(now, order),
            all,
            more,
            order,
        );
    }
}

/// Whatever priorities are asked for, a Feature is installed after everything that it depends on, and
/// after everything that it asks to follow and that is installed at all.
pub proof fn law_dependencies_come_first(fs: Seq<ResolvedModel>, order: Seq<Seq<char>>)
    requires
        super::installed(fs, order) is Ok,
    ensures
        legal(super::installed(fs, order)->Ok_0, fs),
{
    lemma_rounds_legal(fs, fs, Seq::empty(), order);
}

// ----------------------------------------------------------------------------------------------
// Refusals
// ----------------------------------------------------------------------------------------------

proof fn lemma_rounds_find(
    work: Seq<ResolvedModel>,
    all: Seq<ResolvedModel>,
    done: Seq<ResolvedModel>,
    order: Seq<Seq<char>>,
    way: Seq<ResolvedModel>,
)
    requires
        legal(way, all),
        way.to_multiset() == work.to_multiset().add(done.to_multiset()),
    ensures
        super::rounds(work, all, done, order) is Ok,
    decreases work.len(),
{
    if work.len() > 0 {
        let i = first_in(way, work, 0);
        assert(work.contains(work[0]));
        assert(way.to_multiset().count(work[0]) > 0);
        assert(way.contains(work[0]));
        lemma_first_in(way, work, 0);
        let head = way.subrange(0, i);
        assert forall|j: int| 0 <= j < head.len() implies done.contains(#[trigger] head[j]) by {
            assert(head[j] == way[j]);
            assert(way.contains(way[j]));
            assert(way.to_multiset().count(way[j]) > 0);
            assert(work.to_multiset().count(way[j]) == 0);
            assert(done.to_multiset().count(way[j]) > 0);
        }
        lemma_finds(way[i], all, head);
        lemma_eligible_grows(way[i], all, head, done);
        let p = |f: ResolvedModel| super::eligible(f, all, done);
        let k = choose|k: int| 0 <= k < work.len() && work[k] == way[i];
        assert(p(work[k]));
        work.lemma_filter_contains(p, k);
        let now = super::ready(work, all, done);
        assert(now.len() > 0);
        super::lemma_round_shrinks(work, all, done, order);
        lemma_rounds_find(
            super::waiting(work, all, done) + super::deferred(now, order),
            all,
            done + super::sorted(super::foremost(now, order)),
            order,
            way,
        );
    }
}

/// The first place in `way`, from `i` on, that holds one of `work`.
spec fn first_in(way: Seq<ResolvedModel>, work: Seq<ResolvedModel>, i: int) -> int
    decreases way.len() - i,
{
    if i >= way.len() || work.contains(way[i]) {
        i
    } else {
        first_in(way, work, i + 1)
    }
}

proof fn lemma_first_in(way: Seq<ResolvedModel>, work: Seq<ResolvedModel>, i: int)
    requires
        0 <= i <= way.len(),
        exists|k: int| i <= k < way.len() && work.contains(#[trigger] way[k]),
    ensures
        i <= first_in(way, work, i) < way.len(),
        work.contains(way[first_in(way, work, i)]),
        forall|j: int| i <= j < first_in(way, work, i) ==> !work.contains(#[trigger] way[j]),
    decreases way.len() - i,
{
    if i < way.len() && !work.contains(way[i]) {
        let k = choose|k: int| i <= k < way.len() && work.contains(#[trigger] way[k]);
        assert(k != i);
        lemma_first_in(way, work, i + 1);
    }
}

/// Features are refused only where no order at all would do.
pub proof fn law_an_order_is_found_where_there_is_one(
    fs: Seq<ResolvedModel>,
    order: Seq<Seq<char>>,
    way: Seq<ResolvedModel>,
)
    requires
        way.to_multiset() == fs.to_multiset(),
        legal(way, fs),
    ensures
        super::installed(fs, order) is Ok,
{
    assert(fs.to_multiset().add(Seq::<ResolvedModel>::empty().to_multiset()) =~= fs.to_multiset());
    lemma_rounds_find(fs, fs, Seq::empty(), order, way);
}

proof fn lemma_rounds_stuck(
    work: Seq<ResolvedModel>,
    all: Seq<ResolvedModel>,
    done: Seq<ResolvedModel>,
    order: Seq<Seq<char>>,
) -> (r: (Seq<ResolvedModel>, Seq<ResolvedModel>))
    requires
        super::rounds(work, all, done, order) is Err,
    ensures
        r.0.len() > 0,
        super::rounds(work, all, done, order)->Err_0 == super::circular(r.0),
        r.0.to_multiset().add(r.1.to_multiset()) == work.to_multiset().add(done.to_multiset()),
        forall|i: int| 0 <= i < r.0.len() ==> !super::eligible(#[trigger] r.0[i], all, r.1),
    decreases work.len(),
{
    let now = super::ready(work, all, done);
    if now.len() == 0 {
        let p = |f: ResolvedModel| super::eligible(f, all, done);
        assert forall|i: int| 0 <= i < work.len() implies !super::eligible(#[trigger] work[i], all, done) by {
            if super::eligible(work[i], all, done) {
                assert(p(work[i]));
                work.lemma_filter_contains(p, i);
            }
        }
        (work, done)
    } else {
        super::lemma_round_shrinks(work, all, done, order);
        lemma_rounds_stuck(
            super::waiting(work, all, done) + super::deferred(now, order),
            all,
            done + super::sorted(super::foremost(now, order)),
            order,
        )
    }
}

/// A refusal names Features each of which waits for one that is not installed.
pub proof fn law_a_refusal_names_the_stuck(fs: Seq<ResolvedModel>, order: Seq<Seq<char>>) -> (r: (
    Seq<ResolvedModel>,
    Seq<ResolvedModel>,
))
    requires
        super::installed(fs, order) is Err,
    ensures
        r.0.len() > 0,
        super::installed(fs, order)->Err_0 == super::circular(r.0),
        r.0.to_multiset().add(r.1.to_multiset()) == fs.to_multiset(),
        forall|i: int| 0 <= i < r.0.len() ==> !finds_its_own(#[trigger] r.0[i], fs, r.1),
{
    let r = lemma_rounds_stuck(fs, fs, Seq::empty(), order);
    assert forall|i: int| 0 <= i < r.0.len() implies !finds_its_own(#[trigger] r.0[i], fs, r.1) by {
        lemma_finds(r.0[i], fs, r.1);
    }
    assert(fs.to_multiset().add(Seq::<ResolvedModel>::empty().to_multiset()) =~= fs.to_multiset());
    r
}

// ----------------------------------------------------------------------------------------------
// Entries that name nothing
// ----------------------------------------------------------------------------------------------

proof fn lemma_unnamed(f: ResolvedModel, order: Seq<Seq<char>>)
    requires
        forall|i: int| 0 <= i < order.len() ==> !super::names(#[trigger] order[i], f),
    ensures
        super::priority(f, order) == 0,
    decreases order.len(),
{
    if order.len() > 0 {
        assert(!super::names(order[0], f));
        let rest = order.drop_first();
        assert forall|i: int| 0 <= i < rest.len() implies !super::names(#[trigger] rest[i], f) by {
            assert(rest[i] == order[i + 1]);
        }
        lemma_unnamed(f, rest);
    }
}

proof fn lemma_filter_agrees(
    s: Seq<ResolvedModel>,
    p: spec_fn(ResolvedModel) -> bool,
    q: spec_fn(ResolvedModel) -> bool,
)
    requires
        forall|i: int| 0 <= i < s.len() ==> p(#[trigger] s[i]) == q(s[i]),
    ensures
        s.filter(p) == s.filter(q),
    decreases s.len(),
{
    reveal(Seq::filter);
    if s.len() > 0 {
        let r = s.drop_last();
        assert(s[s.len() - 1] == s.last());
        assert forall|i: int| 0 <= i < r.len() implies p(#[trigger] r[i]) == q(r[i]) by {
            assert(r[i] == s[i]);
        }
        lemma_filter_agrees(r, p, q);
    }
}

proof fn lemma_top_zero(fs: Seq<ResolvedModel>, order: Seq<Seq<char>>)
    requires
        forall|i: int| 0 <= i < fs.len() ==> super::priority(#[trigger] fs[i], order) == 0,
    ensures
        super::top_priority(fs, order) == 0,
    decreases fs.len(),
{
    if fs.len() > 0 {
        assert(fs[fs.len() - 1] == fs.last());
        let r = fs.drop_last();
        assert forall|i: int| 0 <= i < r.len() implies super::priority(#[trigger] r[i], order) == 0 by {
            assert(r[i] == fs[i]);
        }
        lemma_top_zero(r, order);
    }
}

proof fn lemma_rounds_unnamed(
    work: Seq<ResolvedModel>,
    all: Seq<ResolvedModel>,
    done: Seq<ResolvedModel>,
    order: Seq<Seq<char>>,
)
    requires
        forall|i: int| 0 <= i < work.len() ==> super::priority(#[trigger] work[i], order) == 0,
    ensures
        super::rounds(work, all, done, order) == super::rounds(work, all, done, Seq::empty()),
    decreases work.len(),
{
    let none = Seq::<Seq<char>>::empty();
    let now = super::ready(work, all, done);
    if work.len() > 0 && now.len() > 0 {
        let p = |f: ResolvedModel| super::eligible(f, all, done);
        let q = |f: ResolvedModel| !super::eligible(f, all, done);
        assert forall|i: int| 0 <= i < now.len() implies super::priority(#[trigger] now[i], order) == 0 by {
            assert(now.contains(now[i]));
            work.lemma_filter_contains_rev(p, now[i]);
        }
        lemma_top_zero(now, order);
        lemma_top_zero(now, none);
        lemma_filter_agrees(
            now,
            |f: ResolvedModel| super::priority(f, order) == super::top_priority(now, order),
            |f: ResolvedModel| super::priority(f, none) == super::top_priority(now, none),
        );
        lemma_filter_agrees(
            now,
            |f: ResolvedModel| super::priority(f, order) != super::top_priority(now, order),
            |f: ResolvedModel| super::priority(f, none) != super::top_priority(now, none),
        );
        super::lemma_round_shrinks(work, all, done, order);
        let rest = super::waiting(work, all, done) + super::deferred(now, order);
        assert forall|i: int| 0 <= i < rest.len() implies super::priority(#[trigger] rest[i], order) == 0 by {
            let w = super::waiting(work, all, done);
            if i < w.len() {
                assert(w.contains(w[i]));
                work.lemma_filter_contains_rev(q, w[i]);
            } else {
                let d = super::deferred(now, order);
                let x = d[i - w.len()];
                assert(d.contains(x));
                now.lemma_filter_contains_rev(
                    |f: ResolvedModel| super::priority(f, order) != super::top_priority(now, order),
                    x,
                );
            }
        }
        lemma_rounds_unnamed(rest, all, done + super::sorted(super::foremost(now, order)), order);
    }
}

/// An `overrideFeatureInstallOrder` that names none of the Features changes nothing.
pub proof fn law_unmatched_entries_change_nothing(fs: Seq<ResolvedModel>, order: Seq<Seq<char>>)
    requires
        forall|i: int| 0 <= i < order.len() ==> !super::names_any(#[trigger] order[i], fs),
    ensures
        super::installed(fs, order) == super::installed(fs, Seq::empty()),
{
    assert forall|k: int| 0 <= k < fs.len() implies super::priority(#[trigger] fs[k], order) == 0 by {
        assert forall|i: int| 0 <= i < order.len() implies !super::names(#[trigger] order[i], fs[k]) by {
            assert(!super::names_any(order[i], fs));
        }
        lemma_unnamed(fs[k], order);
    }
    lemma_rounds_unnamed(fs, fs, Seq::empty(), order);
}

// ----------------------------------------------------------------------------------------------
// The order of the input
// ----------------------------------------------------------------------------------------------

proof fn lemma_text_rank_reversed(a: Seq<char>, b: Seq<char>)
    ensures
        super::text_rank(b, a) == super::reversed(super::text_rank(a, b)),
{
    text::lemma_less_total(a, b);
    text::lemma_less_irreflexive(a);
    if text::less(a, b) {
        text::lemma_less_asymmetric(a, b);
    }
    if text::less(b, a) {
        text::lemma_less_asymmetric(b, a);
    }
}

proof fn lemma_list_rank_reversed(a: Seq<Seq<char>>, b: Seq<Seq<char>>, versions: bool)
    ensures
        super::list_rank(b, a, versions) == super::reversed(super::list_rank(a, b, versions)),
    decreases a.len(),
{
    if a.len() > 0 && b.len() > 0 {
        lemma_text_rank_reversed(a[0], b[0]);
        lemma_list_rank_reversed(a.drop_first(), b.drop_first(), versions);
    }
}

/// Of two Features in one round each stands to the other as it should.
pub proof fn law_ranks_are_reversible(a: ResolvedModel, b: ResolvedModel)
    ensures
        super::round_rank(b, a) == super::reversed(super::round_rank(a, b)),
{
    reveal(super::round_rank);
    lemma_text_rank_reversed(a.reference.untagged(), b.reference.untagged());
    lemma_list_rank_reversed(text::split_at(a.reference.tag, '.'), text::split_at(b.reference.tag, '.'), true);
    lemma_list_rank_reversed(super::option_names(a), super::option_names(b), false);
    lemma_list_rank_reversed(super::option_values(a), super::option_values(b), false);
    lemma_text_rank_reversed(a.digest, b.digest);
}

/// Features that the comparison puts into one line: it tells any two of them apart, and it goes round
/// in no circle. Version tags that mix numbers and words can make one: `9`, `10` and `1b` do.
pub open spec fn well_ranked(fs: Seq<ResolvedModel>) -> bool {
    &&& forall|i: int, j: int|
        0 <= i < fs.len() && 0 <= j < fs.len() && #[trigger] super::round_rank(fs[i], fs[j]) == Rank::Same ==> fs[i]
            == fs[j]
    &&& forall|i: int, j: int, k: int|
        0 <= i < fs.len() && 0 <= j < fs.len() && 0 <= k < fs.len() && #[trigger] super::round_rank(fs[i], fs[j])
            == Rank::Before && #[trigger] super::round_rank(fs[j], fs[k]) == Rank::Before ==> super::round_rank(
            fs[i],
            fs[k],
        ) == Rank::Before
}

/// All of `s` are among `fs`.
pub open spec fn among(s: Seq<ResolvedModel>, fs: Seq<ResolvedModel>) -> bool {
    forall|i: int| 0 <= i < s.len() ==> fs.contains(#[trigger] s[i])
}

/// No Feature stands before one that comes before it.
pub open spec fn in_rank_order(s: Seq<ResolvedModel>) -> bool {
    forall|i: int, j: int|
        #![trigger s[i], s[j]]
        0 <= i < j < s.len() ==> super::round_rank(s[j], s[i]) != Rank::Before
}

proof fn lemma_transitive(fs: Seq<ResolvedModel>, a: ResolvedModel, b: ResolvedModel, c: ResolvedModel)
    requires
        well_ranked(fs),
        fs.contains(a),
        fs.contains(b),
        fs.contains(c),
        super::round_rank(a, b) == Rank::Before,
        super::round_rank(b, c) == Rank::Before,
    ensures
        super::round_rank(a, c) == Rank::Before,
{
    let i = choose|i: int| 0 <= i < fs.len() && fs[i] == a;
    let j = choose|j: int| 0 <= j < fs.len() && fs[j] == b;
    let k = choose|k: int| 0 <= k < fs.len() && fs[k] == c;
    assert(super::round_rank(fs[i], fs[j]) == Rank::Before);
    assert(super::round_rank(fs[j], fs[k]) == Rank::Before);
}

proof fn lemma_same_is_equal(fs: Seq<ResolvedModel>, a: ResolvedModel, b: ResolvedModel)
    requires
        well_ranked(fs),
        fs.contains(a),
        fs.contains(b),
        super::round_rank(a, b) == Rank::Same,
    ensures
        a == b,
{
    let i = choose|i: int| 0 <= i < fs.len() && fs[i] == a;
    let j = choose|j: int| 0 <= j < fs.len() && fs[j] == b;
    assert(super::round_rank(fs[i], fs[j]) == Rank::Same);
}

proof fn lemma_placed_in_order(s: Seq<ResolvedModel>, x: ResolvedModel, fs: Seq<ResolvedModel>)
    requires
        well_ranked(fs),
        among(s, fs),
        fs.contains(x),
        in_rank_order(s),
    ensures
        in_rank_order(super::placed(s, x)),
        among(super::placed(s, x), fs),
    decreases s.len(),
{
    super::lemma_placed_keeps(s, x);
    let out = super::placed(s, x);
    if s.len() > 0 && super::round_rank(x, s.last()) == Rank::Before {
        let r = s.drop_last();
        assert(in_rank_order(r)) by {
            assert forall|i: int, j: int| #![trigger r[i], r[j]] 0 <= i < j < r.len() implies super::round_rank(
                r[j],
                r[i],
            ) != Rank::Before by {
                assert(r[i] == s[i] && r[j] == s[j]);
            }
        }
        assert(among(r, fs)) by {
            assert forall|i: int| 0 <= i < r.len() implies fs.contains(#[trigger] r[i]) by {
                assert(r[i] == s[i]);
            }
        }
        lemma_placed_in_order(r, x, fs);
        super::lemma_placed_keeps(r, x);
        let q = super::placed(r, x);
        assert(s[s.len() - 1] == s.last());
        assert forall|i: int, j: int| #![trigger out[i], out[j]] 0 <= i < j < out.len() implies super::round_rank(
            out[j],
            out[i],
        ) != Rank::Before by {
            if j < q.len() {
                assert(out[i] == q[i] && out[j] == q[j]);
            } else {
                assert(out[j] == s.last() && out[i] == q[i]);
                assert(q.contains(q[i]));
                assert(q.to_multiset().count(q[i]) > 0);
                if q[i] == x {
                    law_ranks_are_reversible(x, s.last());
                } else {
                    assert(r.to_multiset().count(q[i]) > 0);
                    assert(r.contains(q[i]));
                    let k = choose|k: int| 0 <= k < r.len() && r[k] == q[i];
                    assert(s[k] == q[i]);
                }
            }
        }
        assert forall|i: int| 0 <= i < out.len() implies fs.contains(#[trigger] out[i]) by {
            if i < q.len() {
                assert(out[i] == q[i]);
            }
        }
    } else {
        assert forall|i: int, j: int| #![trigger out[i], out[j]] 0 <= i < j < out.len() implies super::round_rank(
            out[j],
            out[i],
        ) != Rank::Before by {
            if j < s.len() {
                assert(out[i] == s[i] && out[j] == s[j]);
            } else {
                assert(out[i] == s[i]);
                assert(s[s.len() - 1] == s.last());
                if super::round_rank(x, s[i]) == Rank::Before && i < s.len() - 1 {
                    assert(super::round_rank(s[s.len() - 1], s[i]) != Rank::Before);
                    law_ranks_are_reversible(s[i], s.last());
                    if super::round_rank(s[i], s.last()) == Rank::Same {
                        lemma_same_is_equal(fs, s[i], s.last());
                    } else {
                        lemma_transitive(fs, x, s[i], s.last());
                    }
                }
            }
        }
        assert forall|i: int| 0 <= i < out.len() implies fs.contains(#[trigger] out[i]) by {
            if i < s.len() {
                assert(out[i] == s[i]);
            }
        }
    }
}

proof fn lemma_sorted_in_order(s: Seq<ResolvedModel>, fs: Seq<ResolvedModel>)
    requires
        well_ranked(fs),
        among(s, fs),
    ensures
        in_rank_order(super::sorted(s)),
        among(super::sorted(s), fs),
    decreases s.len(),
{
    if s.len() > 0 {
        let r = s.drop_last();
        assert(among(r, fs)) by {
            assert forall|i: int| 0 <= i < r.len() implies fs.contains(#[trigger] r[i]) by {
                assert(r[i] == s[i]);
            }
        }
        assert(s[s.len() - 1] == s.last());
        lemma_sorted_in_order(r, fs);
        lemma_placed_in_order(super::sorted(r), s.last(), fs);
    }
}

proof fn lemma_one_order(a: Seq<ResolvedModel>, b: Seq<ResolvedModel>, fs: Seq<ResolvedModel>)
    requires
        well_ranked(fs),
        among(a, fs),
        among(b, fs),
        in_rank_order(a),
        in_rank_order(b),
        a.to_multiset() == b.to_multiset(),
    ensures
        a == b,
    decreases a.len(),
{
    assert(a.len() == a.to_multiset().len());
    assert(b.len() == b.to_multiset().len());
    if a.len() > 0 {
        let x = a.last();
        let y = b.last();
        assert(a[a.len() - 1] == x && b[b.len() - 1] == y);
        assert(a.contains(x) && b.contains(y));
        lemma_same_members(a, b, x);
        lemma_same_members(b, a, y);
        let i = choose|i: int| 0 <= i < b.len() && b[i] == x;
        let j = choose|j: int| 0 <= j < a.len() && a[j] == y;
        assert(x == y) by {
            law_ranks_are_reversible(x, y);
            if i < b.len() - 1 && j < a.len() - 1 {
                assert(super::round_rank(b[b.len() - 1], b[i]) != Rank::Before);
                assert(super::round_rank(a[a.len() - 1], a[j]) != Rank::Before);
                lemma_same_is_equal(fs, x, y);
            }
        }
        let c = a.drop_last();
        let d = b.drop_last();
        assert(a =~= c.push(x) && b =~= d.push(x));
        assert(c.to_multiset() =~= d.to_multiset()) by {
            assert(c.push(x).to_multiset() == c.to_multiset().insert(x));
            assert(d.push(x).to_multiset() == d.to_multiset().insert(x));
            assert forall|v: ResolvedModel| c.to_multiset().count(v) == d.to_multiset().count(v) by {
                assert(c.to_multiset().insert(x).count(v) == d.to_multiset().insert(x).count(v));
            }
        }
        assert forall|i: int, j: int| #![trigger c[i], c[j]] 0 <= i < j < c.len() implies super::round_rank(c[j], c[i])
            != Rank::Before by {
            assert(c[i] == a[i] && c[j] == a[j]);
        }
        assert forall|i: int, j: int| #![trigger d[i], d[j]] 0 <= i < j < d.len() implies super::round_rank(d[j], d[i])
            != Rank::Before by {
            assert(d[i] == b[i] && d[j] == b[j]);
        }
        assert forall|i: int| 0 <= i < c.len() implies fs.contains(#[trigger] c[i]) by {
            assert(c[i] == a[i]);
        }
        assert forall|i: int| 0 <= i < d.len() implies fs.contains(#[trigger] d[i]) by {
            assert(d[i] == b[i]);
        }
        lemma_one_order(c, d, fs);
    } else {
        assert(a =~= b);
    }
}

proof fn lemma_filter_count(s: Seq<ResolvedModel>, p: spec_fn(ResolvedModel) -> bool, x: ResolvedModel)
    ensures
        s.filter(p).to_multiset().count(x) == (if p(x) {
            s.to_multiset().count(x)
        } else {
            0
        }),
    decreases s.len(),
{
    reveal(Seq::filter);
    if s.len() > 0 {
        let r = s.drop_last();
        lemma_filter_count(r, p, x);
        assert(s =~= r.push(s.last()));
    } else {
        assert(s =~= Seq::empty());
    }
}

proof fn lemma_filter_same(
    a: Seq<ResolvedModel>,
    b: Seq<ResolvedModel>,
    p: spec_fn(ResolvedModel) -> bool,
    q: spec_fn(ResolvedModel) -> bool,
)
    requires
        a.to_multiset() == b.to_multiset(),
        forall|f: ResolvedModel| #[trigger] p(f) == q(f),
    ensures
        a.filter(p).to_multiset() == b.filter(q).to_multiset(),
{
    assert forall|x: ResolvedModel| a.filter(p).to_multiset().count(x) == b.filter(q).to_multiset().count(x) by {
        lemma_filter_count(a, p, x);
        lemma_filter_count(b, q, x);
        assert(p(x) == q(x));
    }
    assert(a.filter(p).to_multiset() =~= b.filter(q).to_multiset());
}

proof fn lemma_top_same(a: Seq<ResolvedModel>, b: Seq<ResolvedModel>, order: Seq<Seq<char>>)
    requires
        a.to_multiset() == b.to_multiset(),
    ensures
        super::top_priority(a, order) == super::top_priority(b, order),
{
    assert(a.len() == a.to_multiset().len());
    assert(b.len() == b.to_multiset().len());
    if a.len() > 0 {
        super::lemma_top_attained(a, order);
        super::lemma_top_attained(b, order);
        let i = choose|i: int|
            0 <= i < a.len() && super::priority(#[trigger] a[i], order) == super::top_priority(a, order);
        let j = choose|j: int|
            0 <= j < b.len() && super::priority(#[trigger] b[j], order) == super::top_priority(b, order);
        assert(a.contains(a[i]) && b.contains(b[j]));
        lemma_same_members(a, b, a[i]);
        lemma_same_members(b, a, b[j]);
        let k = choose|k: int| 0 <= k < b.len() && b[k] == a[i];
        let l = choose|l: int| 0 <= l < a.len() && a[l] == b[j];
        assert(super::priority(b[k], order) <= super::top_priority(b, order));
        assert(super::priority(a[l], order) <= super::top_priority(a, order));
    }
}

proof fn lemma_has_name_same(a: Seq<ResolvedModel>, b: Seq<ResolvedModel>, name: Seq<char>)
    requires
        a.to_multiset() == b.to_multiset(),
        super::has_name(a, name),
    ensures
        super::has_name(b, name),
{
    let i = choose|i: int| 0 <= i < a.len() && (#[trigger] a[i]).reference.untagged() == name;
    assert(a.contains(a[i]));
    lemma_same_members(a, b, a[i]);
    let k = choose|k: int| 0 <= k < b.len() && b[k] == a[i];
    assert(b[k].reference.untagged() == name);
}

proof fn lemma_eligible_same(f: ResolvedModel, a: Seq<ResolvedModel>, b: Seq<ResolvedModel>, done: Seq<ResolvedModel>)
    requires
        a.to_multiset() == b.to_multiset(),
        super::eligible(f, a, done),
    ensures
        super::eligible(f, b, done),
{
    assert forall|i: int| 0 <= i < f.metadata.installs_after.len() implies !super::has_name(
        b,
        super::bare_entry(#[trigger] f.metadata.installs_after[i]),
    ) || super::has_name(done, super::bare_entry(f.metadata.installs_after[i])) by {
        let h = super::bare_entry(f.metadata.installs_after[i]);
        if super::has_name(b, h) {
            lemma_has_name_same(b, a, h);
        }
    }
}

proof fn lemma_among_filter(s: Seq<ResolvedModel>, p: spec_fn(ResolvedModel) -> bool, fs: Seq<ResolvedModel>)
    requires
        among(s, fs),
    ensures
        among(s.filter(p), fs),
{
    assert forall|i: int| 0 <= i < s.filter(p).len() implies fs.contains(#[trigger] s.filter(p)[i]) by {
        let x = s.filter(p)[i];
        assert(s.filter(p).contains(x));
        s.lemma_filter_contains_rev(p, x);
        let k = choose|k: int| 0 <= k < s.len() && s[k] == x;
        assert(fs.contains(s[k]));
    }
}

proof fn lemma_rounds_same(
    v: Seq<ResolvedModel>,
    w: Seq<ResolvedModel>,
    a: Seq<ResolvedModel>,
    b: Seq<ResolvedModel>,
    done: Seq<ResolvedModel>,
    order: Seq<Seq<char>>,
)
    requires
        well_ranked(a),
        among(v, a),
        v.to_multiset() == w.to_multiset(),
        a.to_multiset() == b.to_multiset(),
        super::rounds(v, a, done, order) is Ok,
    ensures
        super::rounds(w, b, done, order) == super::rounds(v, a, done, order),
    decreases v.len(),
{
    assert(v.len() == v.to_multiset().len());
    assert(w.len() == w.to_multiset().len());
    if v.len() > 0 {
        let p = |f: ResolvedModel| super::eligible(f, a, done);
        let p2 = |f: ResolvedModel| super::eligible(f, b, done);
        let q = |f: ResolvedModel| !super::eligible(f, a, done);
        let q2 = |f: ResolvedModel| !super::eligible(f, b, done);
        assert forall|f: ResolvedModel| #[trigger] super::eligible(f, a, done) == super::eligible(f, b, done) by {
            if super::eligible(f, a, done) {
                lemma_eligible_same(f, a, b, done);
            }
            if super::eligible(f, b, done) {
                lemma_eligible_same(f, b, a, done);
            }
        }
        lemma_filter_same(v, w, p, p2);
        lemma_filter_same(v, w, q, q2);
        let now = super::ready(v, a, done);
        let now2 = super::ready(w, b, done);
        assert(now.len() == now.to_multiset().len());
        assert(now2.len() == now2.to_multiset().len());
        lemma_top_same(now, now2, order);
        let f1 = |f: ResolvedModel| super::priority(f, order) == super::top_priority(now, order);
        let f2 = |f: ResolvedModel| super::priority(f, order) == super::top_priority(now2, order);
        let g1 = |f: ResolvedModel| super::priority(f, order) != super::top_priority(now, order);
        let g2 = |f: ResolvedModel| super::priority(f, order) != super::top_priority(now2, order);
        lemma_filter_same(now, now2, f1, f2);
        lemma_filter_same(now, now2, g1, g2);
        let first = super::foremost(now, order);
        let first2 = super::foremost(now2, order);
        lemma_among_filter(v, p, a);
        lemma_among_filter(v, q, a);
        lemma_among_filter(now, f1, a);
        lemma_among_filter(now, g1, a);
        assert(among(first2, a)) by {
            assert forall|i: int| 0 <= i < first2.len() implies a.contains(#[trigger] first2[i]) by {
                assert(first2.contains(first2[i]));
                lemma_same_members(first2, first, first2[i]);
                let k = choose|k: int| 0 <= k < first.len() && first[k] == first2[i];
                assert(a.contains(first[k]));
            }
        }
        super::lemma_sorted_keeps(first);
        super::lemma_sorted_keeps(first2);
        lemma_sorted_in_order(first, a);
        lemma_sorted_in_order(first2, a);
        lemma_one_order(super::sorted(first), super::sorted(first2), a);
        super::lemma_round_shrinks(v, a, done, order);
        let wait = super::waiting(v, a, done);
        let late = super::deferred(now, order);
        let wait2 = super::waiting(w, b, done);
        let late2 = super::deferred(now2, order);
        vstd::seq_lib::lemma_multiset_commutative(wait, late);
        vstd::seq_lib::lemma_multiset_commutative(wait2, late2);
        let rest = wait + late;
        assert(among(rest, a)) by {
            assert forall|i: int| 0 <= i < rest.len() implies a.contains(#[trigger] rest[i]) by {
                if i < wait.len() {
                    assert(rest[i] == wait[i]);
                } else {
                    assert(rest[i] == late[i - wait.len()]);
                }
            }
        }
        lemma_rounds_same(rest, wait2 + late2, a, b, done + super::sorted(first), order);
    }
}

/// The order in which Features are written does not matter to the order in which they are installed.
pub proof fn law_the_order_of_writing_does_not_matter(
    a: Seq<ResolvedModel>,
    b: Seq<ResolvedModel>,
    order: Seq<Seq<char>>,
)
    requires
        a.to_multiset() == b.to_multiset(),
        well_ranked(a),
        super::installed(a, order) is Ok,
    ensures
        super::installed(b, order) == super::installed(a, order),
{
    lemma_rounds_same(a, b, a, b, Seq::empty(), order);
}

// ----------------------------------------------------------------------------------------------
// Which Feature comes first
// ----------------------------------------------------------------------------------------------

proof fn lemma_top_bounds(fs: Seq<ResolvedModel>, order: Seq<Seq<char>>, k: int)
    requires
        0 <= k < fs.len(),
    ensures
        super::priority(fs[k], order) <= super::top_priority(fs, order),
    decreases fs.len(),
{
    if k < fs.len() - 1 {
        assert(fs.drop_last()[k] == fs[k]);
        lemma_top_bounds(fs.drop_last(), order, k);
    }
}

proof fn lemma_rounds_extend(
    work: Seq<ResolvedModel>,
    all: Seq<ResolvedModel>,
    done: Seq<ResolvedModel>,
    order: Seq<Seq<char>>,
)
    requires
        super::rounds(work, all, done, order) is Ok,
    ensures
        super::rounds(work, all, done, order)->Ok_0.len() >= done.len(),
        forall|i: int|
            0 <= i < done.len() ==> #[trigger] super::rounds(work, all, done, order)->Ok_0[i] == done[i],
    decreases work.len(),
{
    if work.len() > 0 {
        let now = super::ready(work, all, done);
        let more = done + super::sorted(super::foremost(now, order));
        super::lemma_round_shrinks(work, all, done, order);
        lemma_rounds_extend(super::waiting(work, all, done) + super::deferred(now, order), all, more, order);
        assert forall|i: int| 0 <= i < done.len() implies #[trigger] super::rounds(
            work,
            all,
            done,
            order,
        )->Ok_0[i] == done[i] by {
            assert(more[i] == done[i]);
        }
    }
}

/// Whether a Feature is before a place.
pub open spec fn is_before(way: Seq<ResolvedModel>, f: ResolvedModel, i: int) -> bool {
    exists|j: int| 0 <= j < i && way[j] == f
}

/// Whether `f` goes in before `g` where both could go in now.
spec fn leads(f: ResolvedModel, g: ResolvedModel, order: Seq<Seq<char>>, fs: Seq<ResolvedModel>) -> bool {
    ||| super::priority(g, order) < super::priority(f, order)
    ||| super::priority(g, order) == super::priority(f, order) && super::round_rank(f, g) == Rank::Before
        && well_ranked(fs) && super::eligible(g, fs, Seq::empty())
}

proof fn lemma_ready(
    work: Seq<ResolvedModel>,
    all: Seq<ResolvedModel>,
    done: Seq<ResolvedModel>,
    order: Seq<Seq<char>>,
    f: ResolvedModel,
)
    requires
        work.contains(f),
        super::eligible(f, all, Seq::empty()),
    ensures
        ({
            let now = super::ready(work, all, done);
            &&& now.contains(f)
            &&& super::priority(f, order) <= super::top_priority(now, order)
            &&& super::priority(f, order) == super::top_priority(now, order) ==> super::foremost(now, order).contains(f)
            &&& super::priority(f, order) != super::top_priority(now, order) ==> super::deferred(now, order).contains(f)
        }),
{
    let now = super::ready(work, all, done);
    let p = |f: ResolvedModel| super::eligible(f, all, done);
    lemma_eligible_grows(f, all, Seq::empty(), done);
    let k = choose|k: int| 0 <= k < work.len() && work[k] == f;
    assert(p(work[k]));
    work.lemma_filter_contains(p, k);
    assert(now.contains(f));
    let m = choose|m: int| 0 <= m < now.len() && now[m] == f;
    lemma_top_bounds(now, order, m);
    let first = |f: ResolvedModel| super::priority(f, order) == super::top_priority(now, order);
    let late = |f: ResolvedModel| super::priority(f, order) != super::top_priority(now, order);
    if first(f) {
        now.lemma_filter_contains(first, m);
    } else {
        assert(late(now[m]));
        now.lemma_filter_contains(late, m);
    }
}

proof fn lemma_foremost(now: Seq<ResolvedModel>, order: Seq<Seq<char>>, x: ResolvedModel)
    requires
        super::sorted(super::foremost(now, order)).contains(x),
    ensures
        super::priority(x, order) == super::top_priority(now, order),
{
    let first = super::foremost(now, order);
    super::lemma_sorted_keeps(first);
    lemma_same_members(super::sorted(first), first, x);
    let k = choose|k: int| 0 <= k < first.len() && first[k] == x;
    now.lemma_filter_pred(
        |f: ResolvedModel| super::priority(f, order) == super::top_priority(now, order),
        k,
    );
}

proof fn lemma_rounds_lead(
    work: Seq<ResolvedModel>,
    all: Seq<ResolvedModel>,
    done: Seq<ResolvedModel>,
    order: Seq<Seq<char>>,
    f: ResolvedModel,
    g: ResolvedModel,
    i: int,
)
    requires
        super::rounds(work, all, done, order) is Ok,
        among(work, all),
        work.contains(f),
        super::eligible(f, all, Seq::empty()),
        super::eligible(g, all, Seq::empty()) ==> work.contains(g),
        !done.contains(g),
        leads(f, g, order, all),
        0 <= i < super::rounds(work, all, done, order)->Ok_0.len(),
        super::rounds(work, all, done, order)->Ok_0[i] == g,
    ensures
        is_before(super::rounds(work, all, done, order)->Ok_0, f, i),
    decreases work.len(),
{
    let way = super::rounds(work, all, done, order)->Ok_0;
    let now = super::ready(work, all, done);
    let first = super::foremost(now, order);
    let s = super::sorted(first);
    let more = done + s;
    let rest = super::waiting(work, all, done) + super::deferred(now, order);
    let p = |f: ResolvedModel| super::eligible(f, all, done);
    let np = |f: ResolvedModel| !super::eligible(f, all, done);
    let fp = |f: ResolvedModel| super::priority(f, order) == super::top_priority(now, order);
    let lp = |f: ResolvedModel| super::priority(f, order) != super::top_priority(now, order);
    super::lemma_round_shrinks(work, all, done, order);
    super::lemma_sorted_keeps(first);
    lemma_ready(work, all, done, order, f);
    lemma_among_filter(work, p, all);
    lemma_among_filter(work, np, all);
    lemma_among_filter(now, fp, all);
    lemma_among_filter(now, lp, all);
    lemma_rounds_extend(rest, all, more, order);
    if super::priority(f, order) == super::top_priority(now, order) {
        lemma_same_members(first, s, f);
        let q = choose|q: int| 0 <= q < s.len() && s[q] == f;
        assert(more[done.len() + q] == f);
        assert(way[done.len() + q] == f);
        if i < done.len() {
            assert(more[i] == done[i]);
            assert(done.contains(g));
        } else if i < more.len() {
            let k = i - done.len();
            assert(more[i] == s[k]);
            assert(s.contains(g));
            lemma_foremost(now, order, g);
            lemma_sorted_in_order(first, all);
            law_ranks_are_reversible(f, f);
            if k < q {
                assert(super::round_rank(s[q], s[k]) != Rank::Before);
            }
        }
        assert(done.len() + q < i);
    } else {
        if more.contains(g) {
            let k = choose|k: int| 0 <= k < more.len() && more[k] == g;
            if k < done.len() {
                assert(done[k] == g);
            } else {
                assert(s[k - done.len()] == g);
                lemma_foremost(now, order, g);
            }
        }
        let wait = super::waiting(work, all, done);
        let late = super::deferred(now, order);
        assert(among(rest, all)) by {
            assert forall|i: int| 0 <= i < rest.len() implies all.contains(#[trigger] rest[i]) by {
                if i < wait.len() {
                    assert(rest[i] == wait[i]);
                } else {
                    assert(rest[i] == late[i - wait.len()]);
                }
            }
        }
        lemma_behind(wait, late, f);
        if super::eligible(g, all, Seq::empty()) {
            lemma_ready(work, all, done, order, g);
            lemma_behind(wait, late, g);
        }
        lemma_rounds_lead(rest, all, more, order, f, g, i);
    }
}

proof fn lemma_behind(a: Seq<ResolvedModel>, b: Seq<ResolvedModel>, x: ResolvedModel)
    requires
        b.contains(x),
    ensures
        (a + b).contains(x),
{
    let k = choose|k: int| 0 <= k < b.len() && b[k] == x;
    assert((a + b)[a.len() + k] == x);
}

proof fn lemma_named_at(f: ResolvedModel, order: Seq<Seq<char>>, k: int)
    requires
        0 <= k < order.len(),
        super::names(order[k], f),
    ensures
        super::priority(f, order) >= order.len() - k,
    decreases order.len(),
{
    if !super::names(order[0], f) {
        assert(order.drop_first()[k - 1] == order[k]);
        lemma_named_at(f, order.drop_first(), k - 1);
    }
}

proof fn lemma_named_after(g: ResolvedModel, order: Seq<Seq<char>>, k: int)
    requires
        0 <= k < order.len(),
        forall|l: int| 0 <= l <= k ==> !super::names(#[trigger] order[l], g),
    ensures
        super::priority(g, order) < order.len() - k,
    decreases order.len(),
{
    assert(!super::names(order[0], g));
    let rest = order.drop_first();
    if k > 0 {
        assert forall|l: int| 0 <= l <= k - 1 implies !super::names(#[trigger] rest[l], g) by {
            assert(rest[l] == order[l + 1]);
        }
        lemma_named_after(g, rest, k - 1);
    } else {
        lemma_priority_bound(g, rest);
    }
}

proof fn lemma_priority_bound(g: ResolvedModel, order: Seq<Seq<char>>)
    ensures
        super::priority(g, order) <= order.len(),
    decreases order.len(),
{
    if order.len() > 0 {
        lemma_priority_bound(g, order.drop_first());
    }
}

proof fn lemma_named_alike(f: ResolvedModel, g: ResolvedModel, order: Seq<Seq<char>>)
    requires
        forall|k: int| 0 <= k < order.len() ==> super::names(#[trigger] order[k], f) == super::names(order[k], g),
    ensures
        super::priority(f, order) == super::priority(g, order),
    decreases order.len(),
{
    if order.len() > 0 {
        let rest = order.drop_first();
        assert(super::names(order[0], f) == super::names(order[0], g));
        assert forall|k: int| 0 <= k < rest.len() implies super::names(#[trigger] rest[k], f) == super::names(
            rest[k],
            g,
        ) by {
            assert(rest[k] == order[k + 1]);
        }
        lemma_named_alike(f, g, rest);
    }
}

/// A Feature that an `overrideFeatureInstallOrder` names before it names another, and that waits for
/// nothing, is installed before that other one.
pub proof fn law_the_order_asked_for_is_kept(
    fs: Seq<ResolvedModel>,
    order: Seq<Seq<char>>,
    f: ResolvedModel,
    g: ResolvedModel,
    k: int,
    i: int,
)
    requires
        super::installed(fs, order) is Ok,
        fs.contains(f),
        f.hard_deps.len() == 0,
        f.metadata.installs_after.len() == 0,
        0 <= k < order.len(),
        super::names(order[k], f),
        forall|l: int| 0 <= l <= k ==> !super::names(#[trigger] order[l], g),
        0 <= i < super::installed(fs, order)->Ok_0.len(),
        super::installed(fs, order)->Ok_0[i] == g,
    ensures
        is_before(super::installed(fs, order)->Ok_0, f, i),
{
    let way = super::installed(fs, order)->Ok_0;
    law_nothing_is_lost(fs, order);
    assert(way.contains(g));
    lemma_same_members(way, fs, g);
    lemma_named_at(f, order, k);
    lemma_named_after(g, order, k);
    lemma_rounds_lead(fs, fs, Seq::empty(), order, f, g, i);
}

/// Of two Features that wait for nothing and that no `overrideFeatureInstallOrder` tells apart, the one that
/// ranks first is installed first.
pub proof fn law_rank_decides_the_rest(
    fs: Seq<ResolvedModel>,
    order: Seq<Seq<char>>,
    f: ResolvedModel,
    g: ResolvedModel,
    i: int,
)
    requires
        super::installed(fs, order) is Ok,
        well_ranked(fs),
        fs.contains(f),
        f.hard_deps.len() == 0,
        f.metadata.installs_after.len() == 0,
        g.hard_deps.len() == 0,
        g.metadata.installs_after.len() == 0,
        forall|k: int| 0 <= k < order.len() ==> super::names(#[trigger] order[k], f) == super::names(order[k], g),
        super::round_rank(f, g) == Rank::Before,
        0 <= i < super::installed(fs, order)->Ok_0.len(),
        super::installed(fs, order)->Ok_0[i] == g,
    ensures
        is_before(super::installed(fs, order)->Ok_0, f, i),
{
    let way = super::installed(fs, order)->Ok_0;
    law_nothing_is_lost(fs, order);
    assert(way.contains(g));
    lemma_same_members(way, fs, g);
    lemma_named_alike(f, g, order);
    lemma_rounds_lead(fs, fs, Seq::empty(), order, f, g, i);
}

proof fn lemma_first_difference(a: Seq<Seq<char>>, b: Seq<Seq<char>>, versions: bool, i: int)
    requires
        0 <= i <= a.len(),
        i <= b.len(),
        forall|k: int| 0 <= k < i ==> a[k] == #[trigger] b[k],
    ensures
        i < a.len() && i < b.len() && versions && super::segment_rank(a[i], b[i]) == Rank::Before
            ==> super::list_rank(a, b, versions) == Rank::Before,
        i < a.len() && i < b.len() && !versions && text::less(a[i], b[i]) ==> super::list_rank(a, b, versions)
            == Rank::Before,
        i == a.len() && i < b.len() ==> super::list_rank(a, b, versions) == Rank::Before,
        i == a.len() && i == b.len() ==> super::list_rank(a, b, versions) == Rank::Same,
    decreases i,
{
    if i > 0 {
        assert(a[0] == b[0]);
        text::lemma_less_irreflexive(a[0]);
        let c = a.drop_first();
        let d = b.drop_first();
        assert forall|k: int| 0 <= k < i - 1 implies c[k] == #[trigger] d[k] by {
            assert(a[k + 1] == b[k + 1]);
        }
        lemma_first_difference(c, d, versions, i - 1);
    }
}

/// Versions are told apart by the first part in which they differ: by its number where both have one, so
/// that `9` comes before `10`, and otherwise as texts. A version comes before one that says more, and two
/// with the same parts are the same.
pub proof fn law_versions_go_up_by_number(a: Seq<char>, b: Seq<char>, i: int)
    requires
        0 <= i <= text::split_at(a, '.').len(),
        i <= text::split_at(b, '.').len(),
        forall|k: int| 0 <= k < i ==> text::split_at(a, '.')[k] == #[trigger] text::split_at(b, '.')[k],
    ensures
        ({
            let x = text::split_at(a, '.');
            let y = text::split_at(b, '.');
            &&& i < x.len() && i < y.len() ==> match (
                text::parsed(x[i], u64::MAX as nat),
                text::parsed(y[i], u64::MAX as nat),
            ) {
                (Some(m), Some(n)) => m < n ==> super::version_rank(a, b) == Rank::Before,
                _ => text::less(x[i], y[i]) ==> super::version_rank(a, b) == Rank::Before,
            }
            &&& i == x.len() && i < y.len() ==> super::version_rank(a, b) == Rank::Before
            &&& i == x.len() && i == y.len() ==> super::version_rank(a, b) == Rank::Same
        }),
{
    lemma_first_difference(text::split_at(a, '.'), text::split_at(b, '.'), true, i);
}

/// Features of one round go by name; those of one name by version, the older one first; then the one with
/// more options comes first; then the names of the options decide, then their values, and at last the
/// digest.
pub proof fn law_ties_are_broken_in_order(a: ResolvedModel, b: ResolvedModel, i: int)
    ensures
        text::less(a.reference.untagged(), b.reference.untagged()) ==> super::round_rank(a, b) == Rank::Before,
        a.reference.untagged() == b.reference.untagged() ==> {
            &&& super::version_rank(a.reference.tag, b.reference.tag) == Rank::Before ==> super::round_rank(a, b)
                == Rank::Before
            &&& a.reference.tag == b.reference.tag ==> {
                &&& a.supplied.len() > b.supplied.len() ==> super::round_rank(a, b) == Rank::Before
                &&& a.supplied.len() == b.supplied.len() && 0 <= i < a.supplied.len() && text::less(
                    a.supplied[i].0,
                    b.supplied[i].0,
                ) && (forall|k: int| 0 <= k < i ==> a.supplied[k].0 == (#[trigger] b.supplied[k]).0)
                    ==> super::round_rank(a, b) == Rank::Before
                &&& a.supplied == b.supplied && text::less(a.digest, b.digest) ==> super::round_rank(a, b)
                    == Rank::Before
                &&& a.supplied == b.supplied && a.digest == b.digest ==> super::round_rank(a, b) == Rank::Same
            }
        },
{
    reveal(super::round_rank);
    text::lemma_less_irreflexive(a.reference.untagged());
    text::lemma_less_irreflexive(a.digest);
    let x = text::split_at(a.reference.tag, '.');
    lemma_first_difference(x, x, true, x.len() as int);
    let m = super::option_names(a);
    let n = super::option_names(b);
    let v = super::option_values(a);
    if a.supplied.len() == b.supplied.len() && 0 <= i < a.supplied.len() && (forall|k: int|
        0 <= k < i ==> a.supplied[k].0 == (#[trigger] b.supplied[k]).0) {
        assert forall|k: int| 0 <= k < i implies m[k] == #[trigger] n[k] by {
            assert(a.supplied[k].0 == b.supplied[k].0);
        }
        lemma_first_difference(m, n, false, i);
    }
    lemma_first_difference(m, m, false, m.len() as int);
    lemma_first_difference(v, v, false, v.len() as int);
}

/// An entry names the Feature whose reference it spells, with or without a tag or a digest and in any letter
/// case, and the Feature that has it for a short alias. It names no other.
pub proof fn law_an_entry_names_its_feature(
    host: Seq<char>,
    rest: Seq<char>,
    tag: Seq<char>,
    digest: Seq<char>,
    alias: Seq<char>,
    f: ResolvedModel,
)
    requires
        oci::addresses_a_registry(host, rest),
        !tag.contains('@') && !tag.contains('/') && !tag.contains(':'),
        !rest.contains(':'),
        !alias.contains('/') && !alias.contains(':') && !alias.contains('@'),
        f.reference.kind == FeatureKind::Registry,
    ensures
        ({
            let whole = text::lowercase(host) + "/"@ + text::lowercase(rest);
            let meant = f.reference.untagged() == whole || f.reference.name() == whole;
            &&& super::names(host + "/"@ + rest + ":"@ + tag, f) == meant
            &&& super::names(host + "/"@ + rest, f) == meant
            &&& super::names(host + "/"@ + rest + "@"@ + digest, f) == meant
            &&& super::names(alias, f) == (f.reference.name() == alias || f.reference.untagged() == alias)
        }),
{
    oci::law_a_registry_reference_is_read(host, rest, tag, digest);
    reveal_strlit("./");
    reveal_strlit("../");
    reveal_strlit("https://");
    reveal_strlit("http://");
    text::lemma_last_end(alias, ':');
    if oci::ref_of(alias).kind == FeatureKind::Registry {
        let (path, t, d) = oci::pinned(alias);
        text::lemma_position(alias, '@');
        assert(path == alias);
        text::lemma_position(path, '/');
    }
    assert(super::bare_entry(alias) == alias);
}

} // verus!
