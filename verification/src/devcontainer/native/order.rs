//! The order in which Features are installed.
//!
//! Features go in by rounds. A round takes every Feature whose dependencies are already in, keeps those
//! of the highest priority, and sorts them; the others wait for the next round.

use vstd::prelude::*;

pub mod laws;

use super::feature::{self, ResolvedFeature, ResolvedModel};
use super::oci::{self, FeatureKind};
use crate::error::{AmError, AmErrorModel};
use crate::json::JsonModel;
use crate::text;

verus! {

// ----------------------------------------------------------------------------------------------
// Comparing
// ----------------------------------------------------------------------------------------------

/// How two things stand to each other.
#[derive(Debug, Clone, Copy, PartialEq, Eq, Structural)]
pub enum Rank {
    Before,
    Same,
    After,
}

/// The first rank, or the second where the first does not decide.
pub open spec fn then_by(first: Rank, second: Rank) -> Rank {
    if first == Rank::Same {
        second
    } else {
        first
    }
}

/// The rank the other way round.
pub open spec fn reversed(r: Rank) -> Rank {
    match r {
        Rank::Before => Rank::After,
        Rank::Same => Rank::Same,
        Rank::After => Rank::Before,
    }
}

pub open spec fn number_rank(a: int, b: int) -> Rank {
    if a < b {
        Rank::Before
    } else if a == b {
        Rank::Same
    } else {
        Rank::After
    }
}

pub open spec fn text_rank(a: Seq<char>, b: Seq<char>) -> Rank {
    if text::less(a, b) {
        Rank::Before
    } else if a == b {
        Rank::Same
    } else {
        Rank::After
    }
}

/// Two parts of a version: numbers where both are, texts otherwise.
pub open spec fn segment_rank(a: Seq<char>, b: Seq<char>) -> Rank {
    match (text::parsed(a, u64::MAX as nat), text::parsed(b, u64::MAX as nat)) {
        (Some(m), Some(n)) => number_rank(m as int, n as int),
        _ => text_rank(a, b),
    }
}

/// Two lists, by their first difference; a list comes before one that it begins. `versions` says that
/// the elements are parts of versions.
pub open spec fn list_rank(a: Seq<Seq<char>>, b: Seq<Seq<char>>, versions: bool) -> Rank
    decreases a.len(),
{
    if a.len() == 0 {
        number_rank(0, b.len() as int)
    } else if b.len() == 0 {
        Rank::After
    } else {
        then_by(
            if versions {
                segment_rank(a[0], b[0])
            } else {
                text_rank(a[0], b[0])
            },
            list_rank(a.drop_first(), b.drop_first(), versions),
        )
    }
}

/// Two version tags, the older one first.
pub open spec fn version_rank(a: Seq<char>, b: Seq<char>) -> Rank {
    list_rank(text::split_at(a, '.'), text::split_at(b, '.'), true)
}

fn rank_texts(a: &str, b: &str) -> (r: Rank)
    ensures
        r == text_rank(a@, b@),
{
    if text::is_less(a, b) {
        Rank::Before
    } else if text::eq(a, b) {
        Rank::Same
    } else {
        Rank::After
    }
}

fn rank_segments(a: &str, b: &str) -> (r: Rank)
    ensures
        r == segment_rank(a@, b@),
{
    match (text::parse_number(a, u64::MAX), text::parse_number(b, u64::MAX)) {
        (Some(m), Some(n)) => if m < n {
            Rank::Before
        } else if m == n {
            Rank::Same
        } else {
            Rank::After
        },
        _ => rank_texts(a, b),
    }
}

fn rank_lists(a: &Vec<String>, b: &Vec<String>, versions: bool) -> (r: Rank)
    ensures
        r == list_rank(a.deep_view(), b.deep_view(), versions),
{
    let ghost x = a.deep_view();
    let ghost y = b.deep_view();
    let mut i: usize = 0;
    assert(x.subrange(0, x.len() as int) =~= x);
    assert(y.subrange(0, y.len() as int) =~= y);
    while i < a.len() && i < b.len()
        invariant
            x == a.deep_view(),
            y == b.deep_view(),
            i <= a.len(),
            i <= b.len(),
            list_rank(x, y, versions) == list_rank(
                x.subrange(i as int, x.len() as int),
                y.subrange(i as int, y.len() as int),
                versions,
            ),
        decreases a.len() - i,
    {
        let ghost s = x.subrange(i as int, x.len() as int);
        let ghost t = y.subrange(i as int, y.len() as int);
        assert(s[0] == a@[i as int]@ && t[0] == b@[i as int]@);
        assert(s.drop_first() =~= x.subrange(i + 1, x.len() as int));
        assert(t.drop_first() =~= y.subrange(i + 1, y.len() as int));
        let r = if versions {
            rank_segments(a[i].as_str(), b[i].as_str())
        } else {
            rank_texts(a[i].as_str(), b[i].as_str())
        };
        match r {
            Rank::Same => {},
            other => {
                return other;
            },
        }
        i = i + 1;
    }
    if i < a.len() {
        Rank::After
    } else if i < b.len() {
        Rank::Before
    } else {
        Rank::Same
    }
}

fn rank_versions(a: &str, b: &str) -> (r: Rank)
    ensures
        r == version_rank(a@, b@),
{
    let x = text::split(a, '.');
    let y = text::split(b, '.');
    rank_lists(&x, &y, true)
}

/// Compares version tags, the older one first: by the numbers between the dots.
pub fn compare_versions(a: &str, b: &str) -> (r: std::cmp::Ordering)
    ensures
        r == match version_rank(a@, b@) {
            Rank::Before => std::cmp::Ordering::Less,
            Rank::Same => std::cmp::Ordering::Equal,
            Rank::After => std::cmp::Ordering::Greater,
        },
{
    match rank_versions(a, b) {
        Rank::Before => std::cmp::Ordering::Less,
        Rank::Same => std::cmp::Ordering::Equal,
        Rank::After => std::cmp::Ordering::Greater,
    }
}

// ----------------------------------------------------------------------------------------------
// Sorting a round
// ----------------------------------------------------------------------------------------------

/// The names of the options that were written.
pub open spec fn option_names(f: ResolvedModel) -> Seq<Seq<char>> {
    f.supplied.map_values(|o: (Seq<char>, JsonModel)| o.0)
}

/// The values of the options that were written.
pub open spec fn option_values(f: ResolvedModel) -> Seq<Seq<char>> {
    f.supplied.map_values(|o: (Seq<char>, JsonModel)| feature::option_text(o.1))
}

/// How two Features of one round stand to each other. More options come first.
#[verifier::opaque]
pub open spec fn round_rank(a: ResolvedModel, b: ResolvedModel) -> Rank {
    then_by(
        text_rank(a.reference.untagged(), b.reference.untagged()),
        then_by(
            version_rank(a.reference.tag, b.reference.tag),
            then_by(
                number_rank(b.supplied.len() as int, a.supplied.len() as int),
                then_by(
                    list_rank(option_names(a), option_names(b), false),
                    then_by(
                        list_rank(option_values(a), option_values(b), false),
                        text_rank(a.digest, b.digest),
                    ),
                ),
            ),
        ),
    )
}

fn names_of(f: &ResolvedFeature) -> (r: Vec<String>)
    ensures
        r.deep_view() == option_names(f.deep_view()),
{
    let ghost all = option_names(f.deep_view());
    let n: usize = f.supplied.len();
    let mut out: Vec<String> = Vec::new();
    let mut i: usize = 0;
    assert(out.deep_view() =~= all.subrange(0, 0));
    while i < n
        invariant
            all == option_names(f.deep_view()),
            n == f.supplied.deep_view().len(),
            i <= n,
            out.deep_view() == all.subrange(0, i as int),
        decreases n - i,
    {
        let (k, _) = f.supplied.at(i);
        text::push_str(&mut out, k);
        assert(all.subrange(0, i + 1) =~= all.subrange(0, i as int).push(all[i as int]));
        i = i + 1;
    }
    assert(all.subrange(0, all.len() as int) =~= all);
    out
}

fn values_of(f: &ResolvedFeature) -> (r: Vec<String>)
    ensures
        r.deep_view() == option_values(f.deep_view()),
{
    let ghost all = option_values(f.deep_view());
    let n: usize = f.supplied.len();
    let mut out: Vec<String> = Vec::new();
    let mut i: usize = 0;
    assert(out.deep_view() =~= all.subrange(0, 0));
    while i < n
        invariant
            all == option_values(f.deep_view()),
            n == f.supplied.deep_view().len(),
            i <= n,
            out.deep_view() == all.subrange(0, i as int),
        decreases n - i,
    {
        let (_, v) = f.supplied.at(i);
        text::push(&mut out, feature::stringify(v));
        assert(all.subrange(0, i + 1) =~= all.subrange(0, i as int).push(all[i as int]));
        i = i + 1;
    }
    assert(all.subrange(0, all.len() as int) =~= all);
    out
}

/// Decides between two Features of one round.
pub fn round_stable_sort(a: &ResolvedFeature, b: &ResolvedFeature) -> (r: Rank)
    ensures
        r == round_rank(a.deep_view(), b.deep_view()),
{
    proof {
        reveal(round_rank);
    }
    let x = a.reference.untagged();
    let y = b.reference.untagged();
    match rank_texts(x.as_str(), y.as_str()) {
        Rank::Same => {},
        other => {
            return other;
        },
    }
    match rank_versions(a.reference.tag.as_str(), b.reference.tag.as_str()) {
        Rank::Same => {},
        other => {
            return other;
        },
    }
    let m: usize = a.supplied.len();
    let n: usize = b.supplied.len();
    if n < m {
        return Rank::Before;
    }
    if m < n {
        return Rank::After;
    }
    let ka = names_of(a);
    let kb = names_of(b);
    match rank_lists(&ka, &kb, false) {
        Rank::Same => {},
        other => {
            return other;
        },
    }
    let va = values_of(a);
    let vb = values_of(b);
    match rank_lists(&va, &vb, false) {
        Rank::Same => {},
        other => {
            return other;
        },
    }
    rank_texts(a.digest.as_str(), b.digest.as_str())
}

/// `s` with `x` after the last Feature that does not come after it.
pub open spec fn placed(s: Seq<ResolvedModel>, x: ResolvedModel) -> Seq<ResolvedModel>
    decreases s.len(),
{
    if s.len() > 0 && round_rank(x, s.last()) == Rank::Before {
        placed(s.drop_last(), x).push(s.last())
    } else {
        s.push(x)
    }
}

/// A round in order; Features that nothing tells apart keep theirs.
pub open spec fn sorted(s: Seq<ResolvedModel>) -> Seq<ResolvedModel>
    decreases s.len(),
{
    if s.len() == 0 {
        Seq::empty()
    } else {
        placed(sorted(s.drop_last()), s.last())
    }
}

proof fn lemma_placed_at(s: Seq<ResolvedModel>, x: ResolvedModel, p: int)
    requires
        0 <= p <= s.len(),
        p > 0 ==> round_rank(x, s[p - 1]) != Rank::Before,
        forall|k: int| p <= k < s.len() ==> round_rank(x, #[trigger] s[k]) == Rank::Before,
    ensures
        placed(s, x) == s.insert(p, x),
    decreases s.len(),
{
    if p < s.len() {
        assert(round_rank(x, s[s.len() - 1]) == Rank::Before);
        lemma_placed_at(s.drop_last(), x, p);
        assert(s.drop_last().insert(p, x).push(s.last()) =~= s.insert(p, x));
    } else {
        assert(s.push(x) =~= s.insert(p, x));
    }
}

fn take_first(v: &mut Vec<ResolvedFeature>) -> (r: ResolvedFeature)
    requires
        old(v).deep_view().len() > 0,
    ensures
        r.deep_view() == old(v).deep_view()[0],
        final(v).deep_view() == old(v).deep_view().drop_first(),
{
    let ghost s = v@;
    let f = v.remove(0);
    assert(v@ =~= s.drop_first());
    assert(v.deep_view() =~= old(v).deep_view().drop_first());
    f
}

fn sort_round(v: Vec<ResolvedFeature>) -> (r: Vec<ResolvedFeature>)
    ensures
        r.deep_view() == sorted(v.deep_view()),
{
    let ghost all = v.deep_view();
    let n: usize = v.len();
    let mut v = v;
    let mut out: Vec<ResolvedFeature> = Vec::new();
    let mut i: usize = 0;
    assert(out.deep_view() =~= sorted(all.subrange(0, 0)));
    assert(v.deep_view() =~= all.subrange(0, all.len() as int));
    while i < n
        invariant
            n == all.len(),
            i <= n,
            out.len() == i,
            v.deep_view() == all.subrange(i as int, n as int),
            out.deep_view() == sorted(all.subrange(0, i as int)),
        decreases n - i,
    {
        let ghost s = out.deep_view();
        assert(v.deep_view().len() == n - i);
        assert(v.deep_view()[0] == all[i as int]);
        let f = take_first(&mut v);
        assert(f.deep_view() == all[i as int]);
        assert(v.deep_view() =~= all.subrange(i + 1, n as int));
        let mut p: usize = out.len();
        while p > 0 && before(&f, &out[p - 1])
            invariant
                s == out.deep_view(),
                f.deep_view() == all[i as int],
                p <= out.len(),
                forall|k: int| p <= k < s.len() ==> round_rank(all[i as int], #[trigger] s[k]) == Rank::Before,
            decreases p,
        {
            assert(s[p - 1] == out@[p - 1].deep_view());
            p = p - 1;
        }
        proof {
            if p > 0 {
                assert(s[p - 1] == out@[p - 1].deep_view());
            }
            lemma_placed_at(s, all[i as int], p as int);
        }
        out.insert(p, f);
        assert(out.deep_view() =~= s.insert(p as int, all[i as int]));
        assert(all.subrange(0, i + 1).drop_last() =~= all.subrange(0, i as int));
        i = i + 1;
    }
    assert(all.subrange(0, all.len() as int) =~= all);
    out
}

fn before(a: &ResolvedFeature, b: &ResolvedFeature) -> (r: bool)
    ensures
        r == (round_rank(a.deep_view(), b.deep_view()) == Rank::Before),
{
    match round_stable_sort(a, b) {
        Rank::Before => true,
        _ => false,
    }
}

// ----------------------------------------------------------------------------------------------
// Priority
// ----------------------------------------------------------------------------------------------

/// The Feature that an `overrideFeatureInstallOrder` or `installsAfter` entry names. A registry's is
/// spelled as a reference is, so its letter case, its tag and its digest do not matter. A port is no
/// tag.
pub open spec fn bare_entry(entry: Seq<char>) -> Seq<char> {
    let r = oci::ref_of(entry);
    if r.kind == FeatureKind::Registry {
        r.untagged()
    } else {
        oci::tagged(entry).0
    }
}

fn bare(entry: &str) -> (r: String)
    ensures
        r@ == bare_entry(entry@),
{
    let r = oci::parse_ref(entry);
    if r.kind == FeatureKind::Registry {
        r.untagged()
    } else {
        oci::split_tag(entry).0.to_owned()
    }
}

/// Whether an entry names a Feature, in full or by its short alias.
pub open spec fn names(entry: Seq<char>, f: ResolvedModel) -> bool {
    bare_entry(entry) == f.reference.untagged() || bare_entry(entry) == f.reference.name()
}

/// A Feature's priority: the higher, the earlier it is named, and none where it is not.
pub open spec fn priority(f: ResolvedModel, order: Seq<Seq<char>>) -> nat
    decreases order.len(),
{
    if order.len() == 0 {
        0
    } else if names(order[0], f) {
        order.len()
    } else {
        priority(f, order.drop_first())
    }
}

fn names_feature(entry: &str, f: &ResolvedFeature) -> (r: bool)
    ensures
        r == names(entry@, f.deep_view()),
{
    let bare = bare(entry);
    let untagged = f.reference.untagged();
    text::eq(bare.as_str(), untagged.as_str()) || text::eq(bare.as_str(), f.reference.name())
}

/// A Feature's priority by an `overrideFeatureInstallOrder`.
pub fn round_priority(f: &ResolvedFeature, override_order: &Vec<String>) -> (r: usize)
    ensures
        r == priority(f.deep_view(), override_order.deep_view()),
{
    let ghost o = override_order.deep_view();
    let mut i: usize = 0;
    assert(o.subrange(0, o.len() as int) =~= o);
    while i < override_order.len()
        invariant
            o == override_order.deep_view(),
            i <= override_order.len(),
            priority(f.deep_view(), o) == priority(f.deep_view(), o.subrange(i as int, o.len() as int)),
        decreases override_order.len() - i,
    {
        let ghost rest = o.subrange(i as int, o.len() as int);
        assert(rest[0] == override_order@[i as int]@);
        assert(rest.drop_first() =~= o.subrange(i + 1, o.len() as int));
        if names_feature(override_order[i].as_str(), f) {
            return override_order.len() - i;
        }
        i = i + 1;
    }
    0
}

/// Whether an entry names one of some Features.
pub open spec fn names_any(entry: Seq<char>, fs: Seq<ResolvedModel>) -> bool {
    exists|i: int| 0 <= i < fs.len() && names(entry, #[trigger] fs[i])
}

/// Lists the entries that name no Feature, and so have no effect.
pub fn unmatched_override_entries(features: &Vec<ResolvedFeature>, override_order: &Vec<String>) -> (r: Vec<String>)
    ensures
        r.deep_view() == override_order.deep_view().filter(
            |e: Seq<char>| !names_any(e, features.deep_view()),
        ),
{
    let ghost fs = features.deep_view();
    let ghost o = override_order.deep_view();
    let ghost p = |e: Seq<char>| !names_any(e, fs);
    let mut out: Vec<String> = Vec::new();
    let mut i: usize = 0;
    proof {
        reveal(Seq::filter);
    }
    assert(out.deep_view() =~= o.subrange(0, 0).filter(p));
    while i < override_order.len()
        invariant
            fs == features.deep_view(),
            o == override_order.deep_view(),
            p == (|e: Seq<char>| !names_any(e, fs)),
            i <= override_order.len(),
            out.deep_view() == o.subrange(0, i as int).filter(p),
        decreases override_order.len() - i,
    {
        proof {
            reveal(Seq::filter);
        }
        assert(o.subrange(0, i + 1).drop_last() =~= o.subrange(0, i as int));
        assert(o[i as int] == override_order@[i as int]@);
        let mut found = false;
        let mut k: usize = 0;
        while k < features.len() && !found
            invariant
                fs == features.deep_view(),
                i < override_order.len(),
                k <= features.len(),
                found ==> names_any(override_order@[i as int]@, fs),
                !found ==> forall|j: int| 0 <= j < k ==> !names(override_order@[i as int]@, #[trigger] fs[j]),
            decreases features.len() - k,
        {
            assert(fs[k as int] == features@[k as int].deep_view());
            if names_feature(override_order[i].as_str(), &features[k]) {
                found = true;
            }
            k = k + 1;
        }
        if !found {
            text::push_str(&mut out, override_order[i].as_str());
        }
        i = i + 1;
    }
    assert(o.subrange(0, o.len() as int) =~= o);
    out
}

// ----------------------------------------------------------------------------------------------
// Rounds
// ----------------------------------------------------------------------------------------------

/// Whether one of some Features has a key.
pub open spec fn has_key(fs: Seq<ResolvedModel>, key: Seq<char>) -> bool {
    exists|i: int| 0 <= i < fs.len() && (#[trigger] fs[i]).key() == key
}

/// Whether one of some Features goes by a name.
pub open spec fn has_name(fs: Seq<ResolvedModel>, name: Seq<char>) -> bool {
    exists|i: int| 0 <= i < fs.len() && (#[trigger] fs[i]).reference.untagged() == name
}

/// Whether a Feature's hard dependencies are all in.
pub open spec fn hard_met(f: ResolvedModel, done: Seq<ResolvedModel>) -> bool {
    forall|i: int| 0 <= i < f.hard_deps.len() ==> has_key(done, #[trigger] f.hard_deps[i])
}

/// Whether a Feature's hints are all heeded. One that names a Feature which is not installed is.
pub open spec fn soft_met(f: ResolvedModel, all: Seq<ResolvedModel>, done: Seq<ResolvedModel>) -> bool {
    forall|i: int|
        0 <= i < f.metadata.installs_after.len() ==> !has_name(
            all,
            bare_entry(#[trigger] f.metadata.installs_after[i]),
        ) || has_name(done, bare_entry(f.metadata.installs_after[i]))
}

/// Whether a Feature can go in now.
pub open spec fn eligible(f: ResolvedModel, all: Seq<ResolvedModel>, done: Seq<ResolvedModel>) -> bool {
    hard_met(f, done) && soft_met(f, all, done)
}

/// The Features that can go in now.
pub open spec fn ready(work: Seq<ResolvedModel>, all: Seq<ResolvedModel>, done: Seq<ResolvedModel>) -> Seq<ResolvedModel> {
    work.filter(|f: ResolvedModel| eligible(f, all, done))
}

/// The Features that cannot.
pub open spec fn waiting(work: Seq<ResolvedModel>, all: Seq<ResolvedModel>, done: Seq<ResolvedModel>) -> Seq<
    ResolvedModel,
> {
    work.filter(|f: ResolvedModel| !eligible(f, all, done))
}

/// The highest priority among some Features.
pub open spec fn top_priority(fs: Seq<ResolvedModel>, order: Seq<Seq<char>>) -> nat
    decreases fs.len(),
{
    if fs.len() == 0 {
        0
    } else {
        let rest = top_priority(fs.drop_last(), order);
        if priority(fs.last(), order) > rest {
            priority(fs.last(), order)
        } else {
            rest
        }
    }
}

/// The Features of the highest priority.
pub open spec fn foremost(fs: Seq<ResolvedModel>, order: Seq<Seq<char>>) -> Seq<ResolvedModel> {
    fs.filter(|f: ResolvedModel| priority(f, order) == top_priority(fs, order))
}

/// The Features of a lower priority.
pub open spec fn deferred(fs: Seq<ResolvedModel>, order: Seq<Seq<char>>) -> Seq<ResolvedModel> {
    fs.filter(|f: ResolvedModel| priority(f, order) != top_priority(fs, order))
}

/// The error for Features none of which can go in.
pub open spec fn circular(work: Seq<ResolvedModel>) -> AmErrorModel {
    AmErrorModel::DevcontainerBuildFailed(
        "these Features depend on each other circularly: "@ + text::joined(
            work.map_values(|f: ResolvedModel| f.reference.raw),
            ", "@,
        ),
    )
}

/// Installs `work` after `done`, round by round.
pub open spec fn rounds(
    work: Seq<ResolvedModel>,
    all: Seq<ResolvedModel>,
    done: Seq<ResolvedModel>,
    order: Seq<Seq<char>>,
) -> Result<Seq<ResolvedModel>, AmErrorModel>
    decreases work.len(),
{
    let now = ready(work, all, done);
    if work.len() == 0 {
        Ok(done)
    } else if now.len() == 0 {
        Err(circular(work))
    } else {
        let rest = waiting(work, all, done) + deferred(now, order);
        proof {
            lemma_round_shrinks(work, all, done, order);
        }
        rounds(rest, all, done + sorted(foremost(now, order)), order)
    }
}

/// The order in which Features are installed.
pub open spec fn installed(fs: Seq<ResolvedModel>, order: Seq<Seq<char>>) -> Result<Seq<ResolvedModel>, AmErrorModel> {
    rounds(fs, fs, Seq::empty(), order)
}

proof fn lemma_filter_splits(s: Seq<ResolvedModel>, p: spec_fn(ResolvedModel) -> bool, q: spec_fn(ResolvedModel) -> bool)
    requires
        forall|f: ResolvedModel| #[trigger] q(f) == !p(f),
    ensures
        s.filter(p).len() + s.filter(q).len() == s.len(),
        s.filter(p).to_multiset().add(s.filter(q).to_multiset()) == s.to_multiset(),
    decreases s.len(),
{
    broadcast use vstd::seq_lib::group_to_multiset_ensures;

    reveal(Seq::filter);
    if s.len() > 0 {
        let r = s.drop_last();
        lemma_filter_splits(r, p, q);
        assert(s =~= r.push(s.last()));
        assert(q(s.last()) == !p(s.last()));
        assert(s.filter(p).to_multiset().add(s.filter(q).to_multiset()) =~= s.to_multiset());
    } else {
        assert(s.filter(p).to_multiset().add(s.filter(q).to_multiset()) =~= s.to_multiset());
    }
}

proof fn lemma_top_attained(fs: Seq<ResolvedModel>, order: Seq<Seq<char>>)
    requires
        fs.len() > 0,
    ensures
        exists|i: int| 0 <= i < fs.len() && priority(#[trigger] fs[i], order) == top_priority(fs, order),
        forall|i: int| 0 <= i < fs.len() ==> priority(#[trigger] fs[i], order) <= top_priority(fs, order),
    decreases fs.len(),
{
    let r = fs.drop_last();
    if r.len() > 0 {
        lemma_top_attained(r, order);
        let k = choose|i: int| 0 <= i < r.len() && priority(#[trigger] r[i], order) == top_priority(r, order);
        assert(fs[k] == r[k]);
        assert forall|i: int| 0 <= i < fs.len() implies priority(#[trigger] fs[i], order) <= top_priority(fs, order) by {
            if i < r.len() {
                assert(fs[i] == r[i]);
            }
        }
    } else {
        assert(fs[0] == fs.last());
        assert(top_priority(r, order) == 0);
    }
    assert(fs[fs.len() - 1] == fs.last());
}

proof fn lemma_placed_keeps(s: Seq<ResolvedModel>, x: ResolvedModel)
    ensures
        placed(s, x).to_multiset() == s.to_multiset().insert(x),
        placed(s, x).len() == s.len() + 1,
    decreases s.len(),
{
    broadcast use vstd::seq_lib::group_to_multiset_ensures;

    if s.len() > 0 && round_rank(x, s.last()) == Rank::Before {
        let r = s.drop_last();
        lemma_placed_keeps(r, x);
        assert(s =~= r.push(s.last()));
        assert(placed(s, x).to_multiset() =~= s.to_multiset().insert(x));
    }
}

proof fn lemma_sorted_keeps(s: Seq<ResolvedModel>)
    ensures
        sorted(s).to_multiset() == s.to_multiset(),
        sorted(s).len() == s.len(),
    decreases s.len(),
{
    broadcast use vstd::seq_lib::group_to_multiset_ensures;

    if s.len() > 0 {
        lemma_sorted_keeps(s.drop_last());
        lemma_placed_keeps(sorted(s.drop_last()), s.last());
        assert(s =~= s.drop_last().push(s.last()));
    } else {
        assert(s =~= Seq::empty());
    }
}

/// A round that installs something leaves fewer to install, and loses none.
pub proof fn lemma_round_shrinks(
    work: Seq<ResolvedModel>,
    all: Seq<ResolvedModel>,
    done: Seq<ResolvedModel>,
    order: Seq<Seq<char>>,
)
    requires
        ready(work, all, done).len() > 0,
    ensures
        ({
            let now = ready(work, all, done);
            let rest = waiting(work, all, done) + deferred(now, order);
            let more = done + sorted(foremost(now, order));
            &&& rest.len() < work.len()
            &&& rest.to_multiset().add(more.to_multiset()) == work.to_multiset().add(done.to_multiset())
        }),
{
    broadcast use vstd::seq_lib::group_to_multiset_ensures;

    let p = |f: ResolvedModel| eligible(f, all, done);
    let q = |f: ResolvedModel| !eligible(f, all, done);
    lemma_filter_splits(work, p, q);
    let now = ready(work, all, done);
    let p2 = |f: ResolvedModel| priority(f, order) == top_priority(now, order);
    let q2 = |f: ResolvedModel| priority(f, order) != top_priority(now, order);
    lemma_filter_splits(now, p2, q2);
    lemma_top_attained(now, order);
    let k = choose|i: int| 0 <= i < now.len() && priority(#[trigger] now[i], order) == top_priority(now, order);
    assert(p2(now[k]));
    now.lemma_filter_contains(p2, k);
    assert(foremost(now, order).len() > 0);
    let wait = waiting(work, all, done);
    let late = deferred(now, order);
    let first = foremost(now, order);
    lemma_sorted_keeps(first);
    vstd::seq_lib::lemma_multiset_commutative(wait, late);
    vstd::seq_lib::lemma_multiset_commutative(done, sorted(first));
    assert((wait + late).to_multiset().add((done + sorted(first)).to_multiset()) =~= work.to_multiset().add(
        done.to_multiset(),
    ));
}

fn has_key_in(fs: &Vec<ResolvedFeature>, key: &str) -> (r: bool)
    ensures
        r == has_key(fs.deep_view(), key@),
{
    let ghost s = fs.deep_view();
    let mut i: usize = 0;
    while i < fs.len()
        invariant
            s == fs.deep_view(),
            i <= fs.len(),
            forall|j: int| 0 <= j < i ==> (#[trigger] s[j]).key() != key@,
        decreases fs.len() - i,
    {
        assert(s[i as int] == fs@[i as int].deep_view());
        let k = fs[i].key();
        if text::eq(k.as_str(), key) {
            return true;
        }
        i = i + 1;
    }
    false
}

fn has_name_in(fs: &Vec<ResolvedFeature>, name: &str) -> (r: bool)
    ensures
        r == has_name(fs.deep_view(), name@),
{
    let ghost s = fs.deep_view();
    let mut i: usize = 0;
    while i < fs.len()
        invariant
            s == fs.deep_view(),
            i <= fs.len(),
            forall|j: int| 0 <= j < i ==> (#[trigger] s[j]).reference.untagged() != name@,
        decreases fs.len() - i,
    {
        assert(s[i as int] == fs@[i as int].deep_view());
        let k = fs[i].reference.untagged();
        if text::eq(k.as_str(), name) {
            return true;
        }
        i = i + 1;
    }
    false
}

fn untagged_names(fs: &Vec<ResolvedFeature>) -> (r: Vec<String>)
    ensures
        r.deep_view() == fs.deep_view().map_values(|f: ResolvedModel| f.reference.untagged()),
{
    let ghost s = fs.deep_view().map_values(|f: ResolvedModel| f.reference.untagged());
    let mut out: Vec<String> = Vec::new();
    let mut i: usize = 0;
    assert(out.deep_view() =~= s.subrange(0, 0));
    while i < fs.len()
        invariant
            s == fs.deep_view().map_values(|f: ResolvedModel| f.reference.untagged()),
            i <= fs.len(),
            out.deep_view() == s.subrange(0, i as int),
        decreases fs.len() - i,
    {
        text::push(&mut out, fs[i].reference.untagged());
        assert(s.subrange(0, i + 1) =~= s.subrange(0, i as int).push(s[i as int]));
        i = i + 1;
    }
    assert(s.subrange(0, s.len() as int) =~= s);
    out
}

fn contains_name(names: &Vec<String>, name: &str) -> (r: bool)
    ensures
        r == exists|i: int| 0 <= i < names.deep_view().len() && (#[trigger] names.deep_view()[i]) == name@,
{
    let mut i: usize = 0;
    while i < names.len()
        invariant
            i <= names.len(),
            forall|j: int| 0 <= j < i ==> (#[trigger] names.deep_view()[j]) != name@,
        decreases names.len() - i,
    {
        assert(names.deep_view()[i as int] == names@[i as int]@);
        if text::eq(names[i].as_str(), name) {
            return true;
        }
        i = i + 1;
    }
    false
}

fn is_eligible(f: &ResolvedFeature, names: &Vec<String>, all: Ghost<Seq<ResolvedModel>>, done: &Vec<ResolvedFeature>) -> (r:
    bool)
    requires
        names.deep_view() == all@.map_values(|f: ResolvedModel| f.reference.untagged()),
    ensures
        r == eligible(f.deep_view(), all@, done.deep_view()),
{
    let ghost m = f.deep_view();
    let ghost d = done.deep_view();
    let mut i: usize = 0;
    while i < f.hard_deps.len()
        invariant
            m == f.deep_view(),
            d == done.deep_view(),
            i <= f.hard_deps.len(),
            forall|j: int| 0 <= j < i ==> has_key(d, #[trigger] m.hard_deps[j]),
        decreases f.hard_deps.len() - i,
    {
        assert(m.hard_deps[i as int] == f.hard_deps@[i as int]@);
        if !has_key_in(done, f.hard_deps[i].as_str()) {
            return false;
        }
        i = i + 1;
    }
    let mut k: usize = 0;
    while k < f.metadata.installs_after.len()
        invariant
            m == f.deep_view(),
            d == done.deep_view(),
            names.deep_view() == all@.map_values(|f: ResolvedModel| f.reference.untagged()),
            k <= f.metadata.installs_after.len(),
            forall|j: int|
                0 <= j < k ==> !has_name(all@, bare_entry(#[trigger] m.metadata.installs_after[j])) || has_name(
                    d,
                    bare_entry(m.metadata.installs_after[j]),
                ),
        decreases f.metadata.installs_after.len() - k,
    {
        assert(m.metadata.installs_after[k as int] == f.metadata.installs_after@[k as int]@);
        let name = bare(f.metadata.installs_after[k].as_str());
        let listed = contains_name(names, name.as_str());
        proof {
            assert(listed == has_name(all@, name@)) by {
                if listed {
                    let j = choose|j: int| 0 <= j < names.deep_view().len() && (#[trigger] names.deep_view()[j]) == name@;
                    assert(all@[j].reference.untagged() == name@);
                }
                if has_name(all@, name@) {
                    let j = choose|j: int| 0 <= j < all@.len() && (#[trigger] all@[j]).reference.untagged() == name@;
                    assert(names.deep_view()[j] == name@);
                }
            }
        }
        if listed && !has_name_in(done, name.as_str()) {
            return false;
        }
        k = k + 1;
    }
    true
}

/// Parts the Features that can go in now from those that cannot.
fn part_ready(
    work: Vec<ResolvedFeature>,
    names: &Vec<String>,
    all: Ghost<Seq<ResolvedModel>>,
    done: &Vec<ResolvedFeature>,
) -> (r: (Vec<ResolvedFeature>, Vec<ResolvedFeature>))
    requires
        names.deep_view() == all@.map_values(|f: ResolvedModel| f.reference.untagged()),
    ensures
        r.0.deep_view() == ready(work.deep_view(), all@, done.deep_view()),
        r.1.deep_view() == waiting(work.deep_view(), all@, done.deep_view()),
{
    let ghost w = work.deep_view();
    let ghost p = |f: ResolvedModel| eligible(f, all@, done.deep_view());
    let ghost q = |f: ResolvedModel| !eligible(f, all@, done.deep_view());
    let n: usize = work.len();
    let mut work = work;
    let mut yes: Vec<ResolvedFeature> = Vec::new();
    let mut no: Vec<ResolvedFeature> = Vec::new();
    let mut i: usize = 0;
    proof {
        reveal(Seq::filter);
    }
    assert(yes.deep_view() =~= w.subrange(0, 0).filter(p));
    assert(no.deep_view() =~= w.subrange(0, 0).filter(q));
    assert(w.subrange(0, w.len() as int) =~= w);
    while i < n
        invariant
            names.deep_view() == all@.map_values(|f: ResolvedModel| f.reference.untagged()),
            p == (|f: ResolvedModel| eligible(f, all@, done.deep_view())),
            q == (|f: ResolvedModel| !eligible(f, all@, done.deep_view())),
            n == w.len(),
            i <= n,
            work.deep_view() == w.subrange(i as int, n as int),
            yes.deep_view() == w.subrange(0, i as int).filter(p),
            no.deep_view() == w.subrange(0, i as int).filter(q),
        decreases n - i,
    {
        proof {
            reveal(Seq::filter);
        }
        assert(work.deep_view().len() == n - i);
        assert(work.deep_view()[0] == w[i as int]);
        assert(w.subrange(0, i + 1).drop_last() =~= w.subrange(0, i as int));
        let ghost before_yes = yes.deep_view();
        let ghost before_no = no.deep_view();
        let f = take_first(&mut work);
        assert(f.deep_view() == w[i as int]);
        assert(work.deep_view() =~= w.subrange(i + 1, n as int));
        if is_eligible(&f, names, all, done) {
            yes.push(f);
            assert(yes.deep_view() =~= before_yes.push(w[i as int]));
        } else {
            no.push(f);
            assert(no.deep_view() =~= before_no.push(w[i as int]));
        }
        i = i + 1;
    }
    (yes, no)
}

fn highest(fs: &Vec<ResolvedFeature>, override_order: &Vec<String>) -> (r: usize)
    ensures
        r == top_priority(fs.deep_view(), override_order.deep_view()),
{
    let ghost s = fs.deep_view();
    let mut top: usize = 0;
    let mut i: usize = 0;
    while i < fs.len()
        invariant
            s == fs.deep_view(),
            i <= fs.len(),
            top == top_priority(s.subrange(0, i as int), override_order.deep_view()),
        decreases fs.len() - i,
    {
        assert(s.subrange(0, i + 1).drop_last() =~= s.subrange(0, i as int));
        assert(s[i as int] == fs@[i as int].deep_view());
        let p: usize = round_priority(&fs[i], override_order);
        if p > top {
            top = p;
        }
        i = i + 1;
    }
    assert(s.subrange(0, s.len() as int) =~= s);
    top
}

/// Parts the Features of the highest priority from the others.
fn part_foremost(now: Vec<ResolvedFeature>, override_order: &Vec<String>) -> (r: (
    Vec<ResolvedFeature>,
    Vec<ResolvedFeature>,
))
    ensures
        r.0.deep_view() == foremost(now.deep_view(), override_order.deep_view()),
        r.1.deep_view() == deferred(now.deep_view(), override_order.deep_view()),
{
    let ghost w = now.deep_view();
    let ghost o = override_order.deep_view();
    let top: usize = highest(&now, override_order);
    let ghost p = |f: ResolvedModel| priority(f, o) == top_priority(w, o);
    let ghost q = |f: ResolvedModel| priority(f, o) != top_priority(w, o);
    let n: usize = now.len();
    let mut now = now;
    let mut yes: Vec<ResolvedFeature> = Vec::new();
    let mut no: Vec<ResolvedFeature> = Vec::new();
    let mut i: usize = 0;
    proof {
        reveal(Seq::filter);
    }
    assert(yes.deep_view() =~= w.subrange(0, 0).filter(p));
    assert(no.deep_view() =~= w.subrange(0, 0).filter(q));
    assert(w.subrange(0, w.len() as int) =~= w);
    while i < n
        invariant
            o == override_order.deep_view(),
            top == top_priority(w, o),
            p == (|f: ResolvedModel| priority(f, o) == top_priority(w, o)),
            q == (|f: ResolvedModel| priority(f, o) != top_priority(w, o)),
            n == w.len(),
            i <= n,
            now.deep_view() == w.subrange(i as int, n as int),
            yes.deep_view() == w.subrange(0, i as int).filter(p),
            no.deep_view() == w.subrange(0, i as int).filter(q),
        decreases n - i,
    {
        proof {
            reveal(Seq::filter);
        }
        assert(now.deep_view().len() == n - i);
        assert(now.deep_view()[0] == w[i as int]);
        assert(w.subrange(0, i + 1).drop_last() =~= w.subrange(0, i as int));
        let ghost before_yes = yes.deep_view();
        let ghost before_no = no.deep_view();
        let f = take_first(&mut now);
        assert(f.deep_view() == w[i as int]);
        assert(now.deep_view() =~= w.subrange(i + 1, n as int));
        if round_priority(&f, override_order) == top {
            yes.push(f);
            assert(yes.deep_view() =~= before_yes.push(w[i as int]));
        } else {
            no.push(f);
            assert(no.deep_view() =~= before_no.push(w[i as int]));
        }
        i = i + 1;
    }
    (yes, no)
}

fn append_all(v: &mut Vec<ResolvedFeature>, more: Vec<ResolvedFeature>)
    ensures
        final(v).deep_view() == old(v).deep_view() + more.deep_view(),
{
    let ghost base = v.deep_view();
    let ghost m = more.deep_view();
    let mut more = more;
    v.append(&mut more);
    assert(v.deep_view() =~= base + m);
}

fn written_ids(fs: &Vec<ResolvedFeature>) -> (r: Vec<String>)
    ensures
        r.deep_view() == fs.deep_view().map_values(|f: ResolvedModel| f.reference.raw),
{
    let ghost s = fs.deep_view().map_values(|f: ResolvedModel| f.reference.raw);
    let mut out: Vec<String> = Vec::new();
    let mut i: usize = 0;
    assert(out.deep_view() =~= s.subrange(0, 0));
    while i < fs.len()
        invariant
            s == fs.deep_view().map_values(|f: ResolvedModel| f.reference.raw),
            i <= fs.len(),
            out.deep_view() == s.subrange(0, i as int),
        decreases fs.len() - i,
    {
        text::push_str(&mut out, fs[i].reference.raw.as_str());
        assert(s.subrange(0, i + 1) =~= s.subrange(0, i as int).push(s[i as int]));
        i = i + 1;
    }
    assert(s.subrange(0, s.len() as int) =~= s);
    out
}

/// Orders Features for installation. `override_order` raises the Features that it names within what
/// their dependencies allow.
pub fn install_order(features: Vec<ResolvedFeature>, override_order: &Vec<String>) -> (r: Result<
    Vec<ResolvedFeature>,
    AmError,
>)
    ensures
        crate::error::outcome(r) == installed(features.deep_view(), override_order.deep_view()),
{
    let ghost all = features.deep_view();
    let ghost o = override_order.deep_view();
    let names = untagged_names(&features);
    let mut work = features;
    let mut done: Vec<ResolvedFeature> = Vec::new();
    assert(done.deep_view() =~= Seq::empty());
    while work.len() > 0
        invariant
            all == features.deep_view(),
            o == override_order.deep_view(),
            names.deep_view() == all.map_values(|f: ResolvedModel| f.reference.untagged()),
            installed(all, o) == rounds(work.deep_view(), all, done.deep_view(), o),
        decreases work.len(),
    {
        let ghost w = work.deep_view();
        let ghost d = done.deep_view();
        let (now, rest) = part_ready(work, &names, Ghost(all), &done);
        if now.len() == 0 {
            proof {
                let p = |f: ResolvedModel| eligible(f, all, d);
                let q = |f: ResolvedModel| !eligible(f, all, d);
                lemma_filter_all(w, p, q);
            }
            let ids = written_ids(&rest);
            let cycle = text::join(&ids, ", ");
            return Err(
                AmError::DevcontainerBuildFailed(
                    text::cat2("these Features depend on each other circularly: ", cycle.as_str()),
                ),
            );
        }
        proof {
            lemma_round_shrinks(w, all, d, o);
        }
        let (first, late) = part_foremost(now, override_order);
        let sorted_round = sort_round(first);
        append_all(&mut done, sorted_round);
        work = rest;
        append_all(&mut work, late);
    }
    Ok(done)
}

proof fn lemma_filter_all(s: Seq<ResolvedModel>, p: spec_fn(ResolvedModel) -> bool, q: spec_fn(ResolvedModel) -> bool)
    requires
        forall|f: ResolvedModel| #[trigger] q(f) == !p(f),
        s.filter(p).len() == 0,
    ensures
        s.filter(q) == s,
    decreases s.len(),
{
    reveal(Seq::filter);
    if s.len() > 0 {
        assert(q(s.last()) == !p(s.last()));
        lemma_filter_all(s.drop_last(), p, q);
        assert(s =~= s.drop_last().push(s.last()));
    }
}

} // verus!
