//! What holds of every graph of Features.

use vstd::prelude::*;

use super::GraphModel;
use crate::devcontainer::native::feature;
use crate::devcontainer::native::fetch::{self, FetchedModel, RequestModel};
use crate::devcontainer::native::oci::FeatureKind;
use crate::strmap;

verus! {

impl GraphModel {
    /// Whether there is something to fetch.
    pub open spec fn unfinished(self) -> bool {
        self.skipped().worklist.len() > 0
    }

    /// The request to answer next.
    pub open spec fn upcoming(self) -> RequestModel {
        self.skipped().worklist[0]
    }

    /// The graph after the next request has been answered.
    pub open spec fn stepped(self, f: FetchedModel) -> GraphModel {
        self.skipped().popped().supplied(self.upcoming(), f)
    }

    /// Whether every Feature is found under what it is known by.
    pub open spec fn identified(self) -> bool {
        &&& strmap::sorted(self.by_identity)
        &&& forall|i: int|
            0 <= i < self.nodes.len() ==> strmap::get(self.by_identity, (#[trigger] self.nodes[i]).0.key()) == Some(
                i as usize,
            )
    }

    /// Whether a request has been answered, or will be.
    pub open spec fn in_hand(self, request: Seq<char>) -> bool {
        strmap::get(self.by_request, request) is Some || awaits(self.worklist, request)
    }

    /// Whether every dependency is taken care of: each Feature has at most one list of them, and all in it
    /// have been answered or will be.
    pub open spec fn attended(self) -> bool {
        &&& strmap::sorted(self.by_request)
        &&& forall|l: int| 0 <= l < self.links.len() ==> (#[trigger] self.links[l]).0 < self.nodes.len()
        &&& forall|l: int, m: int|
            0 <= l < m < self.links.len() ==> (#[trigger] self.links[l]).0 < (#[trigger] self.links[m]).0
        &&& forall|l: int, d: int|
            0 <= l < self.links.len() && 0 <= d < self.links[l].1.len() ==> self.in_hand(
                #[trigger] self.links[l].1[d],
            )
    }
}

/// Whether a request is still to be looked at.
pub open spec fn awaits(worklist: Seq<RequestModel>, request: Seq<char>) -> bool {
    exists|i: int| 0 <= i < worklist.len() && (#[trigger] worklist[i]).key() == request
}

/// A new graph is sound.
pub proof fn law_a_new_graph_is_sound(requests: Seq<RequestModel>)
    ensures
        GraphModel::of(requests).identified(),
        GraphModel::of(requests).attended(),
        GraphModel::of(requests).in_bounds(),
{
}

/// Whatever a request brings, every Feature is there once: no two agree in contents and options.
pub proof fn law_every_feature_is_there_once(g: GraphModel, f: FetchedModel)
    requires
        g.identified(),
        g.unfinished(),
        g.nodes.len() < usize::MAX,
    ensures
        g.stepped(f).identified(),
        forall|i: int, j: int|
            0 <= i < j < g.stepped(f).nodes.len() ==> (#[trigger] g.stepped(f).nodes[i]).0.key() != (
            #[trigger] g.stepped(f).nodes[j]).0.key(),
{
    super::lemma_skipped_frame(g);
    let s = g.skipped().popped();
    let item = g.upcoming();
    let identity = feature::keyed(f.digest, item.options);
    let t = g.stepped(f);
    assert(strmap::get(s.by_identity, identity) is None ==> t.identified()) by {
        if strmap::get(s.by_identity, identity) is None {
            let index = s.nodes.len() as usize;
            strmap::lemma_insert_sorted(s.by_identity, identity, index);
            assert forall|i: int| 0 <= i < t.nodes.len() implies strmap::get(
                t.by_identity,
                (#[trigger] t.nodes[i]).0.key(),
            ) == Some(i as usize) by {
                strmap::lemma_get_after_insert(s.by_identity, identity, index, t.nodes[i].0.key());
                if i < s.nodes.len() {
                    assert(t.nodes[i] == s.nodes[i]);
                } else {
                    assert(t.nodes[i].0 == super::node_of(item, f));
                }
            }
        }
    }
    assert forall|i: int, j: int| 0 <= i < j < t.nodes.len() implies (#[trigger] t.nodes[i]).0.key() != (
    #[trigger] t.nodes[j]).0.key() by {
        assert(t.nodes.len() <= usize::MAX);
    }
}

/// No request is answered twice, and none that was answered is forgotten.
pub proof fn law_nothing_is_fetched_twice(g: GraphModel, f: FetchedModel, request: Seq<char>)
    requires
        strmap::sorted(g.by_request),
        g.unfinished(),
    ensures
        strmap::get(g.by_request, g.upcoming().key()) is None,
        strmap::get(g.stepped(f).by_request, g.upcoming().key()) is Some,
        strmap::get(g.by_request, request) is Some ==> strmap::get(g.stepped(f).by_request, request) is Some,
{
    super::lemma_skipped_frame(g);
    let s = g.skipped().popped();
    let item = g.upcoming();
    let identity = feature::keyed(f.digest, item.options);
    let i = match strmap::get(s.by_identity, identity) {
        Some(i) => i,
        None => s.nodes.len() as usize,
    };
    strmap::lemma_get_after_insert(s.by_request, item.key(), i, item.key());
    strmap::lemma_get_after_insert(s.by_request, item.key(), i, request);
}

proof fn lemma_skipped_in_hand(g: GraphModel, request: Seq<char>)
    requires
        g.in_hand(request),
    ensures
        g.skipped().in_hand(request),
    decreases g.worklist.len(),
{
    if g.worklist.len() > 0 && strmap::get(g.by_request, g.worklist[0].key()) is Some {
        let p = g.popped();
        if strmap::get(g.by_request, request) is None {
            let i = choose|i: int| 0 <= i < g.worklist.len() && (#[trigger] g.worklist[i]).key() == request;
            assert(i > 0);
            assert(p.worklist[i - 1] == g.worklist[i]);
        }
        lemma_skipped_in_hand(p, request);
    }
}

/// Whatever a request brings, one that was answered or awaited stays so: none is lost.
pub proof fn law_no_request_is_lost(g: GraphModel, f: FetchedModel, request: Seq<char>)
    requires
        strmap::sorted(g.by_request),
        g.unfinished(),
        g.in_hand(request),
    ensures
        g.stepped(f).in_hand(request),
{
    super::lemma_skipped_frame(g);
    let q = g.skipped();
    let s = q.popped();
    let item = g.upcoming();
    let t = g.stepped(f);
    let index = match strmap::get(s.by_identity, feature::keyed(f.digest, item.options)) {
        Some(i) => i,
        None => s.nodes.len() as usize,
    };
    assert(t.by_request == strmap::insert(s.by_request, item.key(), index));
    lemma_skipped_in_hand(g, request);
    strmap::lemma_get_after_insert(s.by_request, item.key(), index, request);
    if strmap::get(q.by_request, request) is None {
        let i = choose|i: int| 0 <= i < q.worklist.len() && (#[trigger] q.worklist[i]).key() == request;
        if i > 0 {
            assert(s.worklist[i - 1] == q.worklist[i]);
            assert(t.worklist[i - 1] == s.worklist[i - 1]);
        }
    }
}

/// Whatever a request brings, every dependency stays taken care of.
pub proof fn law_dependencies_are_attended_to(g: GraphModel, f: FetchedModel)
    requires
        g.attended(),
        g.unfinished(),
        g.nodes.len() < usize::MAX,
    ensures
        g.stepped(f).attended(),
{
    super::lemma_skipped_frame(g);
    let q = g.skipped();
    let s = q.popped();
    let item = g.upcoming();
    let identity = feature::keyed(f.digest, item.options);
    let t = g.stepped(f);
    let deps = super::requests_for(fetch::dependencies(f.metadata));
    let index = match strmap::get(s.by_identity, identity) {
        Some(i) => i,
        None => s.nodes.len() as usize,
    };
    strmap::lemma_insert_sorted(s.by_request, item.key(), index);
    assert(t.by_request == strmap::insert(s.by_request, item.key(), index));
    assert forall|r: Seq<char>| g.in_hand(r) implies #[trigger] t.in_hand(r) by {
        law_no_request_is_lost(g, f, r);
    }
    assert forall|l: int, d: int| 0 <= l < t.links.len() && 0 <= d < t.links[l].1.len() implies t.in_hand(
        #[trigger] t.links[l].1[d],
    ) by {
        if l < g.links.len() {
            assert(t.links[l] == g.links[l]);
            assert(g.in_hand(g.links[l].1[d]));
        } else {
            assert(t.links[l].1 == super::request_keys(deps));
            assert(t.worklist[s.worklist.len() + d] == deps[d]);
            assert(deps[d].key() == t.links[l].1[d]);
        }
    }
    assert forall|l: int| 0 <= l < t.links.len() implies (#[trigger] t.links[l]).0 < t.nodes.len() by {
        if l < g.links.len() {
            assert(t.links[l] == g.links[l]);
        }
    }
    assert forall|l: int, m: int| 0 <= l < m < t.links.len() implies (#[trigger] t.links[l]).0 < (
    #[trigger] t.links[m]).0 by {
        assert(t.links[l] == g.links[l]);
        if m < g.links.len() {
            assert(t.links[m] == g.links[m]);
        }
    }
}

proof fn lemma_keys_for(g: GraphModel, requests: Seq<Seq<char>>)
    requires
        forall|d: int| 0 <= d < requests.len() ==> strmap::get(g.by_request, #[trigger] requests[d]) is Some,
    ensures
        g.keys_for(requests).len() == requests.len(),
        forall|d: int|
            0 <= d < requests.len() ==> (#[trigger] g.keys_for(requests)[d]) == g.nodes[strmap::get(
                g.by_request,
                requests[d],
            )->0 as int].0.key(),
    decreases requests.len(),
{
    if requests.len() > 0 {
        let r = requests.drop_last();
        assert forall|d: int| 0 <= d < r.len() implies strmap::get(g.by_request, #[trigger] r[d]) is Some by {
            assert(r[d] == requests[d]);
        }
        lemma_keys_for(g, r);
        assert(requests[requests.len() - 1] == requests.last());
        assert(strmap::get(g.by_request, requests.last()) is Some);
        assert forall|d: int| 0 <= d < requests.len() implies (#[trigger] g.keys_for(requests)[d])
            == g.nodes[strmap::get(g.by_request, requests[d])->0 as int].0.key() by {
            if d < r.len() {
                assert(r[d] == requests[d]);
                assert(g.keys_for(requests)[d] == g.keys_for(r)[d]);
            }
        }
    }
}

proof fn lemma_hard_deps(g: GraphModel, links: Seq<(usize, Seq<Seq<char>>)>, l: int)
    requires
        0 <= l < links.len(),
        forall|m: int| 0 <= m < links.len() ==> (#[trigger] links[m]).0 < g.nodes.len(),
        forall|m: int, n: int| 0 <= m < n < links.len() ==> (#[trigger] links[m]).0 < (#[trigger] links[n]).0,
    ensures
        g.hard_deps(links).len() == g.nodes.len(),
        g.hard_deps(links)[links[l].0 as int] == g.keys_for(links[l].1),
    decreases links.len(),
{
    let r = links.drop_last();
    lemma_hard_len(g, links);
    assert(links[links.len() - 1] == links.last());
    assert forall|m: int| 0 <= m < r.len() implies (#[trigger] r[m]).0 < g.nodes.len() by {
        assert(r[m] == links[m]);
    }
    lemma_hard_len(g, r);
    if l < links.len() - 1 {
        assert forall|m: int, n: int| 0 <= m < n < r.len() implies (#[trigger] r[m]).0 < (#[trigger] r[n]).0 by {
            assert(r[m] == links[m] && r[n] == links[n]);
        }
        lemma_hard_deps(g, r, l);
        assert(r[l] == links[l]);
        assert(links[l].0 < links[links.len() - 1].0);
    }
}

proof fn lemma_hard_len(g: GraphModel, links: Seq<(usize, Seq<Seq<char>>)>)
    requires
        forall|m: int| 0 <= m < links.len() ==> (#[trigger] links[m]).0 < g.nodes.len(),
    ensures
        g.hard_deps(links).len() == g.nodes.len(),
    decreases links.len(),
{
    if links.len() > 0 {
        let r = links.drop_last();
        assert forall|m: int| 0 <= m < r.len() implies (#[trigger] r[m]).0 < g.nodes.len() by {
            assert(r[m] == links[m]);
        }
        lemma_hard_len(g, r);
        assert(links[links.len() - 1] == links.last());
    }
}

/// Once nothing is left to fetch, no dependency is missing: every Feature is linked to the one that each
/// of its dependencies led to.
pub proof fn law_no_dependency_is_missing(g: GraphModel, l: int)
    requires
        g.attended(),
        !g.unfinished(),
        0 <= l < g.links.len(),
    ensures
        ({
            let hard = g.linked()[g.links[l].0 as int].0.hard_deps;
            &&& hard.len() == g.links[l].1.len()
            &&& forall|d: int|
                0 <= d < hard.len() ==> (#[trigger] hard[d]) == g.nodes[strmap::get(
                    g.by_request,
                    g.links[l].1[d],
                )->0 as int].0.key()
        }),
{
    super::lemma_skipped_frame(g);
    assert forall|d: int| 0 <= d < g.links[l].1.len() implies strmap::get(
        g.by_request,
        #[trigger] g.links[l].1[d],
    ) is Some by {
        assert(g.in_hand(g.links[l].1[d]));
        lemma_skipped_in_hand(g, g.links[l].1[d]);
    }
    lemma_keys_for(g, g.links[l].1);
    lemma_hard_deps(g, g.links, l);
}

/// Linking changes nothing but the dependencies, and leaves every key as it is.
pub proof fn law_linking_keeps_the_features(g: GraphModel, i: int)
    requires
        0 <= i < g.nodes.len(),
    ensures
        g.linked().len() == g.nodes.len(),
        g.linked()[i].0.key() == g.nodes[i].0.key(),
        g.linked()[i].0.reference == g.nodes[i].0.reference,
        g.linked()[i].1 == g.nodes[i].1,
{
}

// ----------------------------------------------------------------------------------------------
// From the first request to the last
// ----------------------------------------------------------------------------------------------

impl GraphModel {
    /// The graph after some requests have been answered, each by what it brought.
    pub open spec fn after(self, answers: Seq<FetchedModel>) -> GraphModel
        decreases answers.len(),
    {
        if answers.len() == 0 {
            self
        } else {
            self.after(answers.drop_last()).stepped(answers.last())
        }
    }

    /// Whether each of the answers was to a request that was still open.
    pub open spec fn takes(self, answers: Seq<FetchedModel>) -> bool
        decreases answers.len(),
    {
        answers.len() > 0 ==> self.takes(answers.drop_last()) && self.after(answers.drop_last()).unfinished()
    }

    /// Whether every answered request led to a Feature with the options that it asked for.
    pub open spec fn faithful(self) -> bool {
        &&& strmap::sorted(self.by_request)
        &&& strmap::sorted(self.by_identity)
        &&& forall|k: Seq<char>|
            #![trigger strmap::get(self.by_identity, k)]
            strmap::get(self.by_identity, k) matches Some(i) ==> i < self.nodes.len() && self.nodes[i as int].0.key()
                == k
        &&& forall|r: RequestModel|
            #![trigger r.key()]
            strmap::get(self.by_request, r.key()) matches Some(i) ==> i < self.nodes.len() && feature::rendered(
                self.nodes[i as int].0.supplied,
            ) == feature::rendered(r.options)
    }

    /// Whether every request, answered or awaited, is one of `keys`.
    pub open spec fn stays_within(self, keys: Set<Seq<char>>) -> bool {
        &&& forall|i: int| 0 <= i < self.by_request.len() ==> keys.contains((#[trigger] self.by_request[i]).0)
        &&& forall|i: int| 0 <= i < self.worklist.len() ==> keys.contains((#[trigger] self.worklist[i]).key())
    }
}

proof fn lemma_faithful_step(g: GraphModel, f: FetchedModel)
    requires
        g.faithful(),
        g.unfinished(),
        g.nodes.len() < usize::MAX,
    ensures
        g.stepped(f).faithful(),
{
    super::lemma_skipped_frame(g);
    let s = g.skipped().popped();
    let item = g.upcoming();
    let identity = feature::keyed(f.digest, item.options);
    let t = g.stepped(f);
    let index = match strmap::get(s.by_identity, identity) {
        Some(i) => i,
        None => s.nodes.len() as usize,
    };
    assert(t.by_request == strmap::insert(s.by_request, item.key(), index));
    strmap::lemma_insert_sorted(s.by_request, item.key(), index);
    strmap::lemma_insert_sorted(s.by_identity, identity, index);
    assert(forall|i: int| 0 <= i < s.nodes.len() ==> t.nodes[i] == #[trigger] s.nodes[i]);
    if strmap::get(s.by_identity, identity) is None {
        assert(t.nodes[s.nodes.len() as int].0 == super::node_of(item, f));
    }
    assert(index < t.nodes.len() && t.nodes[index as int].0.key() == identity);
    feature::law_keys_tell_requests_apart(
        t.nodes[index as int].0.digest,
        t.nodes[index as int].0.supplied,
        f.digest,
        item.options,
    );
    assert forall|k: Seq<char>|
        #![trigger strmap::get(t.by_identity, k)]
        strmap::get(t.by_identity, k) matches Some(i) ==> i < t.nodes.len() && t.nodes[i as int].0.key() == k by {
        strmap::lemma_get_after_insert(s.by_identity, identity, index, k);
        assert(strmap::get(s.by_identity, k) == strmap::get(g.by_identity, k));
    }
    assert forall|r: RequestModel|
        #![trigger r.key()]
        strmap::get(t.by_request, r.key()) matches Some(i) ==> i < t.nodes.len() && feature::rendered(
            t.nodes[i as int].0.supplied,
        ) == feature::rendered(r.options) by {
        strmap::lemma_get_after_insert(s.by_request, item.key(), index, r.key());
        feature::law_keys_tell_requests_apart(r.reference.raw, r.options, item.reference.raw, item.options);
    }
}

proof fn lemma_run(requests: Seq<RequestModel>, answers: Seq<FetchedModel>)
    requires
        GraphModel::of(requests).takes(answers),
        answers.len() < usize::MAX,
    ensures
        ({
            let g = GraphModel::of(requests).after(answers);
            &&& g.faithful()
            &&& g.identified()
            &&& g.attended()
            &&& g.nodes.len() <= answers.len()
            &&& forall|i: int| 0 <= i < requests.len() ==> g.in_hand((#[trigger] requests[i]).key())
        }),
    decreases answers.len(),
{
    let start = GraphModel::of(requests);
    if answers.len() == 0 {
        assert forall|i: int| 0 <= i < requests.len() implies start.in_hand((#[trigger] requests[i]).key()) by {
            assert(start.worklist[i] == requests[i]);
        }
    } else {
        let rest = answers.drop_last();
        let g = start.after(rest);
        lemma_run(requests, rest);
        lemma_faithful_step(g, answers.last());
        law_every_feature_is_there_once(g, answers.last());
        law_dependencies_are_attended_to(g, answers.last());
        super::lemma_skipped_frame(g);
        assert forall|i: int| 0 <= i < requests.len() implies start.after(answers).in_hand(
            (#[trigger] requests[i]).key(),
        ) by {
            law_no_request_is_lost(g, answers.last(), requests[i].key());
        }
    }
}

/// Whatever the requests bring, once nothing is left to fetch each Feature that was asked for at the start
/// is there, with the options that it was asked for with, and no Feature is there twice.
pub proof fn law_every_feature_asked_for_is_there(requests: Seq<RequestModel>, answers: Seq<FetchedModel>, i: int)
    requires
        GraphModel::of(requests).takes(answers),
        !GraphModel::of(requests).after(answers).unfinished(),
        answers.len() < usize::MAX,
        0 <= i < requests.len(),
    ensures
        ({
            let g = GraphModel::of(requests).after(answers);
            &&& strmap::get(g.by_request, requests[i].key()) matches Some(n) && n < g.linked().len()
                && feature::rendered(g.linked()[n as int].0.supplied) == feature::rendered(requests[i].options)
            &&& forall|j: int, k: int|
                0 <= j < k < g.nodes.len() ==> (#[trigger] g.nodes[j]).0.key() != (#[trigger] g.nodes[k]).0.key()
        }),
{
    let g = GraphModel::of(requests).after(answers);
    lemma_run(requests, answers);
    super::lemma_skipped_frame(g);
    assert(g.in_hand(requests[i].key()));
    lemma_skipped_in_hand(g, requests[i].key());
    assert(strmap::get(g.by_request, requests[i].key()) is Some);
    assert forall|j: int, k: int| 0 <= j < k < g.nodes.len() implies (#[trigger] g.nodes[j]).0.key() != (
    #[trigger] g.nodes[k]).0.key() by {
        assert(g.nodes.len() <= usize::MAX);
    }
}

proof fn lemma_insert_grows<V>(s: Seq<(Seq<char>, V)>, k: Seq<char>, v: V)
    requires
        strmap::get(s, k) is None,
    ensures
        strmap::insert(s, k, v).len() == s.len() + 1,
    decreases s.len(),
{
    if s.len() > 0 {
        lemma_insert_grows(s.drop_first(), k, v);
    }
}

proof fn lemma_skipped_within(g: GraphModel, keys: Set<Seq<char>>)
    requires
        g.stays_within(keys),
    ensures
        g.skipped().stays_within(keys),
    decreases g.worklist.len(),
{
    if g.worklist.len() > 0 && strmap::get(g.by_request, g.worklist[0].key()) is Some {
        let p = g.popped();
        assert forall|i: int| 0 <= i < p.worklist.len() implies keys.contains((#[trigger] p.worklist[i]).key()) by {
            assert(p.worklist[i] == g.worklist[i + 1]);
        }
        lemma_skipped_within(p, keys);
    }
}

proof fn lemma_within(requests: Seq<RequestModel>, answers: Seq<FetchedModel>, keys: Set<Seq<char>>)
    requires
        GraphModel::of(requests).takes(answers),
        GraphModel::of(requests).stays_within(keys),
        asks_within(answers, keys),
    ensures
        GraphModel::of(requests).after(answers).stays_within(keys),
        strmap::sorted(GraphModel::of(requests).after(answers).by_request),
        GraphModel::of(requests).after(answers).by_request.len() == answers.len(),
    decreases answers.len(),
{
    if answers.len() > 0 {
        let rest = answers.drop_last();
        let f = answers.last();
        let g = GraphModel::of(requests).after(rest);
        assert forall|i: int| 0 <= i < rest.len() implies keys_within((#[trigger] rest[i]), keys) by {
            assert(rest[i] == answers[i]);
        }
        lemma_within(requests, rest, keys);
        super::lemma_skipped_frame(g);
        lemma_skipped_within(g, keys);
        let q = g.skipped();
        let s = q.popped();
        let item = g.upcoming();
        let t = g.stepped(f);
        let index = match strmap::get(s.by_identity, feature::keyed(f.digest, item.options)) {
            Some(i) => i,
            None => s.nodes.len() as usize,
        };
        assert(t.by_request == strmap::insert(s.by_request, item.key(), index));
        strmap::lemma_insert_sorted(s.by_request, item.key(), index);
        lemma_insert_grows(s.by_request, item.key(), index);
        assert(keys.contains(q.worklist[0].key()));
        assert forall|i: int| 0 <= i < t.by_request.len() implies keys.contains((#[trigger] t.by_request[i]).0) by {
            let e = t.by_request[i];
            if e.0 != item.key() {
                let j = choose|j: int| 0 <= j < s.by_request.len() && (#[trigger] s.by_request[j]).0 == e.0;
                assert(q.by_request[j].0 == e.0);
            }
        }
        let deps = super::requests_for(fetch::dependencies(f.metadata));
        assert(keys_within(answers[answers.len() - 1], keys));
        assert forall|i: int| 0 <= i < t.worklist.len() implies keys.contains((#[trigger] t.worklist[i]).key()) by {
            if i < s.worklist.len() {
                assert(t.worklist[i] == q.worklist[i + 1]);
            } else {
                assert(t.worklist[i] == deps[i - s.worklist.len()]);
            }
        }
    }
}

/// Whether all that a Feature depends on is requested under one of `keys`.
pub open spec fn keys_within(f: FetchedModel, keys: Set<Seq<char>>) -> bool {
    let deps = super::requests_for(fetch::dependencies(f.metadata));
    forall|d: int| 0 <= d < deps.len() ==> keys.contains((#[trigger] deps[d]).key())
}

/// Whether all that some Features depend on is requested under one of `keys`.
pub open spec fn asks_within(answers: Seq<FetchedModel>, keys: Set<Seq<char>>) -> bool {
    forall|i: int| 0 <= i < answers.len() ==> keys_within(#[trigger] answers[i], keys)
}

/// Resolving comes to an end, even where dependencies go round in a circle: where the Features that can be
/// reached ask for finitely many things, no more requests are answered than there are of those.
pub proof fn law_resolving_ends(requests: Seq<RequestModel>, answers: Seq<FetchedModel>, keys: Set<Seq<char>>)
    requires
        keys.finite(),
        GraphModel::of(requests).takes(answers),
        forall|i: int| 0 <= i < requests.len() ==> keys.contains((#[trigger] requests[i]).key()),
        asks_within(answers, keys),
    ensures
        answers.len() <= keys.len(),
{
    let g = GraphModel::of(requests).after(answers);
    let start = GraphModel::of(requests);
    assert forall|i: int| 0 <= i < start.worklist.len() implies keys.contains((#[trigger] start.worklist[i]).key()) by {
        assert(start.worklist[i] == requests[i]);
    }
    lemma_within(requests, answers, keys);
    let names = g.by_request.map_values(|e: (Seq<char>, usize)| e.0);
    assert(names.no_duplicates()) by {
        assert forall|i: int, j: int| 0 <= i < j < names.len() implies names[i] != names[j] by {
            assert(crate::text::less(g.by_request[i].0, g.by_request[j].0));
            crate::text::lemma_less_irreflexive(names[i]);
        }
    }
    names.unique_seq_to_set();
    assert forall|k: Seq<char>| names.to_set().contains(k) implies keys.contains(k) by {
        let i = choose|i: int| 0 <= i < names.len() && names[i] == k;
        assert(g.by_request[i].0 == k);
    }
    vstd::set_lib::lemma_len_subset(names.to_set(), keys);
}

// ----------------------------------------------------------------------------------------------
// What a request brings
// ----------------------------------------------------------------------------------------------

/// A request that brings new contents, or known ones with other options, adds a Feature: with the reference
/// and the options that were asked for, and with what was fetched. All that it depends on is asked for in
/// turn and linked to it. What was there before stays.
pub proof fn law_new_contents_add_a_feature(g: GraphModel, item: RequestModel, f: FetchedModel, d: int)
    requires
        strmap::get(g.by_identity, feature::keyed(f.digest, item.options)) is None,
    ensures
        ({
            let s = g.supplied(item, f);
            let n = s.nodes.last().0;
            let deps = fetch::dependencies(f.metadata);
            &&& s.nodes.len() == g.nodes.len() + 1
            &&& s.nodes.drop_last() == g.nodes
            &&& n.reference == item.reference
            &&& n.supplied == item.options
            &&& n.digest == f.digest
            &&& n.metadata == f.metadata
            &&& n.raw == f.raw
            &&& n.options == feature::supplied_over(feature::default_options(f.metadata.options), item.options)
            &&& s.nodes.last().1 == f.content
            &&& s.worklist.len() == g.worklist.len() + deps.len()
            &&& s.worklist.subrange(0, g.worklist.len() as int) == g.worklist
            &&& 0 <= d < deps.len() ==> {
                let asked = s.worklist[g.worklist.len() + d];
                &&& asked.reference == crate::devcontainer::native::oci::ref_of(deps[d].0)
                &&& asked.options == deps[d].1
                &&& s.links.len() == g.links.len() + 1
                &&& s.links.last().0 == g.nodes.len() as usize
                &&& s.links.last().1.len() == deps.len()
                &&& s.links.last().1[d] == asked.key()
            }
            &&& deps.len() == 0 ==> s.links == g.links
        }),
{
    let s = g.supplied(item, f);
    let deps = super::requests_for(fetch::dependencies(f.metadata));
    assert(s.nodes.drop_last() =~= g.nodes);
    assert(s.worklist.subrange(0, g.worklist.len() as int) =~= g.worklist);
    if 0 <= d < deps.len() {
        assert(s.worklist[g.worklist.len() + d] == deps[d]);
    }
}

/// A request that brings what is there already leads to the Feature that is there, and asks for nothing.
pub proof fn law_known_contents_add_nothing(g: GraphModel, item: RequestModel, f: FetchedModel, i: usize)
    requires
        strmap::sorted(g.by_request),
        strmap::get(g.by_identity, feature::keyed(f.digest, item.options)) == Some(i),
    ensures
        g.supplied(item, f).nodes == g.nodes,
        g.supplied(item, f).worklist == g.worklist,
        g.supplied(item, f).links == g.links,
        strmap::get(g.supplied(item, f).by_request, item.key()) == Some(i),
{
    strmap::lemma_get_after_insert(g.by_request, item.key(), i, item.key());
}

/// Whatever a request brings, the lockfile says afterwards what it resolved to, and of a local Feature it
/// says no more than before.
pub proof fn law_every_answer_is_recorded(g: GraphModel, item: RequestModel, f: FetchedModel)
    requires
        strmap::sorted(g.lock.features),
    ensures
        item.reference.kind != FeatureKind::Local ==> {
            let e = g.supplied(item, f).lock.entry(item.reference.raw);
            &&& e is Some
            &&& e->0.integrity == f.digest
            &&& e->0.version == f.metadata.version
        },
        item.reference.kind == FeatureKind::Local ==> g.supplied(item, f).lock == g.lock,
{
    fetch::law_a_record_says_what_was_resolved(g.lock, item.reference, f.metadata, f.digest, 0);
}

} // verus!
