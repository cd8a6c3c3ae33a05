//! The Features that will be installed: those that are asked for, and what they depend on.
//!
//! A [`Graph`] says what to fetch next and takes in what came back. Two Features are one where their
//! contents and their options agree, so a Feature that two others depend on is installed once, and
//! dependencies that go round in a circle come to an end.

use vstd::prelude::*;

pub mod laws;

use super::feature::{self, ResolvedFeature, ResolvedModel};
use super::fetch::{self, Content, ContentModel, Fetched, FetchedModel, RequestModel, RequestedFeature};
use super::oci;
use crate::devcontainer::lock::{LockModel, Lockfile};
use crate::duplicate::Duplicate;
use crate::json::{self, Json};
use crate::strmap::{self, StrMap};
use crate::text;

verus! {

/// Features as far as they are known.
#[derive(Debug, PartialEq)]
pub struct Graph {
    worklist: Vec<RequestedFeature>,
    nodes: Vec<(ResolvedFeature, Content)>,
    by_request: StrMap<usize>,
    by_identity: StrMap<usize>,
    links: Vec<(usize, Vec<String>)>,
    lock: Lockfile,
}

/// What a [`Graph`] stands for.
pub struct GraphModel {
    /// What is still to be looked at.
    pub worklist: Seq<RequestModel>,
    /// The Features so far.
    pub nodes: Seq<(ResolvedModel, ContentModel)>,
    /// The Feature that a request led to.
    pub by_request: Seq<(Seq<char>, usize)>,
    /// The Feature with some contents and options.
    pub by_identity: Seq<(Seq<char>, usize)>,
    /// The requests that a Feature makes for what it depends on.
    pub links: Seq<(usize, Seq<Seq<char>>)>,
    /// What the Features resolved to.
    pub lock: LockModel,
}

impl DeepView for Graph {
    type V = GraphModel;

    closed spec fn deep_view(&self) -> GraphModel {
        GraphModel {
            worklist: self.worklist.deep_view(),
            nodes: self.nodes.deep_view(),
            by_request: self.by_request.deep_view(),
            by_identity: self.by_identity.deep_view(),
            links: self.links.deep_view(),
            lock: self.lock.deep_view(),
        }
    }
}

impl GraphModel {
    /// Whether every place that is named exists.
    pub open spec fn in_bounds(self) -> bool {
        &&& forall|i: int| 0 <= i < self.by_request.len() ==> (#[trigger] self.by_request[i]).1 < self.nodes.len()
        &&& forall|i: int| 0 <= i < self.by_identity.len() ==> (#[trigger] self.by_identity[i]).1 < self.nodes.len()
        &&& forall|i: int| 0 <= i < self.links.len() ==> (#[trigger] self.links[i]).0 < self.nodes.len()
        &&& strmap::sorted(self.by_request)
        &&& strmap::sorted(self.by_identity)
    }

    /// A graph of which nothing is known but what is asked for.
    pub open spec fn of(requests: Seq<RequestModel>) -> GraphModel {
        GraphModel {
            worklist: requests,
            nodes: Seq::empty(),
            by_request: Seq::empty(),
            by_identity: Seq::empty(),
            links: Seq::empty(),
            lock: LockModel::empty(),
        }
    }

    /// Without the requests at the front that have been answered already.
    pub open spec fn skipped(self) -> GraphModel
        decreases self.worklist.len(),
    {
        if self.worklist.len() > 0 && strmap::get(self.by_request, self.worklist[0].key()) is Some {
            self.popped().skipped()
        } else {
            self
        }
    }

    /// With another worklist.
    pub open spec fn with_worklist(self, worklist: Seq<RequestModel>) -> GraphModel {
        GraphModel { worklist, ..self }
    }

    /// Without the request at the front.
    pub open spec fn popped(self) -> GraphModel {
        self.with_worklist(self.worklist.drop_first())
    }

    /// With what a request brought.
    pub open spec fn supplied(self, item: RequestModel, f: FetchedModel) -> GraphModel {
        let request = item.key();
        let identity = feature::keyed(f.digest, item.options);
        let lock = fetch::recorded(self.lock, item.reference, f.metadata, f.digest);
        match strmap::get(self.by_identity, identity) {
            Some(i) => GraphModel { by_request: strmap::insert(self.by_request, request, i), lock, ..self },
            None => {
                let index = self.nodes.len() as usize;
                let deps = requests_for(fetch::dependencies(f.metadata));
                GraphModel {
                    worklist: self.worklist + deps,
                    nodes: self.nodes.push((node_of(item, f), f.content)),
                    by_request: strmap::insert(self.by_request, request, index),
                    by_identity: strmap::insert(self.by_identity, identity, index),
                    links: if deps.len() > 0 {
                        self.links.push((index, request_keys(deps)))
                    } else {
                        self.links
                    },
                    lock,
                }
            },
        }
    }

    /// The keys of the Features that some requests led to.
    pub open spec fn keys_for(self, requests: Seq<Seq<char>>) -> Seq<Seq<char>>
        decreases requests.len(),
    {
        if requests.len() == 0 {
            Seq::empty()
        } else {
            let rest = self.keys_for(requests.drop_last());
            match strmap::get(self.by_request, requests.last()) {
                Some(i) => rest.push(self.nodes[i as int].0.key()),
                None => rest,
            }
        }
    }

    /// What each Feature depends on, by the links in `links`.
    pub open spec fn hard_deps(self, links: Seq<(usize, Seq<Seq<char>>)>) -> Seq<Seq<Seq<char>>>
        decreases links.len(),
    {
        if links.len() == 0 {
            Seq::new(self.nodes.len(), |i: int| Seq::<Seq<char>>::empty())
        } else {
            self.hard_deps(links.drop_last()).update(links.last().0 as int, self.keys_for(links.last().1))
        }
    }

    /// The Features, each with what it depends on.
    pub open spec fn linked(self) -> Seq<(ResolvedModel, ContentModel)> {
        let hard = self.hard_deps(self.links);
        Seq::new(
            self.nodes.len(),
            |i: int| (ResolvedModel { hard_deps: hard[i], ..self.nodes[i].0 }, self.nodes[i].1),
        )
    }
}

/// What some requests are known by.
pub open spec fn request_keys(rs: Seq<RequestModel>) -> Seq<Seq<char>> {
    rs.map_values(|d: RequestModel| d.key())
}

/// Requests for what a Feature depends on.
pub open spec fn requests_for(deps: Seq<(Seq<char>, Seq<(Seq<char>, json::JsonModel)>)>) -> Seq<RequestModel> {
    deps.map_values(
        |d: (Seq<char>, Seq<(Seq<char>, json::JsonModel)>)| RequestModel { reference: oci::ref_of(d.0), options: d.1 },
    )
}

/// A Feature from the request for it and what that brought.
pub open spec fn node_of(item: RequestModel, f: FetchedModel) -> ResolvedModel {
    ResolvedModel {
        reference: item.reference,
        metadata: f.metadata,
        raw: f.raw,
        options: feature::supplied_over(feature::default_options(f.metadata.options), item.options),
        supplied: item.options,
        digest: f.digest,
        hard_deps: Seq::empty(),
    }
}

fn take_first(v: &mut Vec<RequestedFeature>) -> (r: RequestedFeature)
    requires
        old(v)@.len() > 0,
    ensures
        r.deep_view() == old(v).deep_view()[0],
        final(v).deep_view() == old(v).deep_view().drop_first(),
        final(v)@.len() == old(v)@.len() - 1,
{
    let ghost s = v@;
    let f = v.remove(0);
    assert(v@ =~= s.drop_first());
    assert(v.deep_view() =~= old(v).deep_view().drop_first());
    f
}

fn append_requests(v: &mut Vec<RequestedFeature>, more: Vec<RequestedFeature>)
    ensures
        final(v).deep_view() == old(v).deep_view() + more.deep_view(),
{
    let ghost base = v.deep_view();
    let ghost m = more.deep_view();
    let mut more = more;
    v.append(&mut more);
    assert(v.deep_view() =~= base + m);
}

/// Requests for what a Feature depends on, with what each is known by.
fn requests(deps: Vec<(String, StrMap<Json>)>) -> (r: (Vec<RequestedFeature>, Vec<String>))
    ensures
        r.0.deep_view() == requests_for(deps.deep_view()),
        r.1.deep_view() == request_keys(requests_for(deps.deep_view())),
{
    let ghost all = requests_for(deps.deep_view());
    let ghost names = request_keys(all);
    let mut out: Vec<RequestedFeature> = Vec::new();
    let mut keys: Vec<String> = Vec::new();
    let mut i: usize = 0;
    assert(out.deep_view() =~= all.subrange(0, 0));
    assert(keys.deep_view() =~= names.subrange(0, 0));
    while i < deps.len()
        invariant
            all == requests_for(deps.deep_view()),
            names == request_keys(all),
            i <= deps.len(),
            out.deep_view() == all.subrange(0, i as int),
            keys.deep_view() == names.subrange(0, i as int),
        decreases deps.len() - i,
    {
        assert(deps.deep_view()[i as int] == deps@[i as int].deep_view());
        let ghost before = out.deep_view();
        let one = RequestedFeature { reference: oci::parse_ref(deps[i].0.as_str()), options: deps[i].1.duplicate() };
        text::push(&mut keys, feature::request_key(one.reference.raw.as_str(), &one.options));
        out.push(one);
        assert(out.deep_view() =~= before.push(all[i as int]));
        assert(all.subrange(0, i + 1) =~= all.subrange(0, i as int).push(all[i as int]));
        assert(names.subrange(0, i + 1) =~= names.subrange(0, i as int).push(names[i as int]));
        i = i + 1;
    }
    assert(all.subrange(0, all.len() as int) =~= all);
    assert(names.subrange(0, names.len() as int) =~= names);
    (out, keys)
}

fn keys_of(
    nodes: &Vec<(ResolvedFeature, Content)>,
    by_request: &StrMap<usize>,
    requests: &Vec<String>,
    g: Ghost<GraphModel>,
) -> (r: Vec<String>)
    requires
        g@.in_bounds(),
        nodes.deep_view() == g@.nodes,
        by_request.deep_view() == g@.by_request,
    ensures
        r.deep_view() == g@.keys_for(requests.deep_view()),
{
    let ghost all = requests.deep_view();
    let mut out: Vec<String> = Vec::new();
    let mut i: usize = 0;
    assert(out.deep_view() =~= g@.keys_for(all.subrange(0, 0)));
    while i < requests.len()
        invariant
            g@.in_bounds(),
            nodes.deep_view() == g@.nodes,
            by_request.deep_view() == g@.by_request,
            all == requests.deep_view(),
            i <= requests.len(),
            out.deep_view() == g@.keys_for(all.subrange(0, i as int)),
        decreases requests.len() - i,
    {
        assert(all.subrange(0, i + 1).drop_last() =~= all.subrange(0, i as int));
        assert(all[i as int] == requests@[i as int]@);
        match by_request.get(requests[i].as_str()) {
            Some(at) => {
                proof {
                    lemma_get_in_bounds(g@.by_request, all[i as int], g@.nodes.len());
                }
                assert(nodes@.len() == g@.nodes.len());
                assert(g@.nodes[*at as int] == nodes@[*at as int].deep_view());
                text::push(&mut out, nodes[*at].0.key());
            },
            None => {},
        }
        i = i + 1;
    }
    assert(all.subrange(0, all.len() as int) =~= all);
    out
}

fn with_deps(nodes: Vec<(ResolvedFeature, Content)>, hard: Vec<Vec<String>>) -> (r: Vec<(ResolvedFeature, Content)>)
    requires
        nodes@.len() == hard@.len(),
    ensures
        r.deep_view() == Seq::new(
            nodes@.len(),
            |i: int|
                (
                    ResolvedModel { hard_deps: hard.deep_view()[i], ..nodes.deep_view()[i].0 },
                    nodes.deep_view()[i].1,
                ),
        ),
{
    let ghost ns = nodes.deep_view();
    let ghost hs = hard.deep_view();
    let n: usize = nodes.len();
    let mut nodes = nodes;
    let mut out: Vec<(ResolvedFeature, Content)> = Vec::new();
    let mut i: usize = 0;
    assert(ns.subrange(0, n as int) =~= ns);
    while i < n
        invariant
            n == ns.len(),
            n == hs.len(),
            hs == hard.deep_view(),
            hard@.len() == n,
            i <= n,
            out@.len() == i,
            nodes.deep_view() == ns.subrange(i as int, n as int),
            nodes@.len() == n - i,
            forall|k: int|
                0 <= k < i ==> (#[trigger] out@[k]).deep_view() == (
                    ResolvedModel { hard_deps: hs[k], ..ns[k].0 },
                    ns[k].1,
                ),
        decreases n - i,
    {
        let ghost before = nodes@;
        assert(nodes.deep_view()[0] == ns[i as int]);
        let (f, c) = nodes.remove(0);
        assert(nodes@ =~= before.drop_first());
        assert((f.deep_view(), c.deep_view()) == ns[i as int]);
        assert(nodes.deep_view() =~= ns.subrange(i + 1, n as int)) by {
            assert forall|k: int| 0 <= k < nodes@.len() implies nodes.deep_view()[k] == ns[i + 1 + k] by {
                assert(nodes@[k] == before[k + 1]);
                assert(ns.subrange(i as int, n as int)[k + 1] == before[k + 1].deep_view());
            }
        }
        let mut f = f;
        f.hard_deps = hard[i].duplicate();
        assert(hs[i as int] == hard@[i as int].deep_view());
        out.push((f, c));
        i = i + 1;
    }
    assert(out.deep_view() =~= Seq::new(
        n as nat,
        |i: int| (ResolvedModel { hard_deps: hs[i], ..ns[i].0 }, ns[i].1),
    ));
    out
}

proof fn lemma_get_in_bounds(m: Seq<(Seq<char>, usize)>, k: Seq<char>, n: nat)
    requires
        forall|i: int| 0 <= i < m.len() ==> (#[trigger] m[i]).1 < n,
    ensures
        strmap::get(m, k) matches Some(i) ==> i < n,
    decreases m.len(),
{
    if m.len() > 0 && m[0].0 != k {
        let r = m.drop_first();
        assert forall|i: int| 0 <= i < r.len() implies (#[trigger] r[i]).1 < n by {
            assert(r[i] == m[i + 1]);
        }
        lemma_get_in_bounds(r, k, n);
    }
}

proof fn lemma_insert_in_bounds(m: Seq<(Seq<char>, usize)>, k: Seq<char>, v: usize, n: nat)
    requires
        forall|i: int| 0 <= i < m.len() ==> (#[trigger] m[i]).1 < n,
        v < n,
    ensures
        forall|i: int| 0 <= i < strmap::insert(m, k, v).len() ==> (#[trigger] strmap::insert(m, k, v)[i]).1 < n,
    decreases m.len(),
{
    let t = strmap::insert(m, k, v);
    if m.len() > 0 {
        let r = m.drop_first();
        assert forall|i: int| 0 <= i < r.len() implies (#[trigger] r[i]).1 < n by {
            assert(r[i] == m[i + 1]);
        }
        lemma_insert_in_bounds(r, k, v, n);
        assert forall|i: int| 0 <= i < t.len() implies (#[trigger] t[i]).1 < n by {
            if m[0].0 != k && !text::less(k, m[0].0) {
                if i > 0 {
                    assert(t[i] == strmap::insert(r, k, v)[i - 1]);
                }
            }
        }
    }
}

proof fn lemma_skipped_frame(g: GraphModel)
    ensures
        g.skipped().nodes == g.nodes,
        g.skipped().by_request == g.by_request,
        g.skipped().by_identity == g.by_identity,
        g.skipped().links == g.links,
        g.skipped().lock == g.lock,
        g.skipped().worklist.len() > 0 ==> strmap::get(g.by_request, g.skipped().worklist[0].key()) is None,
    decreases g.worklist.len(),
{
    if g.worklist.len() > 0 && strmap::get(g.by_request, g.worklist[0].key()) is Some {
        lemma_skipped_frame(g.popped());
    }
}

impl Graph {
    #[verifier::type_invariant]
    spec fn bounded(self) -> bool {
        &&& self.deep_view().in_bounds()
        &&& self.nodes@.len() == self.deep_view().nodes.len()
    }

    /// A graph of which nothing is known but what is asked for.
    pub fn new(requested: Vec<RequestedFeature>) -> (r: Self)
        ensures
            r.deep_view() == GraphModel::of(requested.deep_view()),
    {
        let nodes: Vec<(ResolvedFeature, Content)> = Vec::new();
        let links: Vec<(usize, Vec<String>)> = Vec::new();
        assert(nodes.deep_view() =~= Seq::empty());
        assert(links.deep_view() =~= Seq::empty());
        Graph {
            worklist: requested,
            nodes,
            by_request: StrMap::new(),
            by_identity: StrMap::new(),
            links,
            lock: Lockfile::default(),
        }
    }

    /// Says what to fetch next: nothing, once every request has been answered.
    pub fn next(self) -> (r: (Self, Option<RequestedFeature>))
        ensures
            self.deep_view().skipped().worklist.len() == 0 ==> r.0.deep_view() == self.deep_view().skipped()
                && r.1 is None,
            self.deep_view().skipped().worklist.len() > 0 ==> r.0.deep_view() == self.deep_view().skipped().popped()
                && r.1.deep_view() == Some(self.deep_view().skipped().worklist[0]),
    {
        proof {
            use_type_invariant(&self);
        }
        let ghost g = self.deep_view();
        let Graph { worklist, nodes, by_request, by_identity, links, lock } = self;
        let ghost all = worklist.deep_view();
        let mut worklist = worklist;
        let mut found: Option<RequestedFeature> = None;
        assert(g.with_worklist(all) == g);
        while worklist.len() > 0 && found.is_none()
            invariant
                found is None ==> g.with_worklist(worklist.deep_view()).skipped() == g.skipped(),
                found is Some ==> g.skipped().worklist.len() > 0 && g.skipped().worklist[0] == found->0.deep_view()
                    && g.with_worklist(worklist.deep_view()) == g.skipped().popped(),
                by_request.deep_view() == g.by_request,
            decreases worklist.len(),
        {
            let ghost w = worklist.deep_view();
            let item = take_first(&mut worklist);
            let key = feature::request_key(item.reference.raw.as_str(), &item.options);
            if !by_request.contains_key(key.as_str()) {
                found = Some(item);
            }
            assert(g.with_worklist(w).popped() == g.with_worklist(worklist.deep_view()));
        }
        proof {
            lemma_skipped_frame(g);
            if found is None {
                assert(worklist.deep_view().len() == 0);
            }
        }
        let r = Graph { worklist, nodes, by_request, by_identity, links, lock };
        (r, found)
    }

    /// Takes in what a request brought.
    pub fn supply(self, item: RequestedFeature, fetched: Fetched) -> (r: Self)
        ensures
            r.deep_view() == self.deep_view().supplied(item.deep_view(), fetched.deep_view()),
    {
        proof {
            use_type_invariant(&self);
        }
        let ghost g = self.deep_view();
        let ghost m = item.deep_view();
        let ghost f = fetched.deep_view();
        let Graph { worklist, nodes, by_request, by_identity, links, lock } = self;
        let mut lock = lock;
        fetch::record_in_lock(&mut lock, &item.reference, &fetched.metadata, fetched.digest.as_str());
        let request = feature::request_key(item.reference.raw.as_str(), &item.options);
        let identity = feature::request_key(fetched.digest.as_str(), &item.options);
        let mut by_request = by_request;
        let known = match by_identity.get(identity.as_str()) {
            Some(i) => Some(*i),
            None => None,
        };
        match known {
            Some(i) => {
                proof {
                    lemma_get_in_bounds(g.by_identity, identity@, g.nodes.len());
                    lemma_insert_in_bounds(g.by_request, request@, i, g.nodes.len());
                }
                by_request.insert(request, i);
                return Graph { worklist, nodes, by_request, by_identity, links, lock };
            },
            None => {},
        }
        let mut worklist = worklist;
        let mut nodes = nodes;
        let mut by_identity = by_identity;
        let mut links = links;
        let index: usize = nodes.len();
        let deps = fetch::depends_on_entries(&fetched.metadata);
        let (more, keys) = requests(deps);
        append_requests(&mut worklist, more);
        proof {
            lemma_insert_in_bounds(g.by_request, request@, index, g.nodes.len() + 1);
            lemma_insert_in_bounds(g.by_identity, identity@, index, g.nodes.len() + 1);
        }
        by_request.insert(request, index);
        by_identity.insert(identity, index);
        let options = feature::resolve_options(&fetched.metadata, &item.options);
        let no_deps: Vec<String> = Vec::new();
        assert(no_deps.deep_view() =~= Seq::empty());
        let node = ResolvedFeature {
            reference: item.reference,
            metadata: fetched.metadata,
            raw: fetched.raw,
            options,
            supplied: item.options,
            digest: fetched.digest,
            hard_deps: no_deps,
        };
        assert(node.deep_view() == node_of(m, f));
        nodes.push((node, fetched.content));
        assert(nodes.deep_view() =~= g.nodes.push((node_of(m, f), f.content)));
        assert(keys.deep_view().len() == keys@.len());
        if keys.len() > 0 {
            links.push((index, keys));
            assert(links.deep_view() =~= g.links.push((index, keys.deep_view())));
        }
        let ghost wanted = g.supplied(m, f);
        assert(wanted.nodes == g.nodes.push((node_of(m, f), f.content)));
        assert(links.deep_view() == wanted.links);
        assert(worklist.deep_view() == wanted.worklist);
        assert(by_request.deep_view() == wanted.by_request);
        assert(by_identity.deep_view() == wanted.by_identity);
        assert(lock.deep_view() == wanted.lock);
        Graph { worklist, nodes, by_request, by_identity, links, lock }
    }

    /// How many Features there are so far.
    pub fn len(&self) -> (r: usize)
        ensures
            r == self.deep_view().nodes.len(),
    {
        proof {
            use_type_invariant(self);
        }
        self.nodes.len()
    }

    /// Gives the Features, each with the keys of what it depends on, and what they resolved to.
    pub fn finish(self) -> (r: (Vec<(ResolvedFeature, Content)>, Lockfile))
        ensures
            r.0.deep_view() == self.deep_view().linked(),
            r.1.deep_view() == self.deep_view().lock,
    {
        proof {
            use_type_invariant(&self);
        }
        let ghost g = self.deep_view();
        let Graph { worklist, nodes, by_request, by_identity, links, lock } = self;
        let n: usize = nodes.len();
        let mut hard: Vec<Vec<String>> = Vec::new();
        let mut i: usize = 0;
        while i < n
            invariant
                i <= n,
                hard@.len() == i,
                forall|k: int| 0 <= k < i ==> (#[trigger] hard@[k]).deep_view() == Seq::<Seq<char>>::empty(),
            decreases n - i,
        {
            let v: Vec<String> = Vec::new();
            assert(v.deep_view() =~= Seq::<Seq<char>>::empty());
            hard.push(v);
            i = i + 1;
        }
        assert(hard.deep_view() =~= g.hard_deps(g.links.subrange(0, 0)));
        let mut k: usize = 0;
        while k < links.len()
            invariant
                nodes.deep_view() == g.nodes,
                nodes@.len() == n,
                g.nodes.len() == n,
                by_request.deep_view() == g.by_request,
                links.deep_view() == g.links,
                g.in_bounds(),
                k <= links.len(),
                hard@.len() == n,
                hard.deep_view() == g.hard_deps(g.links.subrange(0, k as int)),
            decreases links.len() - k,
        {
            assert(g.links.subrange(0, k + 1).drop_last() =~= g.links.subrange(0, k as int));
            assert(g.links[k as int] == (links@[k as int].0, links@[k as int].1.deep_view()));
            let keys = keys_of(&nodes, &by_request, &links[k].1, Ghost(g));
            let ghost before = hard.deep_view();
            let at: usize = links[k].0;
            hard.set(at, keys);
            assert(hard.deep_view() =~= before.update(at as int, keys.deep_view()));
            k = k + 1;
        }
        assert(g.links.subrange(0, g.links.len() as int) =~= g.links);
        let out = with_deps(nodes, hard);
        assert(out.deep_view() =~= g.linked());
        (out, lock)
    }
}

} // verus!
