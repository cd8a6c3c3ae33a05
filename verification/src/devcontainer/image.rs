//! What an image is named after, and what is read back from one.

use vstd::prelude::*;

use super::document;
use super::lock::{LockModel, Lockfile};
use super::snippet::{self, MetadataSnippet, SnippetModel};
use crate::decode;
use crate::digest;
use crate::duplicate::Duplicate;
use crate::error::{AmError, AmErrorModel};
use crate::json::{self, Json, JsonModel};
use crate::path;
use crate::sort::{self, Ordered};
use crate::strmap::{self, StrMap};
use crate::text;

verus! {

// ----------------------------------------------------------------------------------------------
// Injected Features
// ----------------------------------------------------------------------------------------------

/// A Feature that is installed although the project's config does not ask for it: the agent's own, and
/// what the user adds.
#[derive(Debug, PartialEq, Eq)]
pub struct InjectedFeature {
    pub id: String,
    /// The options as JSON text.
    pub options: String,
}

/// What an [`InjectedFeature`] stands for.
pub struct InjectedModel {
    pub id: Seq<char>,
    pub options: Seq<char>,
}

impl DeepView for InjectedFeature {
    type V = InjectedModel;

    open spec fn deep_view(&self) -> InjectedModel {
        InjectedModel { id: self.id@, options: self.options@ }
    }
}

impl Duplicate for InjectedFeature {
    fn duplicate(&self) -> (r: Self) {
        InjectedFeature { id: self.id.clone(), options: self.options.clone() }
    }
}

impl InjectedFeature {
    pub fn new(id: &str, options: &str) -> (r: Self)
        ensures
            r.deep_view() == (InjectedModel { id: id@, options: options@ }),
    {
        InjectedFeature { id: id.to_owned(), options: options.to_owned() }
    }

    /// A Feature without options.
    pub fn with_defaults(id: &str) -> (r: Self)
        ensures
            r.deep_view() == (InjectedModel { id: id@, options: "{}"@ }),
    {
        InjectedFeature::new(id, "{}")
    }
}

impl Ordered for InjectedFeature {
    /// By id, then by options.
    open spec fn below(a: InjectedModel, b: InjectedModel) -> bool {
        text::less(a.id, b.id) || (a.id == b.id && text::less(a.options, b.options))
    }

    proof fn below_irreflexive(a: InjectedModel) {
        text::lemma_less_irreflexive(a.id);
        text::lemma_less_irreflexive(a.options);
    }

    proof fn below_total(a: InjectedModel, b: InjectedModel) {
        text::lemma_less_total(a.id, b.id);
        text::lemma_less_total(a.options, b.options);
    }

    proof fn below_transitive(a: InjectedModel, b: InjectedModel, c: InjectedModel) {
        if text::less(a.id, b.id) && text::less(b.id, c.id) {
            text::lemma_less_transitive(a.id, b.id, c.id);
        }
        if a.id == b.id && b.id == c.id {
            text::lemma_less_irreflexive(a.id);
            text::lemma_less_transitive(a.options, b.options, c.options);
        }
    }

    fn is_below(&self, other: &Self) -> (r: bool) {
        text::is_less(self.id.as_str(), other.id.as_str()) || (text::eq(self.id.as_str(), other.id.as_str())
            && text::is_less(self.options.as_str(), other.options.as_str()))
    }
}

// ----------------------------------------------------------------------------------------------
// Vendored Features
// ----------------------------------------------------------------------------------------------

/// Something in a directory.
#[derive(Debug, PartialEq)]
pub enum Tree {
    /// A file's content, where it can be read.
    File(Option<Vec<u8>>),
    /// What a directory holds, by name.
    Folder(Vec<(String, Tree)>),
    /// The path of a directory that cannot be read.
    Unreadable(String),
}

/// What a [`Tree`] stands for.
pub enum TreeModel {
    File(Option<Seq<u8>>),
    Folder(Seq<(Seq<char>, TreeModel)>),
    Unreadable(Seq<char>),
}

impl Tree {
    pub open spec fn view(&self) -> TreeModel
        decreases self,
    {
        match self {
            Tree::File(Some(b)) => TreeModel::File(Some(b@)),
            Tree::File(None) => TreeModel::File(None),
            Tree::Folder(v) => TreeModel::Folder(
                Seq::new(
                    v@.len(),
                    |i: int|
                        if 0 <= i < v@.len() {
                            (v@[i].0@, v@[i].1.view())
                        } else {
                            arbitrary()
                        },
                ),
            ),
            Tree::Unreadable(p) => TreeModel::Unreadable(p@),
        }
    }
}

impl DeepView for Tree {
    type V = TreeModel;

    open spec fn deep_view(&self) -> TreeModel {
        self.view()
    }
}

/// Blocks of bytes one after another.
pub open spec fn blocks(m: Seq<(Seq<char>, Seq<u8>)>) -> Seq<u8>
    decreases m.len(),
{
    if m.len() == 0 {
        Seq::empty()
    } else {
        blocks(m.drop_last()) + m.last().1
    }
}

/// The bytes that a tree contributes. What a directory holds goes in by name, each name before what it
/// names.
pub open spec fn tree_bytes(t: TreeModel) -> Seq<u8>
    decreases t,
{
    match t {
        TreeModel::File(Some(b)) => b,
        TreeModel::File(None) => Seq::empty(),
        TreeModel::Unreadable(p) => vstd::utf8::encode_utf8(p),
        TreeModel::Folder(v) => blocks(decode::collected(entry_blocks(v))),
    }
}

/// The bytes of the entries of a directory.
pub open spec fn entry_blocks(v: Seq<(Seq<char>, TreeModel)>) -> Seq<(Seq<char>, Seq<u8>)>
    decreases v,
{
    Seq::new(
        v.len(),
        |i: int|
            if 0 <= i < v.len() {
                (v[i].0, vstd::utf8::encode_utf8(v[i].0) + tree_bytes(v[i].1))
            } else {
                arbitrary()
            },
    )
}

fn push_bytes(out: &mut Vec<u8>, more: &Vec<u8>)
    ensures
        final(out)@ == old(out)@ + more@,
{
    let ghost base = out@;
    let mut i: usize = 0;
    assert(base + more@.subrange(0, 0) =~= base);
    while i < more.len()
        invariant
            i <= more.len(),
            out@ == base + more@.subrange(0, i as int),
        decreases more.len() - i,
    {
        out.push(more[i]);
        assert(base + more@.subrange(0, i + 1) =~= (base + more@.subrange(0, i as int)).push(more@[i as int]));
        i = i + 1;
    }
    assert(more@.subrange(0, more@.len() as int) =~= more@);
}

fn push_text(out: &mut Vec<u8>, s: &str)
    ensures
        final(out)@ == old(out)@ + vstd::utf8::encode_utf8(s@),
{
    let b = s.as_bytes_vec();
    push_bytes(out, &b);
}

impl Tree {
    /// The bytes that the tree contributes.
    pub fn bytes(&self) -> (r: Vec<u8>)
        ensures
            r@ == tree_bytes(self.deep_view()),
        decreases self,
    {
        match self {
            Tree::File(Some(b)) => {
                let mut out: Vec<u8> = Vec::new();
                push_bytes(&mut out, b);
                assert(out@ =~= b@);
                out
            },
            Tree::File(None) => {
                let out: Vec<u8> = Vec::new();
                assert(out@ =~= Seq::empty());
                out
            },
            Tree::Unreadable(p) => p.as_str().as_bytes_vec(),
            Tree::Folder(v) => {
                let ghost m = self.deep_view()->Folder_0;
                let ghost t = entry_blocks(m);
                let mut sorted: StrMap<Vec<u8>> = StrMap::new();
                let mut i: usize = 0;
                assert(t.subrange(0, 0) =~= Seq::empty());
                while i < v.len()
                    invariant
                        self matches Tree::Folder(w) && w == v,
                        m.len() == v@.len(),
                        forall|k: int| 0 <= k < m.len() ==> (#[trigger] m[k]) == (v@[k].0@, v@[k].1.deep_view()),
                        t.len() == m.len(),
                        forall|k: int|
                            0 <= k < t.len() ==> (#[trigger] t[k]) == (m[k].0, vstd::utf8::encode_utf8(m[k].0)
                                + tree_bytes(m[k].1)),
                        i <= v.len(),
                        sorted.deep_view() == decode::collected(t.subrange(0, i as int)),
                    decreases v.len() - i,
                {
                    let below = v[i].1.bytes();
                    let mut block: Vec<u8> = v[i].0.as_str().as_bytes_vec();
                    push_bytes(&mut block, &below);
                    assert(block.deep_view() =~= block@);
                    assert(m[i as int] == (v@[i as int].0@, v@[i as int].1.deep_view()));
                    assert(t[i as int].1 == block@);
                    assert(t.subrange(0, i + 1).drop_last() =~= t.subrange(0, i as int));
                    sorted.insert(v[i].0.clone(), block);
                    i = i + 1;
                }
                assert(t.subrange(0, t.len() as int) =~= t);
                blocks_of(&sorted)
            },
        }
    }
}

fn blocks_of(m: &StrMap<Vec<u8>>) -> (r: Vec<u8>)
    ensures
        r@ == blocks(m.deep_view()),
{
    let ghost s = m.deep_view();
    let n: usize = m.len();
    let mut out: Vec<u8> = Vec::new();
    let mut i: usize = 0;
    assert(out@ =~= blocks(s.subrange(0, 0)));
    while i < n
        invariant
            s == m.deep_view(),
            n == s.len(),
            i <= n,
            out@ == blocks(s.subrange(0, i as int)),
        decreases n - i,
    {
        assert(s.subrange(0, i + 1).drop_last() =~= s.subrange(0, i as int));
        let (_, b) = m.at(i);
        assert(b.deep_view() =~= b@);
        push_bytes(&mut out, b);
        i = i + 1;
    }
    assert(s.subrange(0, s.len() as int) =~= s);
    out
}

/// Whether no two entries share a name.
pub open spec fn names_differ<V>(v: Seq<(Seq<char>, V)>) -> bool {
    forall|i: int, j: int| 0 <= i < j < v.len() ==> (#[trigger] v[i]).0 != (#[trigger] v[j]).0
}

proof fn lemma_collected_moves(v: Seq<(Seq<char>, Seq<u8>)>, i: int)
    requires
        names_differ(v),
        0 <= i < v.len(),
    ensures
        decode::collected(v) == strmap::insert(decode::collected(v.remove(i)), v[i].0, v[i].1),
    decreases v.len(),
{
    let r = v.drop_last();
    if i == v.len() - 1 {
        assert(v.remove(i) =~= r);
    } else {
        let x = v[i];
        let y = v.last();
        assert(y == v[v.len() - 1]);
        assert(names_differ(r)) by {
            assert forall|a: int, b: int| 0 <= a < b < r.len() implies (#[trigger] r[a]).0 != (#[trigger] r[b]).0 by {
                assert(r[a] == v[a] && r[b] == v[b]);
            }
        }
        lemma_collected_moves(r, i);
        assert(r[i] == x);
        let w = v.remove(i);
        assert(w.drop_last() =~= r.remove(i));
        assert(w.last() == y);
        strmap::lemma_inserts_commute(decode::collected(r.remove(i)), x.0, x.1, y.0, y.1);
    }
}

proof fn lemma_collected_ignores_order(a: Seq<(Seq<char>, Seq<u8>)>, b: Seq<(Seq<char>, Seq<u8>)>)
    requires
        names_differ(a),
        names_differ(b),
        a.to_multiset() == b.to_multiset(),
    ensures
        decode::collected(a) == decode::collected(b),
    decreases a.len(),
{
    broadcast use vstd::seq_lib::group_to_multiset_ensures;

    assert(a.len() == a.to_multiset().len());
    assert(b.len() == b.to_multiset().len());
    if a.len() > 0 {
        let x = a.last();
        let r = a.drop_last();
        assert(a.contains(x));
        assert(b.to_multiset().count(x) > 0);
        assert(b.contains(x));
        let i = choose|i: int| 0 <= i < b.len() && b[i] == x;
        let w = b.remove(i);
        lemma_collected_moves(b, i);
        assert(a =~= r.push(x));
        assert(b =~= w.insert(i, x));
        assert(r.to_multiset() =~= w.to_multiset()) by {
            assert(a.to_multiset() == r.to_multiset().insert(x));
            assert(b.to_multiset() == w.to_multiset().insert(x));
            assert forall|v: (Seq<char>, Seq<u8>)| r.to_multiset().count(v) == w.to_multiset().count(v) by {
                assert(r.to_multiset().insert(x).count(v) == w.to_multiset().insert(x).count(v));
            }
        }
        assert forall|k: int, l: int| 0 <= k < l < r.len() implies (#[trigger] r[k]).0 != (#[trigger] r[l]).0 by {
            assert(r[k] == a[k] && r[l] == a[l]);
        }
        assert forall|k: int, l: int| 0 <= k < l < w.len() implies (#[trigger] w[k]).0 != (#[trigger] w[l]).0 by {
            let k2 = if k < i {
                k
            } else {
                k + 1
            };
            let l2 = if l < i {
                l
            } else {
                l + 1
            };
            assert(w[k] == b[k2] && w[l] == b[l2]);
        }
        lemma_collected_ignores_order(r, w);
    } else {
        assert(a =~= b);
    }
}

/// The order in which a directory is listed does not matter.
pub proof fn law_the_order_of_listing_does_not_matter(
    a: Seq<(Seq<char>, TreeModel)>,
    b: Seq<(Seq<char>, TreeModel)>,
)
    requires
        names_differ(a),
        a.to_multiset() == b.to_multiset(),
    ensures
        tree_bytes(TreeModel::Folder(a)) == tree_bytes(TreeModel::Folder(b)),
{
    broadcast use vstd::seq_lib::group_to_multiset_ensures;

    let f = |e: (Seq<char>, TreeModel)| (e.0, vstd::utf8::encode_utf8(e.0) + tree_bytes(e.1));
    assert(entry_blocks(a) =~= a.map_values(f));
    assert(entry_blocks(b) =~= b.map_values(f));
    lemma_names_differ(a, b);
    lemma_map_multiset(a, b, f);
    let x = a.map_values(f);
    let y = b.map_values(f);
    assert forall|i: int, j: int| 0 <= i < j < x.len() implies (#[trigger] x[i]).0 != (#[trigger] x[j]).0 by {
        assert(a[i].0 != a[j].0);
    }
    assert forall|i: int, j: int| 0 <= i < j < y.len() implies (#[trigger] y[i]).0 != (#[trigger] y[j]).0 by {
        assert(b[i].0 != b[j].0);
    }
    lemma_collected_ignores_order(x, y);
}

proof fn lemma_names_differ(a: Seq<(Seq<char>, TreeModel)>, b: Seq<(Seq<char>, TreeModel)>)
    requires
        names_differ(a),
        a.to_multiset() == b.to_multiset(),
    ensures
        names_differ(b),
    decreases a.len(),
{
    broadcast use vstd::seq_lib::group_to_multiset_ensures;

    assert forall|i: int, j: int| 0 <= i < j < b.len() implies (#[trigger] b[i]).0 != (#[trigger] b[j]).0 by {
        if b[i].0 == b[j].0 {
            assert(b.contains(b[i]) && b.contains(b[j]));
            assert(a.to_multiset().count(b[i]) > 0 && a.to_multiset().count(b[j]) > 0);
            assert(a.contains(b[i]) && a.contains(b[j]));
            let k = choose|k: int| 0 <= k < a.len() && a[k] == b[i];
            let l = choose|l: int| 0 <= l < a.len() && a[l] == b[j];
            if k < l {
                assert(a[k].0 != a[l].0);
            } else if l < k {
                assert(a[l].0 != a[k].0);
            } else {
                assert(b[i] == b[j]);
                let w = b.remove(j);
                assert(b =~= w.insert(j, b[j]));
                assert(b.to_multiset() == w.to_multiset().insert(b[j]));
                assert(w[i] == b[i]);
                assert(w.contains(b[i]));
                assert(w.to_multiset().count(b[i]) >= 1);
                assert(a.to_multiset().count(b[i]) >= 2);
                let r = a.remove(k);
                assert(a =~= r.insert(k, a[k]));
                assert(a.to_multiset() == r.to_multiset().insert(a[k]));
                assert(r.to_multiset().count(b[i]) >= 1);
                assert(r.contains(b[i]));
                let m = choose|m: int| 0 <= m < r.len() && r[m] == b[i];
                let m2 = if m < k {
                    m
                } else {
                    m + 1
                };
                assert(a[m2] == r[m]);
                if m2 < k {
                    assert(a[m2].0 != a[k].0);
                } else {
                    assert(a[k].0 != a[m2].0);
                }
            }
        }
    }
}

proof fn lemma_map_multiset(
    a: Seq<(Seq<char>, TreeModel)>,
    b: Seq<(Seq<char>, TreeModel)>,
    f: spec_fn((Seq<char>, TreeModel)) -> (Seq<char>, Seq<u8>),
)
    requires
        a.to_multiset() == b.to_multiset(),
    ensures
        a.map_values(f).to_multiset() == b.map_values(f).to_multiset(),
    decreases a.len(),
{
    broadcast use vstd::seq_lib::group_to_multiset_ensures;

    assert(a.len() == a.to_multiset().len());
    assert(b.len() == b.to_multiset().len());
    if a.len() > 0 {
        let x = a.last();
        let r = a.drop_last();
        assert(a.contains(x));
        assert(b.to_multiset().count(x) > 0);
        assert(b.contains(x));
        let i = choose|i: int| 0 <= i < b.len() && b[i] == x;
        let w = b.remove(i);
        assert(a =~= r.push(x));
        assert(b =~= w.insert(i, x));
        assert(r.to_multiset() =~= w.to_multiset()) by {
            assert(a.to_multiset() == r.to_multiset().insert(x));
            assert(b.to_multiset() == w.to_multiset().insert(x));
            assert forall|v: (Seq<char>, TreeModel)| r.to_multiset().count(v) == w.to_multiset().count(v) by {
                assert(r.to_multiset().insert(x).count(v) == w.to_multiset().insert(x).count(v));
            }
        }
        lemma_map_multiset(r, w, f);
        assert(a.map_values(f) =~= r.map_values(f).push(f(x)));
        assert(b.map_values(f) =~= w.map_values(f).insert(i, f(x)));
    } else {
        assert(a.map_values(f) =~= b.map_values(f));
    }
}

/// The ids in a config's `features` that are paths.
pub open spec fn local_ids(parsed: Result<JsonModel, Seq<char>>) -> Seq<Seq<char>> {
    match parsed {
        Ok(j) => match j.member("features"@) {
            Some(JsonModel::Object(o)) => sort::sorted::<String>(
                o.map_values(|m: (Seq<char>, JsonModel)| m.0).filter(|id: Seq<char>| is_local(id)),
            ),
            _ => Seq::empty(),
        },
        Err(_) => Seq::empty(),
    }
}

/// Whether an id is a path.
pub open spec fn is_local(id: Seq<char>) -> bool {
    text::has_prefix(id, "./"@) || text::has_prefix(id, "../"@)
}

/// Lists the ids in a config's `features` that are paths, in order.
pub fn local_ids_in(j: &Json) -> (r: Vec<String>)
    ensures
        r.deep_view() == local_ids(Ok(j@)),
{
    broadcast use crate::json::lemma_object_view;

    let mut out: Vec<String> = Vec::new();
    match j.get("features") {
        Some(Json::Object(o)) => {
            let ghost m = json::members_model(o@);
            let ghost t = m.map_values(|e: (Seq<char>, JsonModel)| e.0);
            let ghost p = |id: Seq<char>| is_local(id);
            let mut i: usize = 0;
            proof {
                reveal(Seq::filter);
            }
            assert(out.deep_view() =~= t.subrange(0, 0).filter(p));
            while i < o.len()
                invariant
                    m == json::members_model(o@),
                    t == m.map_values(|e: (Seq<char>, JsonModel)| e.0),
                    p == (|id: Seq<char>| is_local(id)),
                    i <= o.len(),
                    out.deep_view() == t.subrange(0, i as int).filter(p),
                decreases o.len() - i,
            {
                proof {
                    reveal(Seq::filter);
                }
                assert(t.subrange(0, i + 1).drop_last() =~= t.subrange(0, i as int));
                assert(t[i as int] == o@[i as int].0@);
                let id = o[i].0.as_str();
                if text::starts_with(id, "./") || text::starts_with(id, "../") {
                    text::push_str(&mut out, id);
                }
                i = i + 1;
            }
            assert(t.subrange(0, t.len() as int) =~= t);
            sort::sort_values(out)
        },
        _ => {
            assert(out.deep_view() =~= Seq::empty());
            out
        },
    }
}

/// Lists the Features that a config takes from the repository.
pub fn local_feature_ids(text: &str) -> (r: Vec<String>)
    ensures
        r.deep_view() == local_ids(json::lenient(text@)),
{
    match json::parse_lenient(text) {
        Ok(j) => local_ids_in(&j),
        Err(_) => {
            let v: Vec<String> = Vec::new();
            assert(v.deep_view() =~= Seq::empty());
            v
        },
    }
}

// ----------------------------------------------------------------------------------------------
// Names
// ----------------------------------------------------------------------------------------------

/// The bytes of a Dockerfile: its content, or its path where it cannot be read.
pub open spec fn dockerfile_bytes(at: Option<Seq<char>>, content: Option<Seq<u8>>) -> Seq<u8> {
    match (at, content) {
        (None, _) => Seq::empty(),
        (Some(_), Some(b)) => b,
        (Some(p), None) => vstd::utf8::encode_utf8(p),
    }
}

/// The bytes of a vendored Feature: of its tree, or of its path where it was not read.
pub open spec fn vendored_bytes(base: Seq<char>, id: Seq<char>, trees: Seq<(Seq<char>, TreeModel)>) -> Seq<u8> {
    match strmap::get(trees, id) {
        Some(t) => tree_bytes(t),
        None => vstd::utf8::encode_utf8(path::joined(base, id)),
    }
}

/// The bytes of all vendored Features.
pub open spec fn all_vendored(base: Seq<char>, ids: Seq<Seq<char>>, trees: Seq<(Seq<char>, TreeModel)>) -> Seq<u8>
    decreases ids.len(),
{
    if ids.len() == 0 {
        Seq::empty()
    } else {
        all_vendored(base, ids.drop_last(), trees) + vstd::utf8::encode_utf8(ids.last()) + vendored_bytes(
            base,
            ids.last(),
            trees,
        )
    }
}

/// The bytes of injected Features.
pub open spec fn injected_bytes(fs: Seq<InjectedModel>) -> Seq<u8>
    decreases fs.len(),
{
    if fs.len() == 0 {
        Seq::empty()
    } else {
        injected_bytes(fs.drop_last()) + vstd::utf8::encode_utf8(fs.last().id) + vstd::utf8::encode_utf8(
            fs.last().options,
        )
    }
}

/// Everything that an image is built from, as far as it is known without fetching anything: the
/// config, its Dockerfile, its vendored Features, the lockfile, and what is injected.
pub open spec fn build_input(
    config: Seq<u8>,
    dockerfile: Seq<u8>,
    vendored: Seq<u8>,
    lock: LockModel,
    injected: Seq<InjectedModel>,
) -> Seq<u8> {
    config + dockerfile + vendored + vstd::utf8::encode_utf8(lock.canonical()) + injected_bytes(
        sort::sorted::<InjectedFeature>(injected),
    )
}

fn push_vendored(out: &mut Vec<u8>, base: &str, ids: &Vec<String>, trees: &StrMap<Tree>)
    ensures
        final(out)@ == old(out)@ + all_vendored(base@, ids.deep_view(), trees.deep_view()),
{
    let ghost start = out@;
    let ghost all = ids.deep_view();
    let ghost ts = trees.deep_view();
    let mut i: usize = 0;
    assert(start + all_vendored(base@, all.subrange(0, 0), ts) =~= start);
    while i < ids.len()
        invariant
            all == ids.deep_view(),
            ts == trees.deep_view(),
            i <= ids.len(),
            out@ == start + all_vendored(base@, all.subrange(0, i as int), ts),
        decreases ids.len() - i,
    {
        assert(all.subrange(0, i + 1).drop_last() =~= all.subrange(0, i as int));
        assert(all[i as int] == ids@[i as int]@);
        push_text(out, ids[i].as_str());
        match trees.get(ids[i].as_str()) {
            Some(t) => {
                let b = t.bytes();
                push_bytes(out, &b);
            },
            None => {
                let dir = path::join(base, ids[i].as_str());
                push_text(out, dir.as_str());
            },
        }
        i = i + 1;
        assert(out@ =~= start + all_vendored(base@, all.subrange(0, i as int), ts));
    }
    assert(all.subrange(0, all.len() as int) =~= all);
}

fn push_injected(out: &mut Vec<u8>, fs: &Vec<InjectedFeature>)
    ensures
        final(out)@ == old(out)@ + injected_bytes(fs.deep_view()),
{
    let ghost start = out@;
    let ghost all = fs.deep_view();
    let mut i: usize = 0;
    assert(start + injected_bytes(all.subrange(0, 0)) =~= start);
    while i < fs.len()
        invariant
            all == fs.deep_view(),
            i <= fs.len(),
            out@ == start + injected_bytes(all.subrange(0, i as int)),
        decreases fs.len() - i,
    {
        assert(all.subrange(0, i + 1).drop_last() =~= all.subrange(0, i as int));
        assert(all[i as int] == fs@[i as int].deep_view());
        push_text(out, fs[i].id.as_str());
        push_text(out, fs[i].options.as_str());
        i = i + 1;
        assert(out@ =~= start + injected_bytes(all.subrange(0, i as int)));
    }
    assert(all.subrange(0, all.len() as int) =~= all);
}

/// The hash in an image's name; `parsed` is what the JSON reader made of the config.
pub open spec fn config_hash_of(
    config_path: Seq<char>,
    config: Seq<u8>,
    parsed: Result<JsonModel, Seq<char>>,
    dockerfile: Option<Seq<u8>>,
    trees: Seq<(Seq<char>, TreeModel)>,
    lock: LockModel,
    injected: Seq<InjectedModel>,
) -> Result<Seq<char>, AmErrorModel> {
    match document::config_of(parsed) {
        Err(e) => Err(e),
        Ok(d) => Ok(
            digest::hex(
                digest::sha256(
                    build_input(
                        config,
                        dockerfile_bytes(document::dockerfile_at(config_path, d), dockerfile),
                        all_vendored(document::config_dir(config_path), local_ids(parsed), trees),
                        lock,
                        injected,
                    ),
                ).subrange(0, 6),
            ),
        ),
    }
}

/// Hashes what an image is built from. `dockerfile` is the content of the config's Dockerfile and `trees`
/// are its vendored Features by id, as far as they can be read.
pub fn config_hash(
    config_path: &str,
    config: &Vec<u8>,
    dockerfile: Option<&Vec<u8>>,
    trees: &StrMap<Tree>,
    lock: &Lockfile,
    injected: &Vec<InjectedFeature>,
) -> (r: Result<String, AmError>)
    ensures
        crate::error::outcome(r) == config_hash_of(
            config_path@,
            config@,
            json::lenient(digest::lossy(config@)),
            match dockerfile {
                Some(b) => Some(b@),
                None => None,
            },
            trees.deep_view(),
            lock.deep_view(),
            injected.deep_view(),
        ),
        r matches Ok(h) ==> digest::is_short_digest(h@),
{
    let t = digest::text_of_bytes(config);
    let parsed = json::parse_lenient(t.as_str());
    let j = match parsed {
        Err(e) => {
            return Err(AmError::ConfigError(e));
        },
        Ok(j) => j,
    };
    let d = match document::read_document(&j) {
        None => {
            return Err(document::misread(&j));
        },
        Some(d) => d,
    };
    let mut input: Vec<u8> = Vec::new();
    push_bytes(&mut input, config);
    match document::dockerfile_path(config_path, &d) {
        Some(p) => match dockerfile {
            Some(b) => {
                push_bytes(&mut input, b);
            },
            None => {
                push_text(&mut input, p.as_str());
            },
        },
        None => {},
    }
    let ghost at = document::dockerfile_at(config_path@, d.deep_view());
    let ghost content = match dockerfile {
        Some(b) => Some(b@),
        None => None,
    };
    assert(input@ =~= config@ + dockerfile_bytes(at, content));
    let ids = local_ids_in(&j);
    push_vendored(&mut input, document::config_directory(config_path), &ids, trees);
    let canonical = lock.canonical();
    push_text(&mut input, canonical.as_str());
    let sorted = sort::sort_values(injected.duplicate());
    push_injected(&mut input, &sorted);
    Ok(digest::short_digest(&input))
}

/// The name of the image that a config is built into.
pub open spec fn image_name_of(
    config_path: Seq<char>,
    config: Seq<u8>,
    parsed: Result<JsonModel, Seq<char>>,
    dockerfile: Option<Seq<u8>>,
    trees: Seq<(Seq<char>, TreeModel)>,
    lock: LockModel,
    injected: Seq<InjectedModel>,
) -> Result<Seq<char>, AmErrorModel> {
    match config_hash_of(config_path, config, parsed, dockerfile, trees, lock, injected) {
        Ok(h) => Ok("am-dc-"@ + h),
        Err(e) => Err(e),
    }
}

/// Whether a text is an image's name: the prefix and twelve lower-case hexadecimal digits.
pub open spec fn is_image_name(s: Seq<char>) -> bool {
    text::has_prefix(s, "am-dc-"@) && digest::is_short_digest(s.subrange("am-dc-"@.len() as int, s.len() as int))
}

/// Names the image that a config is built into.
pub fn image_name(
    config_path: &str,
    config: &Vec<u8>,
    dockerfile: Option<&Vec<u8>>,
    trees: &StrMap<Tree>,
    lock: &Lockfile,
    injected: &Vec<InjectedFeature>,
) -> (r: Result<String, AmError>)
    ensures
        crate::error::outcome(r) == image_name_of(
            config_path@,
            config@,
            json::lenient(digest::lossy(config@)),
            match dockerfile {
                Some(b) => Some(b@),
                None => None,
            },
            trees.deep_view(),
            lock.deep_view(),
            injected.deep_view(),
        ),
        r matches Ok(name) ==> is_image_name(name@),
{
    match config_hash(config_path, config, dockerfile, trees, lock, injected) {
        Ok(h) => {
            let name = text::cat2("am-dc-", h.as_str());
            assert(name@.subrange("am-dc-"@.len() as int, name@.len() as int) =~= h@);
            assert(name@.subrange(0, "am-dc-"@.len() as int) =~= "am-dc-"@);
            Ok(name)
        },
        Err(e) => Err(e),
    }
}

/// The order in which Features are injected does not show in the name.
pub proof fn law_the_order_of_injection_does_not_show(
    config_path: Seq<char>,
    config: Seq<u8>,
    parsed: Result<JsonModel, Seq<char>>,
    dockerfile: Option<Seq<u8>>,
    trees: Seq<(Seq<char>, TreeModel)>,
    lock: LockModel,
    a: Seq<InjectedModel>,
    b: Seq<InjectedModel>,
)
    requires
        a.to_multiset() == b.to_multiset(),
    ensures
        image_name_of(config_path, config, parsed, dockerfile, trees, lock, a) == image_name_of(
            config_path,
            config,
            parsed,
            dockerfile,
            trees,
            lock,
            b,
        ),
{
    sort::law_sorted_ignores_order::<InjectedFeature>(a, b);
}

// ----------------------------------------------------------------------------------------------
// Images
// ----------------------------------------------------------------------------------------------

/// The command line, without the runtime, that tells whether an image is there.
pub fn image_exists(image: &str) -> (r: Vec<String>)
    ensures
        r.deep_view() == seq!["image"@, "inspect"@, image@],
{
    let mut v: Vec<String> = Vec::new();
    text::push_str(&mut v, "image");
    text::push_str(&mut v, "inspect");
    text::push_str(&mut v, image);
    assert(v.deep_view() =~= seq!["image"@, "inspect"@, image@]);
    v
}

/// The command line, without the runtime, that prints something of an image.
pub fn inspect_command(image: &str, format: &str) -> (r: Vec<String>)
    ensures
        r.deep_view() == seq!["inspect"@, image@, "--format"@, format@],
{
    let mut v: Vec<String> = Vec::new();
    text::push_str(&mut v, "inspect");
    text::push_str(&mut v, image);
    text::push_str(&mut v, "--format");
    text::push_str(&mut v, format);
    assert(v.deep_view() =~= seq!["inspect"@, image@, "--format"@, format@]);
    v
}

/// The format that prints an image's label.
pub const LABEL_FORMAT: &'static str = "{{ index .Config.Labels \"devcontainer.metadata\" }}";

/// The format that prints an image's user.
pub const USER_FORMAT: &'static str = "{{ .Config.User }}";

/// Whether a runtime printed nothing: it prints `<no value>` for a label that is not there.
pub open spec fn says_nothing(trimmed: Seq<char>) -> bool {
    trimmed.len() == 0 || trimmed == "<no value>"@
}

/// What an image's label says, given what the runtime printed; `parsed` is what the JSON reader made of
/// it.
pub open spec fn image_label(
    image: Seq<char>,
    success: bool,
    stdout: Seq<char>,
    stderr: Seq<char>,
    parsed: Result<JsonModel, Seq<char>>,
) -> Result<Seq<SnippetModel>, AmErrorModel> {
    if !success {
        Err(
            AmErrorModel::ContainerError(
                "could not inspect image "@ + image + ": "@ + text::trimmed(stderr),
            ),
        )
    } else if says_nothing(text::trimmed(stdout)) {
        Ok(Seq::empty())
    } else {
        snippet::label_of(text::trimmed(text::trimmed(stdout)), parsed)
    }
}

/// Reads an image's label out of what the runtime printed.
pub fn read_image_metadata(image: &str, success: bool, stdout: &Vec<u8>, stderr: &Vec<u8>) -> (r: Result<
    Vec<MetadataSnippet>,
    AmError,
>)
    ensures
        crate::error::outcome(r) == image_label(
            image@,
            success,
            digest::lossy(stdout@),
            digest::lossy(stderr@),
            json::lenient(text::trimmed(text::trimmed(digest::lossy(stdout@)))),
        ),
        forall|a: Seq<JsonModel>|
            success && json::plain(JsonModel::Array(a), 64) && text::trimmed(digest::lossy(stdout@))
                == #[trigger] json::spaced(a) ==> crate::error::outcome(r) == snippet::read_back(a),
{
    proof {
        reveal_strlit("<no value>");
        assert forall|a: Seq<JsonModel>|
            text::trimmed(digest::lossy(stdout@)) == #[trigger] json::spaced(a) implies !says_nothing(
            text::trimmed(digest::lossy(stdout@)),
        ) by {
            snippet::lemma_spaced_is_trimmed(a);
        }
    }
    if !success {
        let t = digest::text_of_bytes(stderr);
        return Err(
            AmError::ContainerError(
                text::cat4("could not inspect image ", image, ": ", text::trim(t.as_str())),
            ),
        );
    }
    let t = digest::text_of_bytes(stdout);
    let trimmed = text::trim(t.as_str());
    if trimmed.is_empty() || text::eq(trimmed, "<no value>") {
        let v: Vec<MetadataSnippet> = Vec::new();
        assert(v.deep_view() =~= Seq::<SnippetModel>::empty());
        return Ok(v);
    }
    snippet::parse_metadata_label(trimmed)
}

// ----------------------------------------------------------------------------------------------
// What shows in a name
// ----------------------------------------------------------------------------------------------

/// Everything that an image is built from shows in what is hashed: where one of the config, the
/// Dockerfile, the vendored Features, the lockfile and the injected Features contributes other bytes and
/// the rest stays the same, the whole is another one.
pub proof fn law_every_input_shows(
    config: Seq<u8>,
    dockerfile: Seq<u8>,
    vendored: Seq<u8>,
    lock: LockModel,
    injected: Seq<InjectedModel>,
    other: Seq<u8>,
    other_lock: LockModel,
    other_injected: Seq<InjectedModel>,
)
    ensures
        config != other ==> build_input(config, dockerfile, vendored, lock, injected) != build_input(
            other,
            dockerfile,
            vendored,
            lock,
            injected,
        ),
        dockerfile != other ==> build_input(config, dockerfile, vendored, lock, injected) != build_input(
            config,
            other,
            vendored,
            lock,
            injected,
        ),
        vendored != other ==> build_input(config, dockerfile, vendored, lock, injected) != build_input(
            config,
            dockerfile,
            other,
            lock,
            injected,
        ),
        vstd::utf8::encode_utf8(lock.canonical()) != vstd::utf8::encode_utf8(other_lock.canonical()) ==> build_input(
            config,
            dockerfile,
            vendored,
            lock,
            injected,
        ) != build_input(config, dockerfile, vendored, other_lock, injected),
        injected_bytes(sort::sorted::<InjectedFeature>(injected)) != injected_bytes(
            sort::sorted::<InjectedFeature>(other_injected),
        ) ==> build_input(config, dockerfile, vendored, lock, injected) != build_input(
            config,
            dockerfile,
            vendored,
            lock,
            other_injected,
        ),
{
    let l = vstd::utf8::encode_utf8(lock.canonical());
    let i = injected_bytes(sort::sorted::<InjectedFeature>(injected));
    let m = vstd::utf8::encode_utf8(other_lock.canonical());
    let j = injected_bytes(sort::sorted::<InjectedFeature>(other_injected));
    let c = config;
    let d = dockerfile;
    let v = vendored;
    lemma_cancel(c, other, d);
    lemma_cancel(c + d, other + d, v);
    lemma_cancel(c + d + v, other + d + v, l);
    lemma_cancel(c + d + v + l, other + d + v + l, i);
    lemma_cancel_front(c, d, other);
    lemma_cancel(c + d, c + other, v);
    lemma_cancel(c + d + v, c + other + v, l);
    lemma_cancel(c + d + v + l, c + other + v + l, i);
    lemma_cancel_front(c + d, v, other);
    lemma_cancel(c + d + v, c + d + other, l);
    lemma_cancel(c + d + v + l, c + d + other + l, i);
    lemma_cancel_front(c + d + v, l, m);
    lemma_cancel(c + d + v + l, c + d + v + m, i);
    lemma_cancel_front(c + d + v + l, i, j);
}

proof fn lemma_cancel(x: Seq<u8>, y: Seq<u8>, b: Seq<u8>)
    ensures
        x != y ==> x + b != y + b,
{
    if x + b == y + b {
        assert((x + b).len() == (y + b).len());
        assert forall|i: int| 0 <= i < x.len() implies x[i] == y[i] by {
            assert((x + b)[i] == x[i]);
            assert((y + b)[i] == y[i]);
        }
        assert(x =~= y);
    }
}

proof fn lemma_cancel_front(a: Seq<u8>, x: Seq<u8>, y: Seq<u8>)
    ensures
        x != y ==> a + x != a + y,
{
    if a + x == a + y {
        assert((a + x).len() == (a + y).len());
        assert forall|i: int| 0 <= i < x.len() implies x[i] == y[i] by {
            assert((a + x)[a.len() + i] == x[i]);
            assert((a + y)[a.len() + i] == y[i]);
        }
        assert(x =~= y);
    }
}

/// What a Dockerfile and a vendored Feature contribute: their content where it can be read, and otherwise
/// where they are. A config without a Dockerfile has none to contribute.
pub proof fn law_content_shows_before_its_place(
    at: Option<Seq<char>>,
    content: Option<Seq<u8>>,
    base: Seq<char>,
    id: Seq<char>,
    trees: Seq<(Seq<char>, TreeModel)>,
)
    ensures
        at is None ==> dockerfile_bytes(at, content).len() == 0,
        at is Some ==> (content matches Some(b) ==> dockerfile_bytes(at, content) == b),
        at matches Some(p) ==> content is None ==> dockerfile_bytes(at, content) == vstd::utf8::encode_utf8(p),
        strmap::get(trees, id) matches Some(t) ==> vendored_bytes(base, id, trees) == tree_bytes(t),
        strmap::get(trees, id) is None ==> vendored_bytes(base, id, trees) == vstd::utf8::encode_utf8(
            path::joined(base, id),
        ),
{
}

/// Whether `part` stands somewhere in some bytes.
pub open spec fn has_bytes(s: Seq<u8>, part: Seq<u8>) -> bool {
    exists|i: int|
        #![trigger s.subrange(i, i + part.len())]
        0 <= i && i + part.len() <= s.len() && s.subrange(i, i + part.len()) == part
}

/// Every vendored Feature shows: its id and what it contributes stand next to each other.
pub proof fn law_every_vendored_feature_shows(
    base: Seq<char>,
    ids: Seq<Seq<char>>,
    trees: Seq<(Seq<char>, TreeModel)>,
    k: int,
)
    requires
        0 <= k < ids.len(),
    ensures
        has_bytes(
            all_vendored(base, ids, trees),
            vstd::utf8::encode_utf8(ids[k]) + vendored_bytes(base, ids[k], trees),
        ),
    decreases ids.len(),
{
    let front = ids.drop_last();
    let a = vstd::utf8::encode_utf8(ids.last());
    let b = vendored_bytes(base, ids.last(), trees);
    let rest = all_vendored(base, front, trees);
    assert(rest + a + b =~= rest + (a + b));
    if k < front.len() {
        law_every_vendored_feature_shows(base, front, trees, k);
        lemma_bytes_more(rest, vstd::utf8::encode_utf8(ids[k]) + vendored_bytes(base, ids[k], trees), a + b);
    } else {
        lemma_bytes_last(rest, a + b);
    }
}

/// Every injected Feature shows: its id and its options stand next to each other.
pub proof fn law_every_injected_feature_shows(fs: Seq<InjectedModel>, k: int)
    requires
        0 <= k < fs.len(),
    ensures
        has_bytes(
            injected_bytes(fs),
            vstd::utf8::encode_utf8(fs[k].id) + vstd::utf8::encode_utf8(fs[k].options),
        ),
    decreases fs.len(),
{
    let front = fs.drop_last();
    let a = vstd::utf8::encode_utf8(fs.last().id);
    let b = vstd::utf8::encode_utf8(fs.last().options);
    let rest = injected_bytes(front);
    assert(rest + a + b =~= rest + (a + b));
    if k < front.len() {
        law_every_injected_feature_shows(front, k);
        lemma_bytes_more(rest, vstd::utf8::encode_utf8(fs[k].id) + vstd::utf8::encode_utf8(fs[k].options), a + b);
    } else {
        lemma_bytes_last(rest, a + b);
    }
}

proof fn lemma_bytes_more(s: Seq<u8>, part: Seq<u8>, t: Seq<u8>)
    requires
        has_bytes(s, part),
    ensures
        has_bytes(s + t, part),
{
    let i = choose|i: int|
        #![trigger s.subrange(i, i + part.len())]
        0 <= i && i + part.len() <= s.len() && s.subrange(i, i + part.len()) == part;
    assert((s + t).subrange(i, i + part.len()) =~= part);
}

proof fn lemma_bytes_last(s: Seq<u8>, part: Seq<u8>)
    ensures
        has_bytes(s + part, part),
{
    let i = s.len() as int;
    assert((s + part).subrange(i, i + part.len()) =~= part);
}

/// Everything in a directory shows: the name of each entry, right before what the entry contributes. A
/// file that can be read contributes its content.
pub proof fn law_every_entry_shows(v: Seq<(Seq<char>, TreeModel)>, k: int, content: Seq<u8>)
    requires
        names_differ(v),
        0 <= k < v.len(),
    ensures
        has_bytes(tree_bytes(TreeModel::Folder(v)), vstd::utf8::encode_utf8(v[k].0) + tree_bytes(v[k].1)),
        tree_bytes(TreeModel::File(Some(content))) == content,
{
    let e = entry_blocks(v);
    assert(names_differ(e)) by {
        assert forall|i: int, j: int| 0 <= i < j < e.len() implies (#[trigger] e[i]).0 != (#[trigger] e[j]).0 by {
            assert(v[i].0 != v[j].0);
        }
    }
    lemma_collected_keeps(e, k);
    let c = decode::collected(e);
    let i = choose|i: int| 0 <= i < c.len() && c[i] == e[k];
    lemma_block_shows(c, i);
    assert(e[k].1 == vstd::utf8::encode_utf8(v[k].0) + tree_bytes(v[k].1));
}

proof fn lemma_collected_keeps(e: Seq<(Seq<char>, Seq<u8>)>, k: int)
    requires
        names_differ(e),
        0 <= k < e.len(),
    ensures
        decode::collected(e).contains(e[k]),
    decreases e.len(),
{
    let front = e.drop_last();
    let c = decode::collected(front);
    assert(names_differ(front)) by {
        assert forall|i: int, j: int| 0 <= i < j < front.len() implies (#[trigger] front[i]).0 != (
        #[trigger] front[j]).0 by {
            assert(e[i].0 != e[j].0);
        }
    }
    if k < front.len() {
        lemma_collected_keeps(front, k);
        assert(e[k].0 != e[e.len() - 1].0);
        lemma_insert_keeps(c, e.last().0, e.last().1, e[k]);
    } else {
        lemma_insert_puts(c, e.last().0, e.last().1);
    }
}

proof fn lemma_insert_keeps(s: Seq<(Seq<char>, Seq<u8>)>, k: Seq<char>, v: Seq<u8>, x: (Seq<char>, Seq<u8>))
    requires
        s.contains(x),
        x.0 != k,
    ensures
        strmap::insert(s, k, v).contains(x),
    decreases s.len(),
{
    let t = strmap::insert(s, k, v);
    let i = choose|i: int| 0 <= i < s.len() && s[i] == x;
    let rest = s.drop_first();
    if s[0].0 == k {
        assert(t[i] == x);
    } else if text::less(k, s[0].0) {
        assert(t[i + 1] == x);
    } else if i == 0 {
        assert(t[0] == x);
    } else {
        assert(rest[i - 1] == x);
        lemma_insert_keeps(rest, k, v, x);
        let u = strmap::insert(rest, k, v);
        let j = choose|j: int| 0 <= j < u.len() && u[j] == x;
        assert(t[j + 1] == x);
    }
}

proof fn lemma_insert_puts(s: Seq<(Seq<char>, Seq<u8>)>, k: Seq<char>, v: Seq<u8>)
    ensures
        strmap::insert(s, k, v).contains((k, v)),
    decreases s.len(),
{
    let t = strmap::insert(s, k, v);
    if s.len() == 0 || s[0].0 == k || text::less(k, s[0].0) {
        assert(t[0] == (k, v));
    } else {
        lemma_insert_puts(s.drop_first(), k, v);
        let u = strmap::insert(s.drop_first(), k, v);
        let j = choose|j: int| 0 <= j < u.len() && u[j] == (k, v);
        assert(t[j + 1] == (k, v));
    }
}

proof fn lemma_block_shows(m: Seq<(Seq<char>, Seq<u8>)>, k: int)
    requires
        0 <= k < m.len(),
    ensures
        has_bytes(blocks(m), m[k].1),
    decreases m.len(),
{
    if k < m.len() - 1 {
        lemma_block_shows(m.drop_last(), k);
        lemma_bytes_more(blocks(m.drop_last()), m[k].1, m.last().1);
    } else {
        lemma_bytes_last(blocks(m.drop_last()), m.last().1);
    }
}

/// The Features that a config takes from the repository are those of its `features` whose ids are written
/// as paths, and no others.
pub proof fn law_local_features_are_paths(parsed: Result<JsonModel, Seq<char>>, id: Seq<char>)
    ensures
        local_ids(parsed).contains(id) <==> {
            &&& parsed is Ok
            &&& parsed->Ok_0.member("features"@) matches Some(JsonModel::Object(o)) && exists|i: int|
                0 <= i < o.len() && (#[trigger] o[i]).0 == id
            &&& text::has_prefix(id, "./"@) || text::has_prefix(id, "../"@)
        },
{
    broadcast use vstd::seq_lib::group_to_multiset_ensures;

    match parsed {
        Ok(j) => match j.member("features"@) {
            Some(JsonModel::Object(o)) => {
                let keys = o.map_values(|m: (Seq<char>, JsonModel)| m.0);
                let f = |id: Seq<char>| is_local(id);
                let kept = keys.filter(f);
                sort::law_sorted::<String>(kept);
                assert(local_ids(parsed).contains(id) <==> kept.contains(id)) by {
                    assert(local_ids(parsed).to_multiset().count(id) == kept.to_multiset().count(id));
                }
                lemma_filtered(keys, f, id);
                if exists|i: int| 0 <= i < o.len() && (#[trigger] o[i]).0 == id {
                    let i = choose|i: int| 0 <= i < o.len() && (#[trigger] o[i]).0 == id;
                    assert(keys[i] == id);
                }
                if keys.contains(id) {
                    let i = choose|i: int| 0 <= i < keys.len() && keys[i] == id;
                    assert(o[i].0 == id);
                }
            },
            _ => {},
        },
        Err(_) => {},
    }
}

proof fn lemma_filtered(s: Seq<Seq<char>>, f: spec_fn(Seq<char>) -> bool, x: Seq<char>)
    ensures
        s.filter(f).contains(x) <==> s.contains(x) && f(x),
    decreases s.len(),
{
    reveal(Seq::filter);
    if s.len() > 0 {
        let front = s.drop_last();
        let r = front.filter(f);
        let all = s.filter(f);
        lemma_filtered(front, f, x);
        if all.contains(x) {
            let i = choose|i: int| 0 <= i < all.len() && all[i] == x;
            if i < r.len() {
                assert(r[i] == x);
                let j = choose|j: int| 0 <= j < front.len() && front[j] == x;
                assert(s[j] == x);
            } else {
                assert(s[s.len() - 1] == x);
            }
        }
        if s.contains(x) && f(x) {
            let i = choose|i: int| 0 <= i < s.len() && s[i] == x;
            if i < front.len() {
                assert(front[i] == x);
                let j = choose|j: int| 0 <= j < r.len() && r[j] == x;
                assert(all[j] == x);
            } else {
                assert(all[r.len() as int] == x);
            }
        }
    }
}

/// An image is named after the digest of all that it is built from: its twelve digits are the first six bytes
/// of it, each byte as two digits. A config that cannot be read names no image.
pub proof fn law_an_image_is_named_after_its_inputs(
    config_path: Seq<char>,
    config: Seq<u8>,
    parsed: Result<JsonModel, Seq<char>>,
    dockerfile: Option<Seq<u8>>,
    trees: Seq<(Seq<char>, TreeModel)>,
    lock: LockModel,
    injected: Seq<InjectedModel>,
    i: int,
)
    requires
        0 <= i < 6,
    ensures
        document::config_of(parsed) is Err ==> image_name_of(
            config_path,
            config,
            parsed,
            dockerfile,
            trees,
            lock,
            injected,
        ) is Err,
        document::config_of(parsed) matches Ok(d) ==> {
            let name = image_name_of(config_path, config, parsed, dockerfile, trees, lock, injected);
            let input = build_input(
                config,
                dockerfile_bytes(document::dockerfile_at(config_path, d), dockerfile),
                all_vendored(document::config_dir(config_path), local_ids(parsed), trees),
                lock,
                injected,
            );
            &&& name is Ok
            &&& text::has_prefix(name->Ok_0, "am-dc-"@)
            &&& digest::sha256(input).len() == 32 ==> name->Ok_0.len() == 18 && digest::digit_value(
                name->Ok_0[6 + 2 * i],
            ) * 16 + digest::digit_value(name->Ok_0[7 + 2 * i]) == digest::sha256(input)[i]
        },
{
    reveal_strlit("am-dc-");
    match document::config_of(parsed) {
        Ok(d) => {
            let input = build_input(
                config,
                dockerfile_bytes(document::dockerfile_at(config_path, d), dockerfile),
                all_vendored(document::config_dir(config_path), local_ids(parsed), trees),
                lock,
                injected,
            );
            let b = digest::sha256(input).subrange(0, 6);
            digest::law_every_byte_is_two_digits(b, i);
            let name = "am-dc-"@ + digest::hex(b);
            assert(name.subrange(0, 6) =~= "am-dc-"@);
        },
        Err(_) => {},
    }
}

/// What is read of an image's label: an image that could not be inspected is an error that names it, an image
/// without the label has no snippets, and any other has those of its label.
pub proof fn law_an_images_label_is_read(
    image: Seq<char>,
    stdout: Seq<char>,
    stderr: Seq<char>,
    parsed: Result<JsonModel, Seq<char>>,
)
    ensures
        image_label(image, false, stdout, stderr, parsed) matches Err(AmErrorModel::ContainerError(m)) && text::holds(
            m,
            image,
        ) && text::has_suffix(m, text::trimmed(stderr)),
        text::trimmed(stdout).len() == 0 || text::trimmed(stdout) == "<no value>"@ ==> image_label(
            image,
            true,
            stdout,
            stderr,
            parsed,
        ) == Ok::<Seq<SnippetModel>, AmErrorModel>(Seq::empty()),
        text::trimmed(stdout).len() > 0 && text::trimmed(stdout) != "<no value>"@ ==> image_label(
            image,
            true,
            stdout,
            stderr,
            parsed,
        ) == snippet::label_of(text::trimmed(text::trimmed(stdout)), parsed),
{
    let t = text::trimmed(stderr);
    let front = "could not inspect image "@ + image;
    let m = front + ": "@ + t;
    text::lemma_holds_middle("could not inspect image "@, image, Seq::empty());
    assert(front =~= "could not inspect image "@ + image + Seq::<char>::empty());
    text::lemma_holds_after(front, image, ": "@);
    text::lemma_holds_after(front + ": "@, image, t);
    assert(m.subrange(m.len() - t.len(), m.len() as int) =~= t);
}

} // verus!
