//! `devcontainer-lock.json`, which pins Features to the artifacts that they resolved to.
//!
//! A tag moves, and two builds of one config can get different Features. The lockfile records what each
//! id resolved to, and that is what is fetched from then on. It is also part of what an image is named
//! after, so that a tag that moved leads to a new image without anything being fetched to find out.
//! Local Features are not in it: their files are hashed instead.

use vstd::prelude::*;

use crate::decode;
use crate::duplicate::Duplicate;
use crate::json::{self, Json, JsonModel};
use crate::strmap::{self, StrMap};
use crate::text;

verus! {

/// What one Feature resolved to.
#[derive(Debug, PartialEq)]
pub struct LockEntry {
    /// The Feature's own version, for whoever reads the file.
    pub version: Option<String>,
    /// The id with its digest, or the URL of a tarball.
    pub resolved: String,
    /// The digest of the artifact.
    pub integrity: String,
    /// The ids that the Feature depends on, as it wrote them.
    pub depends_on: Vec<String>,
}

/// What a [`LockEntry`] stands for.
pub struct LockEntryModel {
    pub version: Option<Seq<char>>,
    pub resolved: Seq<char>,
    pub integrity: Seq<char>,
    pub depends_on: Seq<Seq<char>>,
}

impl DeepView for LockEntry {
    type V = LockEntryModel;

    open spec fn deep_view(&self) -> LockEntryModel {
        LockEntryModel {
            version: self.version.deep_view(),
            resolved: self.resolved@,
            integrity: self.integrity@,
            depends_on: self.depends_on.deep_view(),
        }
    }
}

impl Duplicate for LockEntry {
    fn duplicate(&self) -> (r: Self) {
        LockEntry {
            version: self.version.duplicate(),
            resolved: self.resolved.clone(),
            integrity: self.integrity.clone(),
            depends_on: self.depends_on.duplicate(),
        }
    }
}

/// The lockfile.
#[derive(Debug, PartialEq)]
pub struct Lockfile {
    pub features: StrMap<LockEntry>,
}

/// What a [`Lockfile`] stands for.
pub struct LockModel {
    pub features: Seq<(Seq<char>, LockEntryModel)>,
}

impl DeepView for Lockfile {
    type V = LockModel;

    open spec fn deep_view(&self) -> LockModel {
        LockModel { features: self.features.deep_view() }
    }
}

impl LockModel {
    /// A lockfile without entries.
    pub open spec fn empty() -> LockModel {
        LockModel { features: Seq::empty() }
    }

    /// The entry for an id. Ids are compared without regard to case.
    pub open spec fn entry(self, id: Seq<char>) -> Option<LockEntryModel> {
        strmap::get(self.features, text::lowercase(id))
    }

    /// The digest that a registry Feature is pinned to.
    pub open spec fn digest_for(self, id: Seq<char>) -> Option<Seq<char>> {
        match self.entry(id) {
            Some(e) => match text::split_last(e.resolved, '@') {
                Some((_, digest)) => Some(digest),
                None => None,
            },
            None => None,
        }
    }

    /// The digest that a download has to have.
    pub open spec fn integrity_for(self, id: Seq<char>) -> Option<Seq<char>> {
        match self.entry(id) {
            Some(e) => Some(e.integrity),
            None => None,
        }
    }

    /// The lockfile with one more entry.
    pub open spec fn with(self, id: Seq<char>, e: LockEntryModel) -> LockModel {
        LockModel { features: strmap::insert(self.features, text::lowercase(id), e) }
    }
}

impl Default for Lockfile {
    fn default() -> (r: Self)
        ensures
            r.deep_view() == LockModel::empty(),
    {
        Lockfile { features: StrMap::new() }
    }
}

impl Lockfile {
    /// The digest that a registry Feature is pinned to.
    pub fn digest_for<'a>(&'a self, id: &str) -> (r: Option<&'a str>)
        ensures
            r.deep_view() == self.deep_view().digest_for(id@),
    {
        let key = text::to_lowercase(id);
        match self.features.get(key.as_str()) {
            Some(e) => match text::rsplit_once(e.resolved.as_str(), '@') {
                Some((_, digest)) => Some(digest),
                None => None,
            },
            None => None,
        }
    }

    /// The digest that a download has to have.
    pub fn integrity_for<'a>(&'a self, id: &str) -> (r: Option<&'a str>)
        ensures
            r.deep_view() == self.deep_view().integrity_for(id@),
    {
        let key = text::to_lowercase(id);
        match self.features.get(key.as_str()) {
            Some(e) => Some(e.integrity.as_str()),
            None => None,
        }
    }

    /// Records what an id resolved to.
    pub fn insert(&mut self, id: &str, entry: LockEntry)
        ensures
            final(self).deep_view() == old(self).deep_view().with(id@, entry.deep_view()),
            strmap::sorted(old(self).features.deep_view()),
            strmap::sorted(final(self).features.deep_view()),
    {
        self.features.insert(text::to_lowercase(id), entry);
    }
}

/// What was recorded for an id is found under every id that differs from it in case alone, and nothing
/// else changes.
pub proof fn law_a_record_is_found_again(lock: LockModel, id: Seq<char>, e: LockEntryModel, other: Seq<char>)
    requires
        strmap::sorted(lock.features),
    ensures
        lock.with(id, e).entry(other) == (if text::lowercase(other) == text::lowercase(id) {
            Some(e)
        } else {
            lock.entry(other)
        }),
{
    strmap::lemma_get_after_insert(lock.features, text::lowercase(id), e, text::lowercase(other));
}

// ----------------------------------------------------------------------------------------------
// Writing
// ----------------------------------------------------------------------------------------------

/// An entry as JSON. What there is nothing to say of is left out.
pub open spec fn entry_json(e: LockEntryModel) -> JsonModel {
    JsonModel::Object(
        (match e.version {
            Some(v) => seq![("version"@, JsonModel::Str(v))],
            None => Seq::empty(),
        }) + seq![("resolved"@, JsonModel::Str(e.resolved)), ("integrity"@, JsonModel::Str(e.integrity))] + (
        if e.depends_on.len() > 0 {
            seq![("dependsOn"@, json::texts_model(e.depends_on))]
        } else {
            Seq::empty()
        }),
    )
}

/// The entries as members of an object.
pub open spec fn entry_members(features: Seq<(Seq<char>, LockEntryModel)>) -> Seq<(Seq<char>, JsonModel)> {
    features.map_values(|f: (Seq<char>, LockEntryModel)| (f.0, entry_json(f.1)))
}

/// The lockfile as JSON.
pub open spec fn lock_json(lock: LockModel) -> JsonModel {
    JsonModel::Object(seq![("features"@, JsonModel::Object(entry_members(lock.features)))])
}

impl LockModel {
    /// The lockfile's text, without the final line feed.
    pub open spec fn canonical(self) -> Seq<char> {
        json::pretty(lock_json(self), 0)
    }
}

fn write_entry(e: &LockEntry) -> (r: Json)
    ensures
        r@ == entry_json(e.deep_view()),
{
    broadcast use crate::json::lemma_object_view;

    let mut o: Vec<(String, Json)> = Vec::new();
    assert(json::members_model(o@) =~= Seq::empty());
    match &e.version {
        Some(v) => {
            json::push_member(&mut o, "version", Json::Str(v.clone()));
        },
        None => {},
    }
    json::push_member(&mut o, "resolved", Json::Str(e.resolved.clone()));
    json::push_member(&mut o, "integrity", Json::Str(e.integrity.clone()));
    if e.depends_on.len() > 0 {
        json::push_member(&mut o, "dependsOn", json::texts_json(&e.depends_on));
    }
    let r = Json::Object(o);
    assert(json::members_model(o@) =~= entry_json(e.deep_view())->Object_0);
    r
}

impl Lockfile {
    fn to_json(&self) -> (r: Json)
        ensures
            r@ == lock_json(self.deep_view()),
    {
        broadcast use crate::json::lemma_object_view;

        let ghost s = self.features.deep_view();
        let ghost t = entry_members(s);
        let n: usize = self.features.len();
        let mut o: Vec<(String, Json)> = Vec::new();
        let mut i: usize = 0;
        assert(json::members_model(o@) =~= t.subrange(0, 0));
        while i < n
            invariant
                s == self.features.deep_view(),
                t == entry_members(s),
                n == s.len(),
                i <= n,
                json::members_model(o@) == t.subrange(0, i as int),
            decreases n - i,
        {
            let (k, e) = self.features.at(i);
            json::push_member(&mut o, k, write_entry(e));
            assert(t.subrange(0, i + 1) =~= t.subrange(0, i as int).push(t[i as int]));
            i = i + 1;
        }
        assert(t.subrange(0, t.len() as int) =~= t);
        let mut whole: Vec<(String, Json)> = Vec::new();
        assert(json::members_model(whole@) =~= Seq::empty());
        json::push_member(&mut whole, "features", Json::Object(o));
        assert(json::members_model(whole@) =~= seq![("features"@, JsonModel::Object(t))]);
        Json::Object(whole)
    }

    /// The lockfile's text, the same for the same entries in whatever order they were recorded.
    pub fn canonical(&self) -> (r: String)
        ensures
            r@ == self.deep_view().canonical(),
    {
        self.to_json().to_pretty()
    }
}

/// The order in which two ids are recorded does not show.
pub proof fn law_the_order_of_recording_does_not_show(
    lock: LockModel,
    a: Seq<char>,
    ea: LockEntryModel,
    b: Seq<char>,
    eb: LockEntryModel,
)
    requires
        strmap::sorted(lock.features),
        text::lowercase(a) != text::lowercase(b),
    ensures
        lock.with(a, ea).with(b, eb).canonical() == lock.with(b, eb).with(a, ea).canonical(),
{
    strmap::lemma_inserts_commute(lock.features, text::lowercase(a), ea, text::lowercase(b), eb);
}

// ----------------------------------------------------------------------------------------------
// Reading
// ----------------------------------------------------------------------------------------------

/// The fields of an entry.
pub open spec fn entry_fields() -> Seq<Seq<char>> {
    seq!["version"@, "resolved"@, "integrity"@, "dependsOn"@]
}

/// The fields of a lockfile.
pub open spec fn lock_fields() -> Seq<Seq<char>> {
    seq!["features"@]
}

/// The entry that JSON spells.
pub open spec fn entry_of(j: JsonModel) -> Option<LockEntryModel> {
    let j = decode::named(j, entry_fields(), 3);
    let version = decode::opt_text_of(j.member("version"@));
    let depends_on = decode::texts_of(j.member("dependsOn"@));
    match (j.member("resolved"@), j.member("integrity"@)) {
        (Some(JsonModel::Str(resolved)), Some(JsonModel::Str(integrity))) => if version is Some && depends_on is Some {
            Some(LockEntryModel { version: version->0, resolved, integrity, depends_on: depends_on->0 })
        } else {
            None
        },
        _ => None,
    }
}

/// The lockfile that JSON spells.
pub open spec fn lock_of(j: JsonModel) -> Option<LockModel> {
    let j = decode::named(j, lock_fields(), 0);
    match (j, j.member("features"@)) {
        (JsonModel::Object(_), None) => Some(LockModel::empty()),
        (JsonModel::Object(_), Some(JsonModel::Object(o))) => if forall|i: int|
            0 <= i < o.len() ==> entry_of((#[trigger] o[i]).1) is Some {
            Some(
                LockModel {
                    features: decode::collected(
                        o.map_values(|m: (Seq<char>, JsonModel)| (m.0, entry_of(m.1)->0)),
                    ),
                },
            )
        } else {
            None
        },
        _ => None,
    }
}

/// The lockfile in a text, empty where the text is none; `parsed` is what the JSON reader made of it.
pub open spec fn lock_in(parsed: Result<JsonModel, Seq<char>>) -> LockModel {
    match parsed {
        Ok(j) => match lock_of(j) {
            Some(l) => l,
            None => LockModel::empty(),
        },
        Err(_) => LockModel::empty(),
    }
}

fn read_entry(j: &Json) -> (r: Option<LockEntry>)
    ensures
        r.deep_view() == entry_of(j@),
{
    let names: Vec<&str> = vec!["version", "resolved", "integrity", "dependsOn"];
    assert(names.deep_view() =~= entry_fields());
    let held = decode::by_position(j, &names, 3);
    let j: &Json = match &held {
        Some(o) => o,
        None => j,
    };
    let version = decode::opt_text(j.get("version"));
    let depends_on = decode::texts(j.get("dependsOn"));
    if version.is_none() || depends_on.is_none() {
        return None;
    }
    match (j.get("resolved"), j.get("integrity")) {
        (Some(Json::Str(resolved)), Some(Json::Str(integrity))) => Some(
            LockEntry {
                version: version.unwrap(),
                resolved: resolved.clone(),
                integrity: integrity.clone(),
                depends_on: depends_on.unwrap(),
            },
        ),
        _ => None,
    }
}

fn read_entries(o: &Vec<(String, Json)>) -> (r: Option<StrMap<LockEntry>>)
    ensures
        r.deep_view() == (if forall|i: int|
            0 <= i < json::members_model(o@).len() ==> entry_of((#[trigger] json::members_model(o@)[i]).1) is Some {
            Some(
                decode::collected(
                    json::members_model(o@).map_values(|m: (Seq<char>, JsonModel)| (m.0, entry_of(m.1)->0)),
                ),
            )
        } else {
            None
        }),
{
    let mut out: StrMap<LockEntry> = StrMap::new();
    let ghost m = json::members_model(o@);
    let ghost t = m.map_values(|e: (Seq<char>, JsonModel)| (e.0, entry_of(e.1)->0));
    let mut i: usize = 0;
    assert(t.subrange(0, 0) =~= Seq::empty());
    while i < o.len()
        invariant
            m == json::members_model(o@),
            t == m.map_values(|e: (Seq<char>, JsonModel)| (e.0, entry_of(e.1)->0)),
            i <= o.len(),
            forall|k: int| 0 <= k < i ==> entry_of((#[trigger] m[k]).1) is Some,
            out.deep_view() == decode::collected(t.subrange(0, i as int)),
        decreases o.len() - i,
    {
        assert(m[i as int] == (o@[i as int].0@, o@[i as int].1@));
        match read_entry(&o[i].1) {
            Some(e) => {
                out.insert(o[i].0.clone(), e);
            },
            None => {
                return None;
            },
        }
        i = i + 1;
        assert(t.subrange(0, i as int).drop_last() =~= t.subrange(0, i - 1));
    }
    assert(t.subrange(0, t.len() as int) =~= t);
    Some(out)
}

/// Reads a lockfile that is already JSON.
pub fn read_lock(j: &Json) -> (r: Option<Lockfile>)
    ensures
        r.deep_view() == lock_of(j@),
{
    broadcast use crate::json::lemma_object_view;

    let names: Vec<&str> = vec!["features"];
    assert(names.deep_view() =~= lock_fields());
    let held = decode::by_position(j, &names, 0);
    let j: &Json = match &held {
        Some(o) => o,
        None => j,
    };
    match j {
        Json::Object(_) => {},
        _ => {
            return None;
        },
    }
    match j.get("features") {
        None => Some(Lockfile::default()),
        Some(Json::Object(o)) => match read_entries(o) {
            Some(features) => Some(Lockfile { features }),
            None => None,
        },
        _ => None,
    }
}

proof fn lemma_collected_sorted(s: Seq<(Seq<char>, LockEntryModel)>)
    requires
        strmap::sorted(s),
    ensures
        decode::collected(s) == s,
    decreases s.len(),
{
    if s.len() > 0 {
        let r = s.drop_last();
        assert(strmap::sorted(r)) by {
            assert forall|i: int, j: int| #![trigger r[i], r[j]] 0 <= i < j < r.len() implies text::less(
                r[i].0,
                r[j].0,
            ) by {
                assert(r[i] == s[i] && r[j] == s[j]);
            }
        }
        lemma_collected_sorted(r);
        assert forall|i: int| 0 <= i < r.len() implies text::less((#[trigger] r[i]).0, s.last().0) by {
            assert(r[i] == s[i]);
            assert(s[s.len() - 1] == s.last());
        }
        strmap::lemma_insert_at_end(r, s.last().0, s.last().1);
        assert(s =~= r.push(s.last()));
    } else {
        assert(s =~= Seq::empty());
    }
}

proof fn lemma_entry_read_back(e: LockEntryModel)
    ensures
        entry_of(entry_json(e)) == Some(e),
        json::plain(entry_json(e), 2),
{
    reveal_strlit("version");
    reveal_strlit("resolved");
    reveal_strlit("integrity");
    reveal_strlit("dependsOn");
    let o = entry_json(e)->Object_0;
    assert("version"@ != "resolved"@ && "version"@ != "integrity"@ && "version"@ != "dependsOn"@) by {
        assert("version"@[0] == 'v' && "resolved"@[0] == 'r' && "integrity"@[0] == 'i' && "dependsOn"@[0] == 'd');
    }
    assert("resolved"@ != "integrity"@ && "resolved"@ != "dependsOn"@ && "integrity"@ != "dependsOn"@) by {
        assert("resolved"@[0] == 'r' && "integrity"@[0] == 'i' && "dependsOn"@[0] == 'd');
    }
    reveal_with_fuel(json::lookup, 5);
    let deps = json::texts_model(e.depends_on);
    assert(decode::text_list(deps->Array_0) == Some(e.depends_on)) by {
        assert(deps->Array_0.map_values(|j: JsonModel| j->Str_0) =~= e.depends_on);
    }
    if e.depends_on.len() == 0 {
        assert(e.depends_on =~= Seq::empty());
    }
    assert(o.len() >= 2);
    let k: int = if e.version is Some {
        1
    } else {
        0
    };
    assert(o[k] == ("resolved"@, JsonModel::Str(e.resolved)));
    assert(o[k + 1] == ("integrity"@, JsonModel::Str(e.integrity)));
    assert(e.version is Some ==> o[0] == ("version"@, JsonModel::Str(e.version->0)));
    assert(e.depends_on.len() > 0 ==> o[k + 2] == ("dependsOn"@, deps));
    assert(o.len() == k + 2 + (if e.depends_on.len() > 0 {
        1int
    } else {
        0int
    }));
    lemma_lookup(o, "version"@);
    lemma_lookup(o, "resolved"@);
    lemma_lookup(o, "integrity"@);
    lemma_lookup(o, "dependsOn"@);
    assert(json::plain(deps, 1)) by {
        assert forall|i: int| 0 <= i < deps->Array_0.len() implies json::plain(#[trigger] deps->Array_0[i], 0) by {
            assert(deps->Array_0[i] == JsonModel::Str(e.depends_on[i]));
        }
    }
    assert forall|i: int| 0 <= i < o.len() implies json::plain((#[trigger] o[i]).1, 1) by {
        assert(i == 0 || i == 1 || i == 2 || i == 3);
    }
    assert forall|i: int, j: int| 0 <= i < j < o.len() implies (#[trigger] o[i]).0 != (#[trigger] o[j]).0 by {
        assert(i == 0 || i == 1 || i == 2 || i == 3);
        assert(j == 0 || j == 1 || j == 2 || j == 3);
    }
}

proof fn lemma_lookup(o: Seq<(Seq<char>, JsonModel)>, k: Seq<char>)
    ensures
        match json::lookup(o, k) {
            Some(v) => exists|i: int| 0 <= i < o.len() && o[i] == (k, v),
            None => forall|i: int| 0 <= i < o.len() ==> (#[trigger] o[i]).0 != k,
        },
    decreases o.len(),
{
    if o.len() > 0 && o[0].0 != k {
        let r = o.drop_first();
        lemma_lookup(r, k);
        match json::lookup(o, k) {
            Some(v) => {
                let i = choose|i: int| 0 <= i < r.len() && r[i] == (k, v);
                assert(o[i + 1] == (k, v));
            },
            None => {
                assert forall|i: int| 0 <= i < o.len() implies (#[trigger] o[i]).0 != k by {
                    if i > 0 {
                        assert(r[i - 1] == o[i]);
                    }
                }
            },
        }
    } else if o.len() > 0 {
        assert(o[0] == (k, o[0].1));
    }
}

/// A lockfile that has been turned into JSON is read back as it was.
pub proof fn law_a_lockfile_is_read_back(lock: LockModel)
    requires
        strmap::sorted(lock.features),
    ensures
        lock_of(lock_json(lock)) == Some(lock),
        json::plain(lock_json(lock), 64),
{
    let o = entry_members(lock.features);
    let whole = lock_json(lock)->Object_0;
    assert(whole[0] == ("features"@, JsonModel::Object(o)));
    assert(json::lookup(whole, "features"@) == Some(JsonModel::Object(o)));
    assert forall|i: int| 0 <= i < o.len() implies entry_of((#[trigger] o[i]).1) == Some(lock.features[i].1)
        && json::plain(o[i].1, 2) by {
        lemma_entry_read_back(lock.features[i].1);
    }
    assert(o.map_values(|m: (Seq<char>, JsonModel)| (m.0, entry_of(m.1)->0)) =~= lock.features);
    lemma_collected_sorted(lock.features);
    assert forall|i: int| 0 <= i < o.len() implies json::plain((#[trigger] o[i]).1, 62) by {
        lemma_plain_deeper(o[i].1, 2, 62);
    }
    assert forall|i: int, j: int| 0 <= i < j < o.len() implies (#[trigger] o[i]).0 != (#[trigger] o[j]).0 by {
        assert(text::less(lock.features[i].0, lock.features[j].0));
        text::lemma_less_irreflexive(lock.features[i].0);
    }
    assert(json::plain(JsonModel::Object(o), 63));
    assert forall|i: int| 0 <= i < whole.len() implies json::plain((#[trigger] whole[i]).1, 63) by {
        assert(i == 0);
    }
}

proof fn lemma_plain_deeper(j: JsonModel, a: nat, b: nat)
    requires
        json::plain(j, a),
        a <= b,
    ensures
        json::plain(j, b),
    decreases j,
{
    match j {
        JsonModel::Array(x) => {
            assert forall|i: int| 0 <= i < x.len() implies json::plain(#[trigger] x[i], (b - 1) as nat) by {
                lemma_plain_deeper(x[i], (a - 1) as nat, (b - 1) as nat);
            }
        },
        JsonModel::Object(x) => {
            assert forall|i: int| 0 <= i < x.len() implies json::plain((#[trigger] x[i]).1, (b - 1) as nat) by {
                lemma_plain_deeper(x[i].1, (a - 1) as nat, (b - 1) as nat);
            }
        },
        _ => {},
    }
}

/// Reads the lockfile's text. A lockfile that is absent or broken is empty: it only records what can be
/// found out again. One that was written here is read as it was written.
pub fn load(text: Option<&str>) -> (r: Lockfile)
    ensures
        r.deep_view() == (match text {
            Some(t) => lock_in(json::strict(t@)),
            None => LockModel::empty(),
        }),
        forall|lock: LockModel|
            strmap::sorted(lock.features) && text is Some && text->0@ == #[trigger] lock.canonical() + "\n"@
                ==> r.deep_view() == lock,
{
    match text {
        None => Lockfile::default(),
        Some(t) => {
            let parsed = json::parse_strict(t);
            proof {
                assert forall|lock: LockModel|
                    strmap::sorted(lock.features) && t@ == #[trigger] lock.canonical() + "\n"@ implies lock_in(
                    json::strict(t@),
                ) == lock by {
                    law_a_lockfile_is_read_back(lock);
                    assert(t@ == json::pretty(lock_json(lock), 0) + "\n"@);
                }
            }
            match parsed {
                Err(_) => Lockfile::default(),
                Ok(j) => match read_lock(&j) {
                    Some(l) => l,
                    None => Lockfile::default(),
                },
            }
        },
    }
}

/// What to write over a lockfile: nothing where there is nothing to record, or where the file says
/// exactly that already.
pub fn save(existing: Option<&str>, lock: &Lockfile) -> (r: Option<String>)
    ensures
        r.deep_view() == ({
            let rendered = lock.deep_view().canonical() + "\n"@;
            if lock.deep_view().features.len() == 0 || existing.deep_view() == Some(rendered) {
                None
            } else {
                Some(rendered)
            }
        }),
        strmap::sorted(lock.deep_view().features),
{
    if lock.features.len() == 0 {
        return None;
    }
    let body = lock.canonical();
    let rendered = text::cat2(body.as_str(), "\n");
    match existing {
        Some(e) => if text::eq(e, rendered.as_str()) {
            return None;
        },
        None => {},
    }
    Some(rendered)
}

/// Where the lockfile lives: beside the config that it belongs to.
pub fn path(config_path: &str) -> (r: String)
    ensures
        r@ == crate::path::joined(
            crate::devcontainer::document::config_dir(config_path@),
            "devcontainer-lock.json"@,
        ),
{
    crate::path::join(crate::devcontainer::document::config_directory(config_path), "devcontainer-lock.json")
}

/// What a lockfile's text says of an entry: under these names its version, what it resolved to, its digest
/// and what it depends on, and the last two of these only where there is something to say.
pub proof fn law_an_entry_is_spelled_out(e: LockEntryModel)
    ensures
        entry_json(e).member("version"@) == (match e.version {
            Some(v) => Some(JsonModel::Str(v)),
            None => None,
        }),
        entry_json(e).member("resolved"@) == Some(JsonModel::Str(e.resolved)),
        entry_json(e).member("integrity"@) == Some(JsonModel::Str(e.integrity)),
        entry_json(e).member("dependsOn"@) == (if e.depends_on.len() > 0 {
            Some(json::texts_model(e.depends_on))
        } else {
            None
        }),
{
    reveal_strlit("version");
    reveal_strlit("resolved");
    reveal_strlit("integrity");
    reveal_strlit("dependsOn");
    let o = entry_json(e)->Object_0;
    assert("version"@[0] == 'v' && "resolved"@[0] == 'r' && "integrity"@[0] == 'i' && "dependsOn"@[0] == 'd');
    let k: int = if e.version is Some {
        1
    } else {
        0
    };
    assert(o[k] == ("resolved"@, JsonModel::Str(e.resolved)));
    assert(o[k + 1] == ("integrity"@, JsonModel::Str(e.integrity)));
    assert(e.version is Some ==> o[0] == ("version"@, JsonModel::Str(e.version->0)));
    assert(e.depends_on.len() > 0 ==> o[k + 2] == ("dependsOn"@, json::texts_model(e.depends_on)));
    lemma_lookup(o, "version"@);
    lemma_lookup(o, "resolved"@);
    lemma_lookup(o, "integrity"@);
    lemma_lookup(o, "dependsOn"@);
}

/// A Feature is pinned to what stands behind the last `@` of what it resolved to, and one of which nothing is
/// recorded is pinned to nothing.
pub proof fn law_a_feature_is_pinned_to_its_digest(
    lock: LockModel,
    id: Seq<char>,
    e: LockEntryModel,
    at: Seq<char>,
    digest: Seq<char>,
)
    requires
        strmap::sorted(lock.features),
        e.resolved == at + "@"@ + digest,
        !digest.contains('@'),
    ensures
        lock.with(id, e).digest_for(id) == Some(digest),
        lock.with(id, e).integrity_for(id) == Some(e.integrity),
        lock.entry(id) is None ==> lock.digest_for(id) is None && lock.integrity_for(id) is None,
{
    law_a_record_is_found_again(lock, id, e, id);
    reveal_strlit("@");
    let s = e.resolved;
    assert forall|j: int| at.len() + 1 <= j < s.len() implies s[j] != '@' by {
        assert(s[j] == digest[j - at.len() - 1]);
        assert(digest.contains(digest[j - at.len() - 1]));
    }
    text::lemma_last_end_is(s, '@', at.len() as int + 1);
    assert(s.subrange(at.len() as int + 1, s.len() as int) =~= digest);
}

} // verus!
