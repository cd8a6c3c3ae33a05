//! Mounts.

use vstd::prelude::*;

use crate::decode;
use crate::duplicate::Duplicate;
use crate::error::{AmError, AmErrorModel};
use crate::json::{Json, JsonModel};
use crate::text;

verus! {

/// A mount as it is written: a text in the `--mount` syntax, or an object.
#[derive(Debug, PartialEq)]
pub enum Mount {
    Str(String),
    Obj(MountObject),
}

#[derive(Debug, PartialEq)]
pub struct MountObject {
    pub source: Option<String>,
    pub target: String,
    pub kind: Option<String>,
    pub readonly: Option<bool>,
}

/// A mount reduced to the fields that matter, whichever shape it arrived in.
#[derive(Debug, PartialEq)]
pub struct NormalizedMount {
    pub source: Option<String>,
    pub target: String,
    pub kind: String,
    pub read_only: bool,
}

/// What a [`Mount`] stands for.
pub enum MountModel {
    Str(Seq<char>),
    Obj(MountObjectModel),
}

/// What a [`MountObject`] stands for.
pub struct MountObjectModel {
    pub source: Option<Seq<char>>,
    pub target: Seq<char>,
    pub kind: Option<Seq<char>>,
    pub readonly: Option<bool>,
}

/// What a [`NormalizedMount`] stands for.
pub struct NormalizedMountModel {
    pub source: Option<Seq<char>>,
    pub target: Seq<char>,
    pub kind: Seq<char>,
    pub read_only: bool,
}

impl DeepView for MountObject {
    type V = MountObjectModel;

    open spec fn deep_view(&self) -> MountObjectModel {
        MountObjectModel {
            source: self.source.deep_view(),
            target: self.target@,
            kind: self.kind.deep_view(),
            readonly: self.readonly,
        }
    }
}

impl DeepView for Mount {
    type V = MountModel;

    open spec fn deep_view(&self) -> MountModel {
        match self {
            Mount::Str(s) => MountModel::Str(s@),
            Mount::Obj(o) => MountModel::Obj(o.deep_view()),
        }
    }
}

impl DeepView for NormalizedMount {
    type V = NormalizedMountModel;

    open spec fn deep_view(&self) -> NormalizedMountModel {
        NormalizedMountModel {
            source: self.source.deep_view(),
            target: self.target@,
            kind: self.kind@,
            read_only: self.read_only,
        }
    }
}

impl Duplicate for NormalizedMount {
    fn duplicate(&self) -> (r: Self) {
        NormalizedMount {
            source: self.source.duplicate(),
            target: self.target.clone(),
            kind: self.kind.clone(),
            read_only: self.read_only,
        }
    }
}

// ----------------------------------------------------------------------------------------------
// Normalization
// ----------------------------------------------------------------------------------------------

/// What the parts of a text mount have said so far.
pub struct Fields {
    pub source: Option<Seq<char>>,
    pub target: Option<Seq<char>>,
    pub kind: Option<Seq<char>>,
    pub read_only: bool,
}

/// The effect of one `key=value` part.
pub open spec fn assigned(f: Fields, key: Seq<char>, value: Seq<char>) -> Fields {
    if key == "source"@ || key == "src"@ {
        Fields { source: Some(value), ..f }
    } else if key == "target"@ || key == "dst"@ || key == "destination"@ {
        Fields { target: Some(value), ..f }
    } else if key == "type"@ {
        Fields { kind: Some(value), ..f }
    } else if key == "readonly"@ || key == "ro"@ {
        Fields { read_only: value != "false"@, ..f }
    } else {
        f
    }
}

/// The effect of one comma-separated part: an assignment, or one of the bare flags `readonly`, `ro`.
pub open spec fn with_part(f: Fields, part: Seq<char>) -> Fields {
    let p = text::trimmed(part);
    match text::split_first(p, '=') {
        Some((k, v)) => assigned(f, text::trimmed(k), text::trimmed(v)),
        None => if p == "readonly"@ || p == "ro"@ {
            Fields { read_only: true, ..f }
        } else {
            f
        },
    }
}

/// What a sequence of parts says; the last one to name a field decides it.
pub open spec fn fields_of(parts: Seq<Seq<char>>) -> Fields
    decreases parts.len(),
{
    if parts.len() == 0 {
        Fields { source: None, target: None, kind: None, read_only: false }
    } else {
        with_part(fields_of(parts.drop_last()), parts.last())
    }
}

/// `kind`, or a bind mount where none is given.
pub open spec fn kind_or_bind(kind: Option<Seq<char>>) -> Seq<char> {
    match kind {
        Some(k) => k,
        None => "bind"@,
    }
}

pub open spec fn no_target_message(s: Seq<char>) -> Seq<char> {
    "mount '"@ + s + "' has no target — expected 'target=' (or 'dst='/'destination=')"@
}

/// A mount, normalized. Only a text mount that names no target has no normal form.
pub open spec fn normalized(m: MountModel) -> Result<NormalizedMountModel, AmErrorModel> {
    match m {
        MountModel::Obj(o) => Ok(
            NormalizedMountModel {
                source: o.source,
                target: o.target,
                kind: kind_or_bind(o.kind),
                read_only: o.readonly == Some(true),
            },
        ),
        MountModel::Str(s) => {
            let f = fields_of(text::split_at(s, ','));
            match f.target {
                Some(target) => Ok(
                    NormalizedMountModel {
                        source: f.source,
                        target,
                        kind: kind_or_bind(f.kind),
                        read_only: f.read_only,
                    },
                ),
                None => Err(AmErrorModel::ConfigError(no_target_message(s))),
            }
        },
    }
}

impl Mount {
    /// Reduces either shape to a [`NormalizedMount`].
    pub fn normalize(&self) -> (r: Result<NormalizedMount, AmError>)
        ensures
            crate::error::outcome(r) == normalized(self.deep_view()),
    {
        match self {
            Mount::Obj(o) => Ok(
                NormalizedMount {
                    source: o.source.duplicate(),
                    target: o.target.clone(),
                    kind: match &o.kind {
                        Some(k) => k.clone(),
                        None => "bind".to_owned(),
                    },
                    read_only: match o.readonly {
                        Some(b) => b,
                        None => false,
                    },
                },
            ),
            Mount::Str(s) => {
                let parts = text::split(s.as_str(), ',');
                let ghost all = parts.deep_view();
                let mut source: Option<String> = None;
                let mut target: Option<String> = None;
                let mut kind: Option<String> = None;
                let mut read_only: bool = false;
                let mut i: usize = 0;
                while i < parts.len()
                    invariant
                        all == parts.deep_view(),
                        i <= parts.len(),
                        (Fields {
                            source: source.deep_view(),
                            target: target.deep_view(),
                            kind: kind.deep_view(),
                            read_only,
                        }) == fields_of(all.subrange(0, i as int)),
                    decreases parts.len() - i,
                {
                    assert(all.subrange(0, i + 1).drop_last() =~= all.subrange(0, i as int));
                    assert(all[i as int] == parts@[i as int]@);
                    let part = text::trim(parts[i].as_str());
                    match text::split_once(part, '=') {
                        Some((k, v)) => {
                            let key = text::trim(k);
                            let value = text::trim(v);
                            if text::eq(key, "source") || text::eq(key, "src") {
                                source = Some(value.to_owned());
                            } else if text::eq(key, "target") || text::eq(key, "dst") || text::eq(
                                key,
                                "destination",
                            ) {
                                target = Some(value.to_owned());
                            } else if text::eq(key, "type") {
                                kind = Some(value.to_owned());
                            } else if text::eq(key, "readonly") || text::eq(key, "ro") {
                                read_only = !text::eq(value, "false");
                            }
                        },
                        None => {
                            if text::eq(part, "readonly") || text::eq(part, "ro") {
                                read_only = true;
                            }
                        },
                    }
                    i = i + 1;
                }
                assert(all.subrange(0, all.len() as int) =~= all);
                match target {
                    Some(target) => Ok(
                        NormalizedMount {
                            source,
                            target,
                            kind: match kind {
                                Some(k) => k,
                                None => "bind".to_owned(),
                            },
                            read_only,
                        },
                    ),
                    None => Err(
                        AmError::ConfigError(
                            text::cat3(
                                "mount '",
                                s.as_str(),
                                "' has no target — expected 'target=' (or 'dst='/'destination=')",
                            ),
                        ),
                    ),
                }
            },
        }
    }
}

// ----------------------------------------------------------------------------------------------
// Reading mounts from JSON
// ----------------------------------------------------------------------------------------------

/// The member that goes by one of two names; none where both are there.
pub open spec fn either(j: JsonModel, a: Seq<char>, b: Seq<char>) -> Option<Option<JsonModel>> {
    match (j.member(a), j.member(b)) {
        (Some(_), Some(_)) => None,
        (Some(v), None) => Some(Some(v)),
        (None, v) => Some(v),
    }
}

/// The fields of a mount.
pub open spec fn mount_fields() -> Seq<Seq<char>> {
    seq!["source"@, "target"@, "type"@, "readonly"@]
}

/// A mount as JSON spells it. The object form takes the same aliases as the text form.
pub open spec fn mount_of(j: JsonModel) -> Option<MountModel> {
    let j = decode::named(j, mount_fields(), 2);
    match j {
        JsonModel::Str(s) => Some(MountModel::Str(s)),
        JsonModel::Object(_) => {
            let t = either(j, "target"@, "dst"@);
            match (either(j, "source"@, "src"@), t, either(j, "readonly"@, "ro"@)) {
                (Some(source), Some(t), Some(readonly)) => {
                    let d = j.member("destination"@);
                    let target = if t is Some && d is Some {
                        None
                    } else if t is Some {
                        t
                    } else {
                        d
                    };
                    match (
                        decode::opt_text_of(source),
                        target,
                        decode::opt_text_of(j.member("type"@)),
                        decode::opt_bool_of(readonly),
                    ) {
                        (Some(source), Some(JsonModel::Str(target)), Some(kind), Some(readonly)) => Some(
                            MountModel::Obj(MountObjectModel { source, target, kind, readonly }),
                        ),
                        _ => None,
                    }
                },
                _ => None,
            }
        },
        _ => None,
    }
}

/// The mounts of a JSON array.
pub open spec fn mount_list(a: Seq<JsonModel>) -> Option<Seq<MountModel>> {
    if forall|i: int| 0 <= i < a.len() ==> mount_of(#[trigger] a[i]) is Some {
        Some(a.map_values(|j: JsonModel| mount_of(j)->0))
    } else {
        None
    }
}

/// A list of mounts, empty where absent.
pub open spec fn mounts_of(j: Option<JsonModel>) -> Option<Seq<MountModel>> {
    match j {
        None => Some(Seq::empty()),
        Some(JsonModel::Array(a)) => mount_list(a),
        _ => None,
    }
}

fn read_either<'a>(j: &'a Json, a: &str, b: &str) -> (r: Option<Option<&'a Json>>)
    ensures
        r is Some == either(j@, a@, b@) is Some,
        r matches Some(v) ==> either(j@, a@, b@) == Some(v.deep_view()),
{
    match (j.get(a), j.get(b)) {
        (Some(_), Some(_)) => None,
        (Some(v), None) => Some(Some(v)),
        (None, v) => Some(v),
    }
}

/// Reads one mount.
pub fn read_mount(j: &Json) -> (r: Option<Mount>)
    ensures
        r.deep_view() == mount_of(j@),
{
    broadcast use crate::json::lemma_object_view;

    let names: Vec<&str> = vec!["source", "target", "type", "readonly"];
    assert(names.deep_view() =~= mount_fields());
    let held = decode::by_position(j, &names, 2);
    let j: &Json = match &held {
        Some(o) => o,
        None => j,
    };
    match j {
        Json::Str(s) => Some(Mount::Str(s.clone())),
        Json::Object(_) => {
            let source = match read_either(j, "source", "src") {
                Some(v) => v,
                None => {
                    return None;
                },
            };
            let t = match read_either(j, "target", "dst") {
                Some(v) => v,
                None => {
                    return None;
                },
            };
            let readonly = match read_either(j, "readonly", "ro") {
                Some(v) => v,
                None => {
                    return None;
                },
            };
            let d = j.get("destination");
            let target = match (t, d) {
                (Some(_), Some(_)) => None,
                (Some(v), None) => Some(v),
                (None, v) => v,
            };
            match (
                decode::opt_text(source),
                target,
                decode::opt_text(j.get("type")),
                decode::opt_bool(readonly),
            ) {
                (Some(source), Some(Json::Str(target)), Some(kind), Some(readonly)) => Some(
                    Mount::Obj(MountObject { source, target: target.clone(), kind, readonly }),
                ),
                _ => None,
            }
        },
        _ => None,
    }
}

/// Reads a list of mounts.
pub fn read_mounts(j: Option<&Json>) -> (r: Option<Vec<Mount>>)
    ensures
        r.deep_view() == mounts_of(j.deep_view()),
{
    broadcast use crate::json::lemma_object_view;

    let mut out: Vec<Mount> = Vec::new();
    match j {
        None => {
            assert(out.deep_view() =~= Seq::<MountModel>::empty());
            Some(out)
        },
        Some(Json::Array(a)) => {
            let ghost m = crate::json::elements_model(a@);
            let mut i: usize = 0;
            while i < a.len()
                invariant
                    j.deep_view() == Some(JsonModel::Array(m)),
                    m == crate::json::elements_model(a@),
                    i <= a.len(),
                    out.len() == i,
                    forall|k: int|
                        0 <= k < i ==> mount_of(#[trigger] m[k]) == Some(out@[k].deep_view()),
                decreases a.len() - i,
            {
                assert(m[i as int] == a@[i as int]@);
                match read_mount(&a[i]) {
                    Some(v) => {
                        out.push(v);
                    },
                    None => {
                        return None;
                    },
                }
                i = i + 1;
            }
            assert(out.deep_view() =~= m.map_values(|j: JsonModel| mount_of(j)->0));
            Some(out)
        },
        _ => None,
    }
}

// ----------------------------------------------------------------------------------------------
// What a mount says
// ----------------------------------------------------------------------------------------------

/// Whether a part of a mount text assigns a value to one of these names.
pub open spec fn assigns(part: Seq<char>, names: Seq<Seq<char>>, value: Seq<char>) -> bool {
    text::split_first(text::trimmed(part), '=') matches Some((k, v)) && names.contains(text::trimmed(k))
        && text::trimmed(v) == value
}

/// Whether a part of a mount text assigns anything to one of these names.
pub open spec fn mentions(part: Seq<char>, names: Seq<Seq<char>>) -> bool {
    text::split_first(text::trimmed(part), '=') matches Some((k, _)) && names.contains(text::trimmed(k))
}

/// Whether a part of a mount text says whether the mount is read-only.
pub open spec fn about_mode(part: Seq<char>) -> bool {
    mentions(part, seq!["readonly"@, "ro"@]) || text::trimmed(part) == "readonly"@ || text::trimmed(part) == "ro"@
}

/// In a mount text the last part to name a field decides it, under any of the field's names. Without a
/// type it is a bind mount, and without a target it is none at all. It is read-only where the last part
/// about that says so: a bare flag, or any value but `false`.
pub proof fn law_the_last_part_decides(s: Seq<char>, i: int, value: Seq<char>)
    requires
        0 <= i < text::split_at(s, ',').len(),
    ensures
        ({
            let parts = text::split_at(s, ',');
            let sources = seq!["source"@, "src"@];
            let targets = seq!["target"@, "dst"@, "destination"@];
            let kinds = seq!["type"@];
            let modes = seq!["readonly"@, "ro"@];
            let n = normalized(MountModel::Str(s));
            &&& (n is Ok <==> exists|k: int| 0 <= k < parts.len() && mentions(#[trigger] parts[k], targets))
            &&& n is Ok && assigns(parts[i], sources, value) && (forall|k: int|
                i < k < parts.len() ==> !mentions(#[trigger] parts[k], sources)) ==> n->Ok_0.source == Some(value)
            &&& n is Ok && (forall|k: int| 0 <= k < parts.len() ==> !mentions(#[trigger] parts[k], sources))
                ==> n->Ok_0.source is None
            &&& assigns(parts[i], targets, value) && (forall|k: int|
                i < k < parts.len() ==> !mentions(#[trigger] parts[k], targets)) ==> n is Ok && n->Ok_0.target == value
            &&& n is Ok && assigns(parts[i], kinds, value) && (forall|k: int|
                i < k < parts.len() ==> !mentions(#[trigger] parts[k], kinds)) ==> n->Ok_0.kind == value
            &&& n is Ok && (forall|k: int| 0 <= k < parts.len() ==> !mentions(#[trigger] parts[k], kinds))
                ==> n->Ok_0.kind == "bind"@
            &&& n is Ok && about_mode(parts[i]) && (forall|k: int|
                i < k < parts.len() ==> !about_mode(#[trigger] parts[k])) ==> (n->Ok_0.read_only <==> !assigns(
                parts[i],
                modes,
                "false"@,
            ))
            &&& n is Ok && (forall|k: int| 0 <= k < parts.len() ==> !about_mode(#[trigger] parts[k]))
                ==> !n->Ok_0.read_only
        }),
{
    lemma_fields(text::split_at(s, ','), i, value);
}

proof fn lemma_names()
    ensures
        seq!["source"@, "src"@].contains("source"@) && seq!["source"@, "src"@].contains("src"@),
        forall|k: Seq<char>| seq!["source"@, "src"@].contains(k) <==> k == "source"@ || k == "src"@,
        forall|k: Seq<char>|
            seq!["target"@, "dst"@, "destination"@].contains(k) <==> k == "target"@ || k == "dst"@ || k
                == "destination"@,
        forall|k: Seq<char>| seq!["type"@].contains(k) <==> k == "type"@,
        forall|k: Seq<char>| seq!["readonly"@, "ro"@].contains(k) <==> k == "readonly"@ || k == "ro"@,
        "source"@ != "target"@ && "source"@ != "dst"@ && "source"@ != "destination"@ && "source"@ != "type"@
            && "source"@ != "readonly"@ && "source"@ != "ro"@,
        "src"@ != "target"@ && "src"@ != "dst"@ && "src"@ != "destination"@ && "src"@ != "type"@ && "src"@
            != "readonly"@ && "src"@ != "ro"@,
        "target"@ != "type"@ && "target"@ != "readonly"@ && "target"@ != "ro"@,
        "dst"@ != "type"@ && "dst"@ != "readonly"@ && "dst"@ != "ro"@,
        "destination"@ != "type"@ && "destination"@ != "readonly"@ && "destination"@ != "ro"@,
        "type"@ != "readonly"@ && "type"@ != "ro"@,
{
    reveal_strlit("source");
    reveal_strlit("src");
    reveal_strlit("target");
    reveal_strlit("dst");
    reveal_strlit("destination");
    reveal_strlit("type");
    reveal_strlit("readonly");
    reveal_strlit("ro");
    assert("source"@.len() == 6 && "src"@.len() == 3 && "target"@.len() == 6 && "dst"@.len() == 3);
    assert("destination"@.len() == 11 && "type"@.len() == 4 && "readonly"@.len() == 8 && "ro"@.len() == 2);
    assert("source"@[0] == 's' && "target"@[0] == 't' && "src"@[0] == 's' && "dst"@[0] == 'd');
    let a = seq!["source"@, "src"@];
    assert(a[0] == "source"@ && a[1] == "src"@);
    let b = seq!["target"@, "dst"@, "destination"@];
    assert(b[0] == "target"@ && b[1] == "dst"@ && b[2] == "destination"@);
    let c = seq!["type"@];
    assert(c[0] == "type"@);
    let d = seq!["readonly"@, "ro"@];
    assert(d[0] == "readonly"@ && d[1] == "ro"@);
}

proof fn lemma_fields(parts: Seq<Seq<char>>, i: int, value: Seq<char>)
    ensures
        ({
            let sources = seq!["source"@, "src"@];
            let targets = seq!["target"@, "dst"@, "destination"@];
            let kinds = seq!["type"@];
            let modes = seq!["readonly"@, "ro"@];
            let f = fields_of(parts);
            &&& (f.target is Some <==> exists|k: int| 0 <= k < parts.len() && mentions(#[trigger] parts[k], targets))
            &&& 0 <= i < parts.len() && assigns(parts[i], sources, value) && (forall|k: int|
                i < k < parts.len() ==> !mentions(#[trigger] parts[k], sources)) ==> f.source == Some(value)
            &&& (forall|k: int| 0 <= k < parts.len() ==> !mentions(#[trigger] parts[k], sources)) ==> f.source is None
            &&& 0 <= i < parts.len() && assigns(parts[i], targets, value) && (forall|k: int|
                i < k < parts.len() ==> !mentions(#[trigger] parts[k], targets)) ==> f.target == Some(value)
            &&& 0 <= i < parts.len() && assigns(parts[i], kinds, value) && (forall|k: int|
                i < k < parts.len() ==> !mentions(#[trigger] parts[k], kinds)) ==> f.kind == Some(value)
            &&& (forall|k: int| 0 <= k < parts.len() ==> !mentions(#[trigger] parts[k], kinds)) ==> f.kind is None
            &&& 0 <= i < parts.len() && about_mode(parts[i]) && (forall|k: int|
                i < k < parts.len() ==> !about_mode(#[trigger] parts[k])) ==> (f.read_only <==> !assigns(
                parts[i],
                modes,
                "false"@,
            ))
            &&& (forall|k: int| 0 <= k < parts.len() ==> !about_mode(#[trigger] parts[k])) ==> !f.read_only
        }),
    decreases parts.len(),
{
    lemma_names();
    if parts.len() > 0 {
        let front = parts.drop_last();
        let last = parts.len() - 1;
        lemma_fields(front, i, value);
        assert(parts[last] == parts.last());
        assert(forall|k: int| 0 <= k < front.len() ==> #[trigger] parts[k] == front[k]);
        assert(forall|k: int| 0 <= k < front.len() ==> #[trigger] front[k] == parts[k]);
        let targets = seq!["target"@, "dst"@, "destination"@];
        if mentions(parts.last(), targets) {
            assert(mentions(parts[last], targets));
        } else if exists|k: int| 0 <= k < parts.len() && mentions(#[trigger] parts[k], targets) {
            let k = choose|k: int| 0 <= k < parts.len() && mentions(#[trigger] parts[k], targets);
            assert(mentions(front[k], targets));
        }
        if exists|k: int| 0 <= k < front.len() && mentions(#[trigger] front[k], targets) {
            let k = choose|k: int| 0 <= k < front.len() && mentions(#[trigger] front[k], targets);
            assert(mentions(parts[k], targets));
        }
        lemma_bare(parts.last());
    }
}

proof fn lemma_bare(part: Seq<char>)
    ensures
        text::trimmed(part) == "readonly"@ || text::trimmed(part) == "ro"@ ==> text::split_first(
            text::trimmed(part),
            '=',
        ) is None,
{
    reveal_strlit("readonly");
    reveal_strlit("ro");
    text::lemma_position(text::trimmed(part), '=');
}

/// A mount given as an object keeps its source and its target. It is a bind mount unless it says
/// otherwise, and read-only where it says so.
pub proof fn law_an_object_mount_is_kept(o: MountObjectModel)
    ensures
        ({
            let n = normalized(MountModel::Obj(o));
            &&& n is Ok
            &&& n->Ok_0.source == o.source
            &&& n->Ok_0.target == o.target
            &&& o.kind matches Some(k) ==> n->Ok_0.kind == k
            &&& o.kind is None ==> n->Ok_0.kind == "bind"@
            &&& n->Ok_0.read_only <==> o.readonly == Some(true)
        }),
{
}

} // verus!
