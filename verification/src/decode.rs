//! Reading typed values out of JSON documents.
//!
//! Each reader yields `None` where the document holds a value of another type than the one asked
//! for. A member that is absent is not a mismatch. A record may also be spelled as an array, its values
//! in the order of its fields.

use vstd::prelude::*;

use crate::json::{Json, JsonModel};
use crate::strmap::{self, StrMap};

verus! {

/// A record with its values under the names of its fields: an array of at least the `needed` first ones
/// is read by position.
pub open spec fn named(j: JsonModel, names: Seq<Seq<char>>, needed: nat) -> JsonModel {
    match j {
        JsonModel::Array(a) => if needed <= a.len() <= names.len() {
            JsonModel::Object(Seq::new(a.len(), |i: int| (names[i], a[i])))
        } else {
            j
        },
        _ => j,
    }
}

/// Puts the values of an array under the names of the fields; nothing where `j` is not to be read so.
pub fn by_position(j: &Json, names: &Vec<&str>, needed: usize) -> (r: Option<Json>)
    ensures
        named(j@, names.deep_view(), needed as nat) == (match r {
            Some(o) => o@,
            None => j@,
        }),
{
    broadcast use crate::json::lemma_object_view;

    match j {
        Json::Array(a) => {
            if a.len() < needed || names.len() < a.len() {
                return None;
            }
            let ghost m = crate::json::elements_model(a@);
            let ghost all = Seq::new(m.len(), |i: int| (names.deep_view()[i], m[i]));
            let mut o: Vec<(String, Json)> = Vec::new();
            let mut i: usize = 0;
            assert(crate::json::members_model(o@) =~= all.subrange(0, 0));
            while i < a.len()
                invariant
                    m == crate::json::elements_model(a@),
                    all == Seq::new(m.len(), |i: int| (names.deep_view()[i], m[i])),
                    a.len() <= names.len(),
                    i <= a.len(),
                    crate::json::members_model(o@) == all.subrange(0, i as int),
                decreases a.len() - i,
            {
                assert(m[i as int] == a@[i as int]@);
                assert(names.deep_view()[i as int] == names@[i as int]@);
                crate::json::push_member(&mut o, names[i], a[i].copy());
                assert(all.subrange(0, i + 1) =~= all.subrange(0, i as int).push(all[i as int]));
                i = i + 1;
            }
            assert(all.subrange(0, all.len() as int) =~= all);
            Some(Json::Object(o))
        },
        _ => None,
    }
}

/// The texts of an array, where every element is a text.
pub open spec fn text_list(a: Seq<JsonModel>) -> Option<Seq<Seq<char>>> {
    if forall|i: int| 0 <= i < a.len() ==> (#[trigger] a[i]) is Str {
        Some(a.map_values(|j: JsonModel| j->Str_0))
    } else {
        None
    }
}

/// An optional text.
pub open spec fn opt_text_of(j: Option<JsonModel>) -> Option<Option<Seq<char>>> {
    match j {
        None => Some(None),
        Some(JsonModel::Null) => Some(None),
        Some(JsonModel::Str(s)) => Some(Some(s)),
        _ => None,
    }
}

/// An optional flag.
pub open spec fn opt_bool_of(j: Option<JsonModel>) -> Option<Option<bool>> {
    match j {
        None => Some(None),
        Some(JsonModel::Null) => Some(None),
        Some(JsonModel::Bool(b)) => Some(Some(b)),
        _ => None,
    }
}

/// A list of texts, empty where absent.
pub open spec fn texts_of(j: Option<JsonModel>) -> Option<Seq<Seq<char>>> {
    match j {
        None => Some(Seq::empty()),
        Some(JsonModel::Array(a)) => text_list(a),
        _ => None,
    }
}

/// A list of arbitrary values, empty where absent.
pub open spec fn values_of(j: Option<JsonModel>) -> Option<Seq<JsonModel>> {
    match j {
        None => Some(Seq::empty()),
        Some(JsonModel::Array(a)) => Some(a),
        _ => None,
    }
}

/// Members collected into a map; a later member replaces an earlier one of the same name.
pub open spec fn collected<V>(o: Seq<(Seq<char>, V)>) -> Seq<(Seq<char>, V)>
    decreases o.len(),
{
    if o.len() == 0 {
        Seq::empty()
    } else {
        crate::strmap::insert(collected(o.drop_last()), o.last().0, o.last().1)
    }
}

/// The members of an object whose values are all texts.
pub open spec fn text_members(o: Seq<(Seq<char>, JsonModel)>) -> Option<Seq<(Seq<char>, Seq<char>)>> {
    if forall|i: int| 0 <= i < o.len() ==> (#[trigger] o[i]).1 is Str {
        Some(o.map_values(|m: (Seq<char>, JsonModel)| (m.0, m.1->Str_0)))
    } else {
        None
    }
}

/// The text an optional-text member holds.
pub open spec fn nullable(j: JsonModel) -> Option<Seq<char>> {
    match j {
        JsonModel::Str(s) => Some(s),
        _ => None,
    }
}

/// The members of an object whose values are all texts or null.
pub open spec fn nullable_members(o: Seq<(Seq<char>, JsonModel)>) -> Option<
    Seq<(Seq<char>, Option<Seq<char>>)>,
> {
    if forall|i: int| 0 <= i < o.len() ==> ((#[trigger] o[i]).1 is Str || o[i].1 is Null) {
        Some(o.map_values(|m: (Seq<char>, JsonModel)| (m.0, nullable(m.1))))
    } else {
        None
    }
}

/// A map of texts, empty where absent.
pub open spec fn text_map_of(j: Option<JsonModel>) -> Option<Seq<(Seq<char>, Seq<char>)>> {
    match j {
        None => Some(Seq::empty()),
        Some(JsonModel::Object(o)) => match text_members(o) {
            Some(m) => Some(collected(m)),
            None => None,
        },
        _ => None,
    }
}

/// A map of texts and nulls, empty where absent.
pub open spec fn nullable_map_of(j: Option<JsonModel>) -> Option<Seq<(Seq<char>, Option<Seq<char>>)>> {
    match j {
        None => Some(Seq::empty()),
        Some(JsonModel::Object(o)) => match nullable_members(o) {
            Some(m) => Some(collected(m)),
            None => None,
        },
        _ => None,
    }
}

/// A map of arbitrary values, empty where absent.
pub open spec fn value_map_of(j: Option<JsonModel>) -> Option<Seq<(Seq<char>, JsonModel)>> {
    match j {
        None => Some(Seq::empty()),
        Some(JsonModel::Object(o)) => Some(collected(o)),
        _ => None,
    }
}

pub fn opt_text(j: Option<&Json>) -> (r: Option<Option<String>>)
    ensures
        r.deep_view() == opt_text_of(j.deep_view()),
{
    match j {
        None => Some(None),
        Some(Json::Null) => Some(None),
        Some(Json::Str(s)) => Some(Some(s.clone())),
        _ => None,
    }
}

pub fn opt_bool(j: Option<&Json>) -> (r: Option<Option<bool>>)
    ensures
        r == opt_bool_of(j.deep_view()),
{
    match j {
        None => Some(None),
        Some(Json::Null) => Some(None),
        Some(Json::Bool(b)) => Some(Some(*b)),
        _ => None,
    }
}

pub fn text_array(a: &Vec<Json>) -> (r: Option<Vec<String>>)
    ensures
        r.deep_view() == text_list(crate::json::elements_model(a@)),
{
    let ghost m = crate::json::elements_model(a@);
    let mut out: Vec<String> = Vec::new();
    let mut i: usize = 0;
    while i < a.len()
        invariant
            m == crate::json::elements_model(a@),
            i <= a.len(),
            out.len() == i,
            forall|k: int| 0 <= k < i ==> (#[trigger] m[k]) is Str && out@[k]@ == m[k]->Str_0,
        decreases a.len() - i,
    {
        assert(m[i as int] == a@[i as int]@);
        match &a[i] {
            Json::Str(s) => {
                out.push(s.clone());
            },
            _ => {
                return None;
            },
        }
        i = i + 1;
    }
    assert(out.deep_view() =~= m.map_values(|j: JsonModel| j->Str_0));
    Some(out)
}

pub fn texts(j: Option<&Json>) -> (r: Option<Vec<String>>)
    ensures
        r.deep_view() == texts_of(j.deep_view()),
{
    broadcast use crate::json::lemma_object_view;

    match j {
        None => {
            let v: Vec<String> = Vec::new();
            assert(v.deep_view() =~= Seq::<Seq<char>>::empty());
            Some(v)
        },
        Some(Json::Array(a)) => text_array(a),
        _ => None,
    }
}

pub fn values(j: Option<&Json>) -> (r: Option<Vec<Json>>)
    ensures
        r.deep_view() == values_of(j.deep_view()),
{
    broadcast use crate::json::lemma_object_view;

    match j {
        None => {
            let v: Vec<Json> = Vec::new();
            assert(v.deep_view() =~= Seq::<JsonModel>::empty());
            Some(v)
        },
        Some(Json::Array(a)) => {
            let v = crate::duplicate::Duplicate::duplicate(a);
            assert(v.deep_view() =~= crate::json::elements_model(a@));
            Some(v)
        },
        _ => None,
    }
}

pub fn text_map(j: Option<&Json>) -> (r: Option<StrMap<String>>)
    ensures
        r.deep_view() == text_map_of(j.deep_view()),
{
    broadcast use crate::json::lemma_object_view;

    let mut out: StrMap<String> = StrMap::new();
    match j {
        None => Some(out),
        Some(Json::Object(o)) => {
            let ghost m = crate::json::members_model(o@);
            let ghost t = m.map_values(|e: (Seq<char>, JsonModel)| (e.0, e.1->Str_0));
            let mut i: usize = 0;
            assert(t.subrange(0, 0) =~= Seq::empty());
            while i < o.len()
                invariant
                    j.deep_view() == Some(JsonModel::Object(m)),
                    m == crate::json::members_model(o@),
                    t == m.map_values(|e: (Seq<char>, JsonModel)| (e.0, e.1->Str_0)),
                    i <= o.len(),
                    forall|k: int| 0 <= k < i ==> (#[trigger] m[k]).1 is Str,
                    out.deep_view() == collected(t.subrange(0, i as int)),
                decreases o.len() - i,
            {
                assert(m[i as int] == (o@[i as int].0@, o@[i as int].1@));
                match &o[i].1 {
                    Json::Str(s) => {
                        out.insert(o[i].0.clone(), s.clone());
                    },
                    _ => {
                        return None;
                    },
                }
                i = i + 1;
                assert(t.subrange(0, i as int).drop_last() =~= t.subrange(0, i - 1));
            }
            assert(t.subrange(0, t.len() as int) =~= t);
            Some(out)
        },
        _ => None,
    }
}

pub fn nullable_map(j: Option<&Json>) -> (r: Option<StrMap<Option<String>>>)
    ensures
        r.deep_view() == nullable_map_of(j.deep_view()),
{
    broadcast use crate::json::lemma_object_view;

    let mut out: StrMap<Option<String>> = StrMap::new();
    match j {
        None => Some(out),
        Some(Json::Object(o)) => {
            let ghost m = crate::json::members_model(o@);
            let ghost t = m.map_values(|e: (Seq<char>, JsonModel)| (e.0, nullable(e.1)));
            let mut i: usize = 0;
            assert(t.subrange(0, 0) =~= Seq::empty());
            while i < o.len()
                invariant
                    j.deep_view() == Some(JsonModel::Object(m)),
                    m == crate::json::members_model(o@),
                    t == m.map_values(|e: (Seq<char>, JsonModel)| (e.0, nullable(e.1))),
                    i <= o.len(),
                    forall|k: int| 0 <= k < i ==> ((#[trigger] m[k]).1 is Str || m[k].1 is Null),
                    out.deep_view() == collected(t.subrange(0, i as int)),
                decreases o.len() - i,
            {
                assert(m[i as int] == (o@[i as int].0@, o@[i as int].1@));
                match &o[i].1 {
                    Json::Str(s) => {
                        out.insert(o[i].0.clone(), Some(s.clone()));
                    },
                    Json::Null => {
                        out.insert(o[i].0.clone(), None);
                    },
                    _ => {
                        return None;
                    },
                }
                i = i + 1;
                assert(t.subrange(0, i as int).drop_last() =~= t.subrange(0, i - 1));
            }
            assert(t.subrange(0, t.len() as int) =~= t);
            Some(out)
        },
        _ => None,
    }
}

/// Collects the members of an object into a map.
pub fn object_map(o: &Vec<(String, Json)>) -> (r: StrMap<Json>)
    ensures
        r.deep_view() == collected(crate::json::members_model(o@)),
{
    let mut out: StrMap<Json> = StrMap::new();
    let ghost m = crate::json::members_model(o@);
    let mut i: usize = 0;
    assert(m.subrange(0, 0) =~= Seq::empty());
    while i < o.len()
        invariant
            m == crate::json::members_model(o@),
            i <= o.len(),
            out.deep_view() == collected(m.subrange(0, i as int)),
        decreases o.len() - i,
    {
        out.insert(o[i].0.clone(), o[i].1.copy());
        i = i + 1;
        assert(m.subrange(0, i as int).drop_last() =~= m.subrange(0, i - 1));
    }
    assert(m.subrange(0, m.len() as int) =~= m);
    out
}

pub fn value_map(j: Option<&Json>) -> (r: Option<StrMap<Json>>)
    ensures
        r.deep_view() == value_map_of(j.deep_view()),
{
    broadcast use crate::json::lemma_object_view;

    match j {
        None => Some(StrMap::new()),
        Some(Json::Object(o)) => Some(object_map(o)),
        _ => None,
    }
}

// ----------------------------------------------------------------------------------------------
// What was read
// ----------------------------------------------------------------------------------------------

/// Whether a text is the one that a member holds: none where the member is absent or null.
pub open spec fn spells_text(j: Option<JsonModel>, v: Option<Seq<char>>) -> bool {
    match (j, v) {
        (Some(JsonModel::Str(s)), Some(t)) => s == t,
        (None, None) => true,
        (Some(JsonModel::Null), None) => true,
        _ => false,
    }
}

/// Whether a flag is the one that a member holds: none where the member is absent or null.
pub open spec fn spells_flag(j: Option<JsonModel>, v: Option<bool>) -> bool {
    match (j, v) {
        (Some(JsonModel::Bool(b)), Some(c)) => b == c,
        (None, None) => true,
        (Some(JsonModel::Null), None) => true,
        _ => false,
    }
}

/// Whether texts are those that a member lists, in its order: none where the member is absent.
pub open spec fn spells_texts(j: Option<JsonModel>, v: Seq<Seq<char>>) -> bool {
    match j {
        Some(JsonModel::Array(a)) => a.len() == v.len() && forall|i: int|
            0 <= i < a.len() ==> #[trigger] a[i] == JsonModel::Str(v[i]),
        None => v.len() == 0,
        _ => false,
    }
}

/// Whether values are those that a member lists, in its order: none where the member is absent.
pub open spec fn spells_values(j: Option<JsonModel>, v: Seq<JsonModel>) -> bool {
    match j {
        Some(JsonModel::Array(a)) => a == v,
        None => v.len() == 0,
        _ => false,
    }
}

/// Whether no member after `k` shares its name.
pub open spec fn last_of_name<V>(o: Seq<(Seq<char>, V)>, k: int) -> bool {
    0 <= k < o.len() && forall|j: int| k < j < o.len() ==> (#[trigger] o[j]).0 != o[k].0
}

/// Whether a map holds exactly what the members of an object spell, the last of each name: nothing where
/// the member is absent. `reads` says which value a member's own value stands for.
pub open spec fn spells_map<V>(
    j: Option<JsonModel>,
    m: Seq<(Seq<char>, V)>,
    reads: spec_fn(JsonModel) -> Option<V>,
) -> bool {
    match j {
        Some(JsonModel::Object(o)) => {
            &&& forall|k: int|
                #![trigger o[k]]
                last_of_name(o, k) ==> reads(o[k].1) is Some && strmap::get(m, o[k].0) == reads(o[k].1)
            &&& forall|q: Seq<char>|
                (forall|k: int| 0 <= k < o.len() ==> (#[trigger] o[k]).0 != q) ==> #[trigger] strmap::get(m, q) is None
        },
        None => m.len() == 0,
        _ => false,
    }
}

/// What is found under each name of members that were collected.
pub proof fn lemma_collected<V>(o: Seq<(Seq<char>, V)>, q: Seq<char>)
    ensures
        strmap::sorted(collected(o)),
        forall|k: int|
            #![trigger o[k]]
            last_of_name(o, k) && o[k].0 == q ==> strmap::get(collected(o), q) == Some(o[k].1),
        (forall|k: int| 0 <= k < o.len() ==> (#[trigger] o[k]).0 != q) ==> strmap::get(collected(o), q) is None,
    decreases o.len(),
{
    if o.len() > 0 {
        let front = o.drop_last();
        let last = o.len() - 1;
        let c = collected(front);
        lemma_collected(front, q);
        strmap::lemma_insert_sorted(c, o.last().0, o.last().1);
        strmap::lemma_get_after_insert(c, o.last().0, o.last().1, q);
        assert(o[last] == o.last());
        assert forall|k: int|
            #![trigger o[k]]
            last_of_name(o, k) && o[k].0 == q implies strmap::get(collected(o), q) == Some(o[k].1) by {
            if k < last {
                assert(o[last].0 != o[k].0);
                assert(front[k] == o[k]);
                assert forall|j: int| k < j < front.len() implies (#[trigger] front[j]).0 != front[k].0 by {
                    assert(front[j] == o[j]);
                }
                assert(last_of_name(front, k));
            }
        }
        if forall|k: int| 0 <= k < o.len() ==> (#[trigger] o[k]).0 != q {
            assert(o[last].0 != q);
            assert forall|k: int| 0 <= k < front.len() implies (#[trigger] front[k]).0 != q by {
                assert(front[k] == o[k]);
            }
        }
    }
}

/// Members that were collected are what their own values stand for.
pub proof fn lemma_spells_map<V>(o: Seq<(Seq<char>, JsonModel)>, p: Seq<(Seq<char>, V)>, reads: spec_fn(JsonModel) -> Option<V>)
    requires
        o.len() == p.len(),
        forall|k: int| 0 <= k < o.len() ==> (#[trigger] p[k]).0 == o[k].0 && reads(o[k].1) == Some(p[k].1),
    ensures
        spells_map(Some(JsonModel::Object(o)), collected(p), reads),
{
    let m = collected(p);
    assert forall|k: int| #![trigger o[k]] last_of_name(o, k) implies reads(o[k].1) is Some && strmap::get(m, o[k].0)
        == reads(o[k].1) by {
        assert(p[k].0 == o[k].0);
        assert forall|j: int| k < j < p.len() implies (#[trigger] p[j]).0 != p[k].0 by {
            assert(o[j].0 != o[k].0);
        }
        assert(last_of_name(p, k));
        lemma_collected(p, o[k].0);
    }
    assert forall|q: Seq<char>|
        (forall|k: int| 0 <= k < o.len() ==> (#[trigger] o[k]).0 != q) implies #[trigger] strmap::get(m, q) is None by {
        assert forall|k: int| 0 <= k < p.len() implies (#[trigger] p[k]).0 != q by {
            assert(o[k].0 != q);
        }
        lemma_collected(p, q);
    }
}

/// Every reader that succeeds has read what is there. A text and a flag are those of their member, a list
/// is the list of its texts in order, and a map holds the last value under each name and nothing else.
pub proof fn law_what_is_read_is_what_is_there(j: Option<JsonModel>)
    ensures
        opt_text_of(j) matches Some(v) ==> spells_text(j, v),
        opt_bool_of(j) matches Some(v) ==> spells_flag(j, v),
        texts_of(j) matches Some(v) ==> spells_texts(j, v),
        values_of(j) matches Some(v) ==> spells_values(j, v),
        text_map_of(j) matches Some(m) ==> spells_map(j, m, |v: JsonModel| v.text()),
        nullable_map_of(j) matches Some(m) ==> spells_map(
            j,
            m,
            |v: JsonModel|
                match v {
                    JsonModel::Str(s) => Some(Some(s)),
                    JsonModel::Null => Some(None),
                    _ => None,
                },
        ),
        value_map_of(j) matches Some(m) ==> spells_map(j, m, |v: JsonModel| Some(v)),
{
    match j {
        Some(JsonModel::Object(o)) => {
            match text_members(o) {
                Some(p) => {
                    lemma_spells_map(o, p, |v: JsonModel| v.text());
                },
                None => {},
            }
            match nullable_members(o) {
                Some(p) => {
                    lemma_spells_map(
                        o,
                        p,
                        |v: JsonModel|
                            match v {
                                JsonModel::Str(s) => Some(Some(s)),
                                JsonModel::Null => Some(None),
                                _ => None,
                            },
                    );
                },
                None => {},
            }
            lemma_spells_map(o, o, |v: JsonModel| Some(v));
        },
        Some(JsonModel::Array(a)) => {
            match text_list(a) {
                Some(v) => {
                    assert forall|i: int| 0 <= i < a.len() implies #[trigger] a[i] == JsonModel::Str(v[i]) by {
                        assert(a[i] is Str);
                    }
                },
                None => {},
            }
        },
        _ => {},
    }
}

/// A member is refused only where it is of another type. One that is absent never is.
pub proof fn law_only_another_type_is_refused(j: Option<JsonModel>)
    ensures
        opt_text_of(j) is None <==> j is Some && !(j->0 is Str) && !(j->0 is Null),
        opt_bool_of(j) is None <==> j is Some && !(j->0 is Bool) && !(j->0 is Null),
        texts_of(j) is None <==> j is Some && !(j->0 is Array && forall|i: int|
            0 <= i < j->0->Array_0.len() ==> (#[trigger] j->0->Array_0[i]) is Str),
        values_of(j) is None <==> j is Some && !(j->0 is Array),
        text_map_of(j) is None <==> j is Some && !(j->0 is Object && forall|i: int|
            0 <= i < j->0->Object_0.len() ==> (#[trigger] j->0->Object_0[i]).1 is Str),
        value_map_of(j) is None <==> j is Some && !(j->0 is Object),
{
}

} // verus!
