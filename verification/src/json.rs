//! JSON documents.

use vstd::prelude::*;

use crate::text;

verus! {

/// A JSON value. An object keeps its members in the order they were written.
#[derive(Debug, PartialEq)]
pub enum Json {
    Null,
    Bool(bool),
    /// A number, as its text.
    Number(String),
    Str(String),
    Array(Vec<Json>),
    Object(Vec<(String, Json)>),
}

/// What a [`Json`] stands for.
pub enum JsonModel {
    Null,
    Bool(bool),
    Number(Seq<char>),
    Str(Seq<char>),
    Array(Seq<JsonModel>),
    Object(Seq<(Seq<char>, JsonModel)>),
}

impl Json {
    pub open spec fn view(&self) -> JsonModel
        decreases self,
    {
        match self {
            Json::Null => JsonModel::Null,
            Json::Bool(b) => JsonModel::Bool(*b),
            Json::Number(n) => JsonModel::Number(n@),
            Json::Str(s) => JsonModel::Str(s@),
            Json::Array(a) => JsonModel::Array(
                Seq::new(
                    a@.len(),
                    |i: int|
                        if 0 <= i < a@.len() {
                            a@[i].view()
                        } else {
                            arbitrary()
                        },
                ),
            ),
            Json::Object(o) => JsonModel::Object(
                Seq::new(
                    o@.len(),
                    |i: int|
                        if 0 <= i < o@.len() {
                            (o@[i].0@, o@[i].1.view())
                        } else {
                            arbitrary()
                        },
                ),
            ),
        }
    }
}

impl DeepView for Json {
    type V = JsonModel;

    open spec fn deep_view(&self) -> JsonModel {
        self@
    }
}

/// `serde_json::Value`.
#[verifier::external_type_specification]
#[verifier::external_body]
pub struct ExValue(serde_json::Value);

/// What a `serde_json::Value` holds.
pub uninterp spec fn value_model(v: serde_json::Value) -> JsonModel;

/// What `serde_json_lenient::from_str` reads from a text: the value, or the error's text.
pub uninterp spec fn lenient(s: Seq<char>) -> Result<JsonModel, Seq<char>>;

/// What `serde_json::from_str` reads from a text: the value, or the error's text.
pub uninterp spec fn strict(s: Seq<char>) -> Result<JsonModel, Seq<char>>;

/// What `serde_json::from_slice` reads from some bytes: the value, or the error's text.
pub uninterp spec fn strict_bytes(b: Seq<u8>) -> Result<JsonModel, Seq<char>>;

/// Moves a `serde_json::Value` over into a [`Json`] of the same shape, numbers as their text.
#[verifier::external_body]
fn from_value(v: serde_json::Value) -> (r: Json)
    ensures
        r@ == value_model(v),
{
    match v {
        serde_json::Value::Null => Json::Null,
        serde_json::Value::Bool(b) => Json::Bool(b),
        serde_json::Value::Number(n) => Json::Number(n.to_string()),
        serde_json::Value::String(s) => Json::Str(s),
        serde_json::Value::Array(a) => Json::Array(a.into_iter().map(from_value).collect()),
        serde_json::Value::Object(o) => {
            Json::Object(o.into_iter().map(|(k, v)| (k, from_value(v))).collect())
        },
    }
}

/// The text of an integer of 64 bits.
pub open spec fn integer_text(s: Seq<char>) -> bool {
    ||| exists|n: nat| n <= u64::MAX && s == #[trigger] text::decimal(n)
    ||| exists|n: nat| 0 < n <= 0x8000_0000_0000_0000 && s == "-"@ + #[trigger] text::decimal(n)
}

/// A value whose numbers are integers of 64 bits and whose members have names of their own, at most `depth`
/// levels deep.
pub open spec fn plain(j: JsonModel, depth: nat) -> bool
    decreases j,
{
    match j {
        JsonModel::Number(n) => integer_text(n),
        JsonModel::Array(a) => depth > 0 && (forall|i: int|
            0 <= i < a.len() ==> plain(#[trigger] a[i], (depth - 1) as nat)),
        JsonModel::Object(o) => {
            &&& depth > 0
            &&& forall|i: int| 0 <= i < o.len() ==> plain((#[trigger] o[i]).1, (depth - 1) as nat)
            &&& forall|i: int, k: int|
                0 <= i < k < o.len() ==> (#[trigger] o[i]).0 != (#[trigger] o[k]).0
        },
        _ => true,
    }
}

/// `serde_json_lenient::from_str` into a `serde_json::Value`, the error as its text. An array of plain
/// values, written on one line with spaces between them, is read back as it was, members in their order.
#[verifier::external_body]
fn lenient_value(s: &str) -> (r: Result<serde_json::Value, String>)
    ensures
        match r {
            Ok(v) => lenient(s@) == Ok::<JsonModel, Seq<char>>(value_model(v)),
            Err(e) => lenient(s@) == Err::<JsonModel, Seq<char>>(e@),
        },
        forall|a: Seq<JsonModel>|
            plain(JsonModel::Array(a), 64) && s@ == #[trigger] spaced(a) ==> r is Ok && value_model(r->Ok_0)
                == JsonModel::Array(a),
{
    serde_json_lenient::from_str(s).map_err(|e| e.to_string())
}

/// `serde_json::from_str` into a `serde_json::Value`, the error as its text. A plain value, written over
/// several lines and ended by a line feed, is read back as it was, members in their order.
#[verifier::external_body]
fn strict_value(s: &str) -> (r: Result<serde_json::Value, String>)
    ensures
        match r {
            Ok(v) => strict(s@) == Ok::<JsonModel, Seq<char>>(value_model(v)),
            Err(e) => strict(s@) == Err::<JsonModel, Seq<char>>(e@),
        },
        forall|j: JsonModel|
            plain(j, 64) && s@ == #[trigger] pretty(j, 0) + "\n"@ ==> r is Ok && value_model(r->Ok_0) == j,
{
    serde_json::from_str(s).map_err(|e| e.to_string())
}

/// `serde_json::from_slice` into a `serde_json::Value`, the error as its text.
#[verifier::external_body]
fn strict_bytes_value(b: &Vec<u8>) -> (r: Result<serde_json::Value, String>)
    ensures
        match r {
            Ok(v) => strict_bytes(b@) == Ok::<JsonModel, Seq<char>>(value_model(v)),
            Err(e) => strict_bytes(b@) == Err::<JsonModel, Seq<char>>(e@),
        },
{
    serde_json::from_slice(b).map_err(|e| e.to_string())
}

/// Reads JSON that may hold comments and trailing commas.
pub fn parse_lenient(s: &str) -> (r: Result<Json, String>)
    ensures
        match r {
            Ok(j) => lenient(s@) == Ok::<JsonModel, Seq<char>>(j@),
            Err(e) => lenient(s@) == Err::<JsonModel, Seq<char>>(e@),
        },
        forall|a: Seq<JsonModel>|
            plain(JsonModel::Array(a), 64) && s@ == #[trigger] spaced(a) ==> lenient(s@) == Ok::<
                JsonModel,
                Seq<char>,
            >(JsonModel::Array(a)),
{
    match lenient_value(s) {
        Ok(v) => Ok(from_value(v)),
        Err(e) => Err(e),
    }
}

/// Reads standard JSON.
pub fn parse_strict(s: &str) -> (r: Result<Json, String>)
    ensures
        match r {
            Ok(j) => strict(s@) == Ok::<JsonModel, Seq<char>>(j@),
            Err(e) => strict(s@) == Err::<JsonModel, Seq<char>>(e@),
        },
        forall|j: JsonModel|
            plain(j, 64) && s@ == #[trigger] pretty(j, 0) + "\n"@ ==> strict(s@) == Ok::<JsonModel, Seq<char>>(j),
{
    match strict_value(s) {
        Ok(v) => Ok(from_value(v)),
        Err(e) => Err(e),
    }
}

/// Reads standard JSON from bytes.
pub fn parse_strict_bytes(b: &Vec<u8>) -> (r: Result<Json, String>)
    ensures
        match r {
            Ok(j) => strict_bytes(b@) == Ok::<JsonModel, Seq<char>>(j@),
            Err(e) => strict_bytes(b@) == Err::<JsonModel, Seq<char>>(e@),
        },
{
    match strict_bytes_value(b) {
        Ok(v) => Ok(from_value(v)),
        Err(e) => Err(e),
    }
}

// ----------------------------------------------------------------------------------------------
// Reading members
// ----------------------------------------------------------------------------------------------

/// The value of the first member called `key`.
pub open spec fn lookup(members: Seq<(Seq<char>, JsonModel)>, key: Seq<char>) -> Option<JsonModel>
    decreases members.len(),
{
    if members.len() == 0 {
        None
    } else if members[0].0 == key {
        Some(members[0].1)
    } else {
        lookup(members.drop_first(), key)
    }
}

impl JsonModel {
    /// The member called `key`, where this is an object that has one.
    pub open spec fn member(self, key: Seq<char>) -> Option<JsonModel> {
        match self {
            JsonModel::Object(o) => lookup(o, key),
            _ => None,
        }
    }

    /// The text, where this is a string.
    pub open spec fn text(self) -> Option<Seq<char>> {
        match self {
            JsonModel::Str(s) => Some(s),
            _ => None,
        }
    }
}

/// The members of an object, as a model.
pub open spec fn members_model(o: Seq<(String, Json)>) -> Seq<(Seq<char>, JsonModel)> {
    Seq::new(o.len(), |i: int| (o[i].0@, o[i].1@))
}

/// The elements of an array, as a model.
pub open spec fn elements_model(a: Seq<Json>) -> Seq<JsonModel> {
    Seq::new(a.len(), |i: int| a[i]@)
}

pub broadcast proof fn lemma_object_view(j: Json)
    ensures
        (#[trigger] j@) matches JsonModel::Object(_) <==> j is Object,
        j matches Json::Object(o) ==> j@ == JsonModel::Object(members_model(o@)),
        j matches Json::Array(a) ==> j@ == JsonModel::Array(elements_model(a@)),
        j is Array <==> j@ is Array,
{
    match j {
        Json::Object(o) => {
            assert(j@->Object_0 =~= members_model(o@));
        },
        Json::Array(a) => {
            assert(j@->Array_0 =~= elements_model(a@));
        },
        _ => {},
    }
}

proof fn lemma_lookup_skip(members: Seq<(Seq<char>, JsonModel)>, key: Seq<char>, n: int)
    requires
        0 <= n <= members.len(),
        forall|i: int| 0 <= i < n ==> (#[trigger] members[i]).0 != key,
    ensures
        lookup(members, key) == lookup(members.subrange(n, members.len() as int), key),
    decreases n,
{
    if n == 0 {
        assert(members.subrange(0, members.len() as int) =~= members);
    } else {
        lemma_lookup_skip(members, key, n - 1);
        let rest = members.subrange(n - 1, members.len() as int);
        assert(rest[0] == members[n - 1]);
        assert(rest.drop_first() =~= members.subrange(n, members.len() as int));
    }
}

pub fn find_member<'a>(o: &'a Vec<(String, Json)>, key: &str) -> (r: Option<&'a Json>)
    ensures
        r.deep_view() == lookup(members_model(o@), key@),
{
    let ghost m = members_model(o@);
    let mut i: usize = 0;
    while i < o.len()
        invariant
            m == members_model(o@),
            i <= o.len(),
            forall|k: int| 0 <= k < i ==> (#[trigger] m[k]).0 != key@,
        decreases o.len() - i,
    {
        if text::eq(o[i].0.as_str(), key) {
            proof {
                lemma_lookup_skip(m, key@, i as int);
                assert(m.subrange(i as int, m.len() as int)[0] == m[i as int]);
            }
            return Some(&o[i].1);
        }
        i = i + 1;
    }
    proof {
        lemma_lookup_skip(m, key@, m.len() as int);
    }
    None
}

impl Json {
    /// The member called `key`, where this is an object that has one.
    pub fn get<'a>(&'a self, key: &str) -> (r: Option<&'a Json>)
        ensures
            r.deep_view() == self@.member(key@),
    {
        broadcast use lemma_object_view;

        match self {
            Json::Object(o) => find_member(o, key),
            _ => None,
        }
    }

    /// The text, where this is a string.
    pub fn as_str<'a>(&'a self) -> (r: Option<&'a str>)
        ensures
            r.deep_view() == self@.text(),
    {
        match self {
            Json::Str(s) => Some(s.as_str()),
            _ => None,
        }
    }

    pub fn is_null(&self) -> (r: bool)
        ensures
            r == (self@ is Null),
    {
        match self {
            Json::Null => true,
            _ => false,
        }
    }

    /// A copy.
    pub fn copy(&self) -> (r: Json)
        ensures
            r@ == self@,
        decreases self,
    {
        broadcast use lemma_object_view;

        match self {
            Json::Null => Json::Null,
            Json::Bool(b) => Json::Bool(*b),
            Json::Number(n) => Json::Number(n.clone()),
            Json::Str(s) => Json::Str(s.clone()),
            Json::Array(a) => {
                let mut out: Vec<Json> = Vec::new();
                let mut i: usize = 0;
                while i < a.len()
                    invariant
                        self matches Json::Array(b) && b == a,
                        i <= a.len(),
                        out.len() == i,
                        forall|k: int| 0 <= k < i ==> (#[trigger] out@[k])@ == a@[k]@,
                    decreases a.len() - i,
                {
                    let c = a[i].copy();
                    out.push(c);
                    i = i + 1;
                }
                assert(elements_model(out@) =~= elements_model(a@));
                Json::Array(out)
            },
            Json::Object(o) => {
                let mut out: Vec<(String, Json)> = Vec::new();
                let mut i: usize = 0;
                while i < o.len()
                    invariant
                        self matches Json::Object(b) && b == o,
                        i <= o.len(),
                        out.len() == i,
                        forall|k: int|
                            0 <= k < i ==> (#[trigger] out@[k]).0@ == o@[k].0@ && out@[k].1@ == o@[k].1@,
                    decreases o.len() - i,
                {
                    let c = o[i].1.copy();
                    out.push((o[i].0.clone(), c));
                    i = i + 1;
                }
                assert(members_model(out@) =~= members_model(o@));
                Json::Object(out)
            },
        }
    }
}

// ----------------------------------------------------------------------------------------------
// Writing
// ----------------------------------------------------------------------------------------------

/// A lower-case hexadecimal digit.
pub open spec fn hex_digit(d: int) -> char {
    if d < 10 {
        (48 + d) as char
    } else {
        (87 + d) as char
    }
}

/// One character inside a JSON string.
pub open spec fn escaped_char(c: char) -> Seq<char> {
    if c == '"' {
        seq!['\\', '"']
    } else if c == '\\' {
        seq!['\\', '\\']
    } else if c as u32 == 0x08 {
        seq!['\\', 'b']
    } else if c as u32 == 0x09 {
        seq!['\\', 't']
    } else if c as u32 == 0x0a {
        seq!['\\', 'n']
    } else if c as u32 == 0x0c {
        seq!['\\', 'f']
    } else if c as u32 == 0x0d {
        seq!['\\', 'r']
    } else if (c as u32) < 0x20 {
        seq!['\\', 'u', '0', '0', hex_digit(c as int / 16), hex_digit(c as int % 16)]
    } else {
        seq![c]
    }
}

/// The characters of `s` inside a JSON string.
pub open spec fn escaped(s: Seq<char>) -> Seq<char>
    decreases s.len(),
{
    if s.len() == 0 {
        Seq::empty()
    } else {
        escaped(s.drop_last()) + escaped_char(s.last())
    }
}

/// `s` as a JSON string.
pub open spec fn quoted(s: Seq<char>) -> Seq<char> {
    seq!['"'] + escaped(s) + seq!['"']
}

/// `serde_json::to_string` of a text: the text in double quotes, with the quote, the backslash and
/// the control characters below U+0020 escaped. It does not fail on a text.
#[verifier::external_body]
pub(crate) fn quote(s: &str) -> (r: String)
    ensures
        r@ == quoted(s@),
{
    serde_json::to_string(s).unwrap()
}

/// The compact text of a JSON value: no whitespace, members in order.
pub open spec fn compact(j: JsonModel) -> Seq<char>
    decreases j,
{
    match j {
        JsonModel::Null => "null"@,
        JsonModel::Bool(b) => if b {
            "true"@
        } else {
            "false"@
        },
        JsonModel::Number(n) => n,
        JsonModel::Str(s) => quoted(s),
        JsonModel::Array(a) => "["@ + text::joined(compact_elements(a), ","@) + "]"@,
        JsonModel::Object(o) => "{"@ + text::joined(compact_members(o), ","@) + "}"@,
    }
}

/// The compact texts of the elements of an array.
pub open spec fn compact_elements(a: Seq<JsonModel>) -> Seq<Seq<char>>
    decreases a,
{
    Seq::new(
        a.len(),
        |i: int|
            if 0 <= i < a.len() {
                compact(a[i])
            } else {
                arbitrary()
            },
    )
}

/// The compact texts of the members of an object.
pub open spec fn compact_members(o: Seq<(Seq<char>, JsonModel)>) -> Seq<Seq<char>>
    decreases o,
{
    Seq::new(
        o.len(),
        |i: int|
            if 0 <= i < o.len() {
                quoted(o[i].0) + ":"@ + compact(o[i].1)
            } else {
                arbitrary()
            },
    )
}

/// The text of an array on one line, its elements set off by spaces.
pub open spec fn spaced(a: Seq<JsonModel>) -> Seq<char> {
    "[ "@ + text::joined(a.map_values(|e: JsonModel| compact(e)), ", "@) + " ]"@
}

impl Json {
    /// The compact text.
    pub fn to_text(&self) -> (r: String)
        ensures
            r@ == compact(self@),
        decreases self,
    {
        broadcast use lemma_object_view;

        match self {
            Json::Null => "null".to_owned(),
            Json::Bool(b) => if *b {
                "true".to_owned()
            } else {
                "false".to_owned()
            },
            Json::Number(n) => n.clone(),
            Json::Str(s) => quote(s.as_str()),
            Json::Array(a) => {
                let ghost m = elements_model(a@);
                let ghost all = compact_elements(m);
                let mut parts: Vec<String> = Vec::new();
                let mut i: usize = 0;
                while i < a.len()
                    invariant
                        self matches Json::Array(b) && b == a,
                        m == elements_model(a@),
                        i <= a.len(),
                        all.len() == a.len(),
                        forall|k: int| 0 <= k < all.len() ==> (#[trigger] all[k]) == compact(m[k]),
                        parts.deep_view() == all.subrange(0, i as int),
                    decreases a.len() - i,
                {
                    let t = a[i].to_text();
                    text::push(&mut parts, t);
                    i = i + 1;
                    assert(parts.deep_view() =~= all.subrange(0, i as int));
                }
                assert(parts.deep_view() =~= all);
                let body = text::join(&parts, ",");
                text::cat3("[", body.as_str(), "]")
            },
            Json::Object(o) => {
                let ghost m = members_model(o@);
                let ghost all = compact_members(m);
                let mut parts: Vec<String> = Vec::new();
                let mut i: usize = 0;
                while i < o.len()
                    invariant
                        self matches Json::Object(b) && b == o,
                        m == members_model(o@),
                        i <= o.len(),
                        all.len() == o.len(),
                        forall|k: int|
                            0 <= k < all.len() ==> (#[trigger] all[k]) == quoted(m[k].0) + ":"@ + compact(m[k].1),
                        parts.deep_view() == all.subrange(0, i as int),
                    decreases o.len() - i,
                {
                    let v = o[i].1.to_text();
                    let k = quote(o[i].0.as_str());
                    text::push(&mut parts, text::cat3(k.as_str(), ":", v.as_str()));
                    i = i + 1;
                    assert(parts.deep_view() =~= all.subrange(0, i as int));
                }
                assert(parts.deep_view() =~= all);
                let body = text::join(&parts, ",");
                text::cat3("{", body.as_str(), "}")
            },
        }
    }
}

// ----------------------------------------------------------------------------------------------
// Building documents
// ----------------------------------------------------------------------------------------------

/// `o` with `v` under `k`: in place where the key is there already, at the end otherwise.
pub open spec fn put(o: Seq<(Seq<char>, JsonModel)>, k: Seq<char>, v: JsonModel) -> Seq<(Seq<char>, JsonModel)>
    decreases o.len(),
{
    if o.len() == 0 {
        seq![(k, v)]
    } else if o[0].0 == k {
        seq![(k, v)] + o.drop_first()
    } else {
        seq![o[0]] + put(o.drop_first(), k, v)
    }
}

/// What is found after a member was set: the new value under its key, and what was there under every
/// other.
pub proof fn lemma_lookup_after_put(o: Seq<(Seq<char>, JsonModel)>, k: Seq<char>, v: JsonModel, q: Seq<char>)
    ensures
        lookup(put(o, k, v), q) == (if q == k {
            Some(v)
        } else {
            lookup(o, q)
        }),
    decreases o.len(),
{
    let p = put(o, k, v);
    if o.len() == 0 {
        assert(p.drop_first() =~= Seq::<(Seq<char>, JsonModel)>::empty());
        assert(lookup(p.drop_first(), q) is None);
    } else if o[0].0 == k {
        assert(p[0] == (k, v));
        assert(p.drop_first() =~= o.drop_first());
    } else {
        lemma_lookup_after_put(o.drop_first(), k, v, q);
        assert(p[0] == o[0]);
        assert(p.drop_first() =~= put(o.drop_first(), k, v));
    }
}

/// What is found in two lists of members, one after the other.
pub proof fn lemma_lookup_in_either(a: Seq<(Seq<char>, JsonModel)>, b: Seq<(Seq<char>, JsonModel)>, q: Seq<char>)
    ensures
        lookup(a + b, q) == (match lookup(a, q) {
            Some(v) => Some(v),
            None => lookup(b, q),
        }),
    decreases a.len(),
{
    if a.len() == 0 {
        assert(a + b =~= b);
    } else {
        assert((a + b)[0] == a[0]);
        assert((a + b).drop_first() =~= a.drop_first() + b);
        lemma_lookup_in_either(a.drop_first(), b, q);
    }
}

proof fn lemma_put_at(o: Seq<(Seq<char>, JsonModel)>, k: Seq<char>, v: JsonModel, i: int)
    requires
        0 <= i <= o.len(),
        i < o.len() ==> o[i].0 == k,
        forall|j: int| 0 <= j < i ==> (#[trigger] o[j]).0 != k,
    ensures
        put(o, k, v) == (if i < o.len() {
            o.update(i, (k, v))
        } else {
            o.push((k, v))
        }),
    decreases o.len(),
{
    if o.len() == 0 {
        assert(seq![(k, v)] =~= o.push((k, v)));
    } else if i == 0 {
        assert(seq![(k, v)] + o.drop_first() =~= o.update(0, (k, v)));
    } else {
        let t = o.drop_first();
        assert forall|j: int| 0 <= j < i - 1 implies (#[trigger] t[j]).0 != k by {
            assert(t[j] == o[j + 1]);
        }
        assert(o[0].0 != k);
        lemma_put_at(t, k, v, i - 1);
        if i < o.len() {
            assert(seq![o[0]] + t.update(i - 1, (k, v)) =~= o.update(i, (k, v)));
        } else {
            assert(seq![o[0]] + t.push((k, v)) =~= o.push((k, v)));
        }
    }
}

/// Sets a member.
pub fn put_member(o: &mut Vec<(String, Json)>, k: &str, v: Json)
    ensures
        members_model(final(o)@) == put(members_model(old(o)@), k@, v@),
{
    let ghost m = members_model(o@);
    let mut i: usize = 0;
    while i < o.len() && !text::eq(o[i].0.as_str(), k)
        invariant
            m == members_model(o@),
            i <= o.len(),
            forall|j: int| 0 <= j < i ==> (#[trigger] m[j]).0 != k@,
        decreases o.len() - i,
    {
        assert(m[i as int] == (o@[i as int].0@, o@[i as int].1@));
        i = i + 1;
    }
    proof {
        if i < o.len() {
            assert(m[i as int] == (o@[i as int].0@, o@[i as int].1@));
        }
        lemma_put_at(m, k@, v@, i as int);
    }
    if i < o.len() {
        o.set(i, (k.to_owned(), v));
        assert(members_model(o@) =~= m.update(i as int, (k@, v@)));
    } else {
        o.push((k.to_owned(), v));
        assert(members_model(o@) =~= m.push((k@, v@)));
    }
}

/// Appends a member.
pub fn push_member(o: &mut Vec<(String, Json)>, k: &str, v: Json)
    ensures
        members_model(final(o)@) == members_model(old(o)@).push((k@, v@)),
{
    o.push((k.to_owned(), v));
    assert(members_model(o@) =~= members_model(old(o)@).push((k@, v@)));
}

/// An array of texts.
pub open spec fn texts_model(v: Seq<Seq<char>>) -> JsonModel {
    JsonModel::Array(v.map_values(|s: Seq<char>| JsonModel::Str(s)))
}

/// Makes an array of texts.
pub fn texts_json(v: &Vec<String>) -> (r: Json)
    ensures
        r@ == texts_model(v.deep_view()),
{
    let mut a: Vec<Json> = Vec::new();
    let mut i: usize = 0;
    while i < v.len()
        invariant
            i <= v.len(),
            a.len() == i,
            forall|k: int| 0 <= k < i ==> (#[trigger] a@[k])@ == JsonModel::Str(v@[k]@),
        decreases v.len() - i,
    {
        a.push(Json::Str(v[i].clone()));
        i = i + 1;
    }
    let r = Json::Array(a);
    assert(r@->Array_0 =~= v.deep_view().map_values(|s: Seq<char>| JsonModel::Str(s)));
    r
}

/// Two spaces for each level.
pub open spec fn indent(depth: nat) -> Seq<char>
    decreases depth,
{
    if depth == 0 {
        Seq::empty()
    } else {
        indent((depth - 1) as nat) + "  "@
    }
}

/// The text of a JSON value over several lines, two spaces to a level.
pub open spec fn pretty(j: JsonModel, depth: nat) -> Seq<char>
    decreases j,
{
    match j {
        JsonModel::Array(a) => if a.len() == 0 {
            "[]"@
        } else {
            "[\n"@ + text::joined(pretty_elements(a, depth), ",\n"@) + "\n"@ + indent(depth) + "]"@
        },
        JsonModel::Object(o) => if o.len() == 0 {
            "{}"@
        } else {
            "{\n"@ + text::joined(pretty_members(o, depth), ",\n"@) + "\n"@ + indent(depth) + "}"@
        },
        _ => compact(j),
    }
}

/// The lines of the elements of an array.
pub open spec fn pretty_elements(a: Seq<JsonModel>, depth: nat) -> Seq<Seq<char>>
    decreases a,
{
    Seq::new(
        a.len(),
        |i: int|
            if 0 <= i < a.len() {
                indent(depth + 1) + pretty(a[i], depth + 1)
            } else {
                arbitrary()
            },
    )
}

/// The lines of the members of an object.
pub open spec fn pretty_members(o: Seq<(Seq<char>, JsonModel)>, depth: nat) -> Seq<Seq<char>>
    decreases o,
{
    Seq::new(
        o.len(),
        |i: int|
            if 0 <= i < o.len() {
                indent(depth + 1) + quoted(o[i].0) + ": "@ + pretty(o[i].1, depth + 1)
            } else {
                arbitrary()
            },
    )
}

impl Json {
    fn pretty_at(&self, pad: &str, Ghost(depth): Ghost<nat>) -> (r: String)
        requires
            pad@ == indent(depth),
        ensures
            r@ == pretty(self@, depth),
        decreases self,
    {
        broadcast use lemma_object_view;

        let inner = text::cat2(pad, "  ");
        assert(inner@ == indent(depth + 1));
        match self {
            Json::Array(a) => {
                if a.len() == 0 {
                    return "[]".to_owned();
                }
                let ghost m = elements_model(a@);
                let ghost all = pretty_elements(m, depth);
                let mut parts: Vec<String> = Vec::new();
                let mut i: usize = 0;
                while i < a.len()
                    invariant
                        self matches Json::Array(b) && b == a,
                        inner@ == indent(depth + 1),
                        m == elements_model(a@),
                        i <= a.len(),
                        all.len() == a.len(),
                        forall|k: int|
                            0 <= k < all.len() ==> (#[trigger] all[k]) == indent(depth + 1) + pretty(m[k], depth + 1),
                        parts.deep_view() == all.subrange(0, i as int),
                    decreases a.len() - i,
                {
                    let t = a[i].pretty_at(inner.as_str(), Ghost(depth + 1));
                    text::push(&mut parts, text::cat2(inner.as_str(), t.as_str()));
                    i = i + 1;
                    assert(parts.deep_view() =~= all.subrange(0, i as int));
                }
                assert(parts.deep_view() =~= all);
                let body = text::join(&parts, ",\n");
                text::cat5("[\n", body.as_str(), "\n", pad, "]")
            },
            Json::Object(o) => {
                if o.len() == 0 {
                    return "{}".to_owned();
                }
                let ghost m = members_model(o@);
                let ghost all = pretty_members(m, depth);
                let mut parts: Vec<String> = Vec::new();
                let mut i: usize = 0;
                while i < o.len()
                    invariant
                        self matches Json::Object(b) && b == o,
                        inner@ == indent(depth + 1),
                        m == members_model(o@),
                        i <= o.len(),
                        all.len() == o.len(),
                        forall|k: int|
                            0 <= k < all.len() ==> (#[trigger] all[k]) == indent(depth + 1) + quoted(m[k].0) + ": "@
                                + pretty(m[k].1, depth + 1),
                        parts.deep_view() == all.subrange(0, i as int),
                    decreases o.len() - i,
                {
                    let t = o[i].1.pretty_at(inner.as_str(), Ghost(depth + 1));
                    let k = quote(o[i].0.as_str());
                    text::push(&mut parts, text::cat4(inner.as_str(), k.as_str(), ": ", t.as_str()));
                    i = i + 1;
                    assert(parts.deep_view() =~= all.subrange(0, i as int));
                }
                assert(parts.deep_view() =~= all);
                let body = text::join(&parts, ",\n");
                text::cat5("{\n", body.as_str(), "\n", pad, "}")
            },
            _ => self.to_text(),
        }
    }

    /// The text over several lines.
    pub fn to_pretty(&self) -> (r: String)
        ensures
            r@ == pretty(self@, 0),
    {
        let pad = String::new();
        self.pretty_at(pad.as_str(), Ghost(0))
    }
}

// ----------------------------------------------------------------------------------------------
// What is written
// ----------------------------------------------------------------------------------------------

/// Every element of an array and every member of an object is written, in order and with a comma between
/// them, the member under its name. The brackets stand around them.
pub proof fn law_everything_is_written(a: Seq<JsonModel>, o: Seq<(Seq<char>, JsonModel)>, i: int)
    ensures
        ({
            let list = compact(JsonModel::Array(a));
            let record = compact(JsonModel::Object(o));
            let member = |k: int| quoted(o[k].0) + ":"@ + compact(o[k].1);
            &&& text::has_prefix(list, "["@) && text::has_suffix(list, "]"@)
            &&& 0 <= i < a.len() ==> text::holds(list, compact(a[i]))
            &&& 0 < i < a.len() ==> text::holds(list, compact(a[i - 1]) + ","@ + compact(a[i]))
            &&& text::has_prefix(record, "{"@) && text::has_suffix(record, "}"@)
            &&& 0 <= i < o.len() ==> text::holds(record, member(i))
            &&& 0 < i < o.len() ==> text::holds(record, member(i - 1) + ","@ + member(i))
        }),
{
    let es = text::joined(compact_elements(a), ","@);
    let ms = text::joined(compact_members(o), ","@);
    lemma_between("["@, es, "]"@);
    lemma_between("{"@, ms, "}"@);
    if 0 <= i < a.len() {
        text::lemma_joined_holds(compact_elements(a), ","@, i);
    }
    if 0 <= i < o.len() {
        text::lemma_joined_holds(compact_members(o), ","@, i);
    }
}

proof fn lemma_between(open: Seq<char>, inner: Seq<char>, close: Seq<char>)
    ensures
        text::has_prefix(open + inner + close, open),
        text::has_suffix(open + inner + close, close),
        forall|p: Seq<char>| #[trigger] text::holds(inner, p) ==> text::holds(open + inner + close, p),
{
    let s = open + inner + close;
    assert(s.subrange(0, open.len() as int) =~= open);
    assert(s.subrange(s.len() - close.len(), s.len() as int) =~= close);
    text::lemma_holds_more(open, inner, close);
}

/// Over several lines too: each element and each member has lines of its own, indented by one level more than
/// the brackets around it.
pub proof fn law_everything_has_its_lines(a: Seq<JsonModel>, o: Seq<(Seq<char>, JsonModel)>, depth: nat, i: int)
    ensures
        ({
            let list = pretty(JsonModel::Array(a), depth);
            let record = pretty(JsonModel::Object(o), depth);
            let element = |k: int| indent(depth + 1) + pretty(a[k], depth + 1);
            let member = |k: int| indent(depth + 1) + quoted(o[k].0) + ": "@ + pretty(o[k].1, depth + 1);
            &&& a.len() > 0 ==> text::has_prefix(list, "[\n"@) && text::has_suffix(list, "\n"@ + indent(depth) + "]"@)
            &&& 0 <= i < a.len() ==> text::holds(list, element(i))
            &&& 0 < i < a.len() ==> text::holds(list, element(i - 1) + ",\n"@ + element(i))
            &&& o.len() > 0 ==> text::has_prefix(record, "{\n"@) && text::has_suffix(
                record,
                "\n"@ + indent(depth) + "}"@,
            )
            &&& 0 <= i < o.len() ==> text::holds(record, member(i))
            &&& 0 < i < o.len() ==> text::holds(record, member(i - 1) + ",\n"@ + member(i))
        }),
        indent(depth).len() == 2 * depth,
{
    lemma_indent(depth);
    if a.len() > 0 {
        let es = text::joined(pretty_elements(a, depth), ",\n"@);
        let close = "\n"@ + indent(depth) + "]"@;
        lemma_between("[\n"@, es, close);
        assert(pretty(JsonModel::Array(a), depth) =~= "[\n"@ + es + close);
        if 0 <= i < a.len() {
            text::lemma_joined_holds(pretty_elements(a, depth), ",\n"@, i);
        }
    }
    if o.len() > 0 {
        let ms = text::joined(pretty_members(o, depth), ",\n"@);
        let close = "\n"@ + indent(depth) + "}"@;
        lemma_between("{\n"@, ms, close);
        assert(pretty(JsonModel::Object(o), depth) =~= "{\n"@ + ms + close);
        if 0 <= i < o.len() {
            text::lemma_joined_holds(pretty_members(o, depth), ",\n"@, i);
        }
    }
}

proof fn lemma_indent(depth: nat)
    ensures
        indent(depth).len() == 2 * depth,
    decreases depth,
{
    reveal_strlit("  ");
    if depth > 0 {
        lemma_indent((depth - 1) as nat);
    }
}

} // verus!
