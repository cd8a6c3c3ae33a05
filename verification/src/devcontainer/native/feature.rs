//! What a Feature says of itself, its options, and what it leaves in the image.
//!
//! A `devcontainer-feature.json` has two sides. What the builder computes with (options, ordering,
//! dependencies) is decoded. What the Feature contributes at run time is carried over as it stands, so
//! that a property nobody here has heard of still arrives.

use vstd::prelude::*;

use super::oci::{FeatureRef, RefModel};
use crate::decode;
use crate::duplicate::Duplicate;
use crate::error::{AmError, AmErrorModel};
use crate::json::{self, Json, JsonModel};
use crate::shell;
use crate::strmap::{self, StrMap};
use crate::text;

pub use super::order::{compare_versions, install_order, unmatched_override_entries};

verus! {

// ----------------------------------------------------------------------------------------------
// Metadata
// ----------------------------------------------------------------------------------------------

/// An option that a Feature declares.
#[derive(Debug, PartialEq)]
pub struct OptionDef {
    pub default: Option<Json>,
}

/// What an [`OptionDef`] stands for.
pub struct OptionModel {
    pub default: Option<JsonModel>,
}

impl DeepView for OptionDef {
    type V = OptionModel;

    open spec fn deep_view(&self) -> OptionModel {
        OptionModel { default: self.default.deep_view() }
    }
}

impl Duplicate for OptionDef {
    fn duplicate(&self) -> (r: Self) {
        OptionDef { default: self.default.duplicate() }
    }
}

/// The parts of a `devcontainer-feature.json` that the builder computes with.
#[derive(Debug, PartialEq)]
pub struct FeatureMetadata {
    /// The Feature's own short id. It names a directory in the build context and nothing else.
    pub id: Option<String>,
    pub version: Option<String>,
    pub name: Option<String>,
    pub description: Option<String>,
    pub documentation_url: Option<String>,
    pub options: StrMap<OptionDef>,
    /// Features to install first, where they are installed at all.
    pub installs_after: Vec<String>,
    /// Features that have to be installed first, with their options.
    pub depends_on: Option<Json>,
}

/// What [`FeatureMetadata`] stands for.
pub struct MetadataModel {
    pub id: Option<Seq<char>>,
    pub version: Option<Seq<char>>,
    pub name: Option<Seq<char>>,
    pub description: Option<Seq<char>>,
    pub documentation_url: Option<Seq<char>>,
    pub options: Seq<(Seq<char>, OptionModel)>,
    pub installs_after: Seq<Seq<char>>,
    pub depends_on: Option<JsonModel>,
}

impl DeepView for FeatureMetadata {
    type V = MetadataModel;

    open spec fn deep_view(&self) -> MetadataModel {
        MetadataModel {
            id: self.id.deep_view(),
            version: self.version.deep_view(),
            name: self.name.deep_view(),
            description: self.description.deep_view(),
            documentation_url: self.documentation_url.deep_view(),
            options: self.options.deep_view(),
            installs_after: self.installs_after.deep_view(),
            depends_on: self.depends_on.deep_view(),
        }
    }
}

impl Duplicate for FeatureMetadata {
    fn duplicate(&self) -> (r: Self) {
        FeatureMetadata {
            id: self.id.duplicate(),
            version: self.version.duplicate(),
            name: self.name.duplicate(),
            description: self.description.duplicate(),
            documentation_url: self.documentation_url.duplicate(),
            options: self.options.duplicate(),
            installs_after: self.installs_after.duplicate(),
            depends_on: self.depends_on.duplicate(),
        }
    }
}

impl MetadataModel {
    /// Metadata that says nothing.
    pub open spec fn empty() -> MetadataModel {
        MetadataModel {
            id: None,
            version: None,
            name: None,
            description: None,
            documentation_url: None,
            options: Seq::empty(),
            installs_after: Seq::empty(),
            depends_on: None,
        }
    }
}

impl Default for FeatureMetadata {
    fn default() -> (r: Self)
        ensures
            r.deep_view() == MetadataModel::empty(),
    {
        let installs_after: Vec<String> = Vec::new();
        assert(installs_after.deep_view() =~= Seq::empty());
        FeatureMetadata {
            id: None,
            version: None,
            name: None,
            description: None,
            documentation_url: None,
            options: StrMap::new(),
            installs_after,
            depends_on: None,
        }
    }
}

/// A value that is there and not null.
pub open spec fn non_null(j: Option<JsonModel>) -> Option<JsonModel> {
    match j {
        Some(JsonModel::Null) => None,
        other => other,
    }
}

/// The fields of an option.
pub open spec fn option_fields() -> Seq<Seq<char>> {
    seq!["default"@]
}

/// The fields of a `devcontainer-feature.json`.
pub open spec fn metadata_fields() -> Seq<Seq<char>> {
    seq![
        "id"@,
        "version"@,
        "name"@,
        "description"@,
        "documentationUrl"@,
        "options"@,
        "installsAfter"@,
        "dependsOn"@,
    ]
}

/// An option as JSON spells it.
pub open spec fn option_of(j: JsonModel) -> Option<OptionModel> {
    let j = decode::named(j, option_fields(), 0);
    if j is Object {
        Some(OptionModel { default: non_null(j.member("default"@)) })
    } else {
        None
    }
}

/// The options that an object declares, none where it is absent.
pub open spec fn options_of(j: Option<JsonModel>) -> Option<Seq<(Seq<char>, OptionModel)>> {
    match j {
        None => Some(Seq::empty()),
        Some(JsonModel::Object(o)) => if forall|i: int|
            0 <= i < o.len() ==> option_of((#[trigger] o[i]).1) is Some {
            Some(decode::collected(o.map_values(|m: (Seq<char>, JsonModel)| (m.0, option_of(m.1)->0))))
        } else {
            None
        },
        _ => None,
    }
}

/// What a `devcontainer-feature.json` says.
pub open spec fn metadata_of(j: JsonModel) -> Option<MetadataModel> {
    let j = decode::named(j, metadata_fields(), 5);
    let id = decode::opt_text_of(j.member("id"@));
    let version = decode::opt_text_of(j.member("version"@));
    let name = decode::opt_text_of(j.member("name"@));
    let description = decode::opt_text_of(j.member("description"@));
    let documentation_url = decode::opt_text_of(j.member("documentationUrl"@));
    let options = options_of(j.member("options"@));
    let installs_after = decode::texts_of(j.member("installsAfter"@));
    if j is Object && id is Some && version is Some && name is Some && description is Some && documentation_url is Some
        && options is Some && installs_after is Some {
        Some(
            MetadataModel {
                id: id->0,
                version: version->0,
                name: name->0,
                description: description->0,
                documentation_url: documentation_url->0,
                options: options->0,
                installs_after: installs_after->0,
                depends_on: non_null(j.member("dependsOn"@)),
            },
        )
    } else {
        None
    }
}

fn present(j: Option<&Json>) -> (r: Option<Json>)
    ensures
        r.deep_view() == non_null(j.deep_view()),
{
    match j {
        Some(v) => if v.is_null() {
            None
        } else {
            Some(v.copy())
        },
        None => None,
    }
}

fn read_option(j: &Json) -> (r: Option<OptionDef>)
    ensures
        r.deep_view() == option_of(j@),
{
    let names: Vec<&str> = vec!["default"];
    assert(names.deep_view() =~= option_fields());
    let held = decode::by_position(j, &names, 0);
    let j: &Json = match &held {
        Some(o) => o,
        None => j,
    };
    match j {
        Json::Object(_) => Some(OptionDef { default: present(j.get("default")) }),
        _ => None,
    }
}

fn read_options(j: Option<&Json>) -> (r: Option<StrMap<OptionDef>>)
    ensures
        r.deep_view() == options_of(j.deep_view()),
{
    broadcast use crate::json::lemma_object_view;

    let mut out: StrMap<OptionDef> = StrMap::new();
    match j {
        None => Some(out),
        Some(Json::Object(o)) => {
            let ghost m = json::members_model(o@);
            let ghost t = m.map_values(|e: (Seq<char>, JsonModel)| (e.0, option_of(e.1)->0));
            let mut i: usize = 0;
            assert(t.subrange(0, 0) =~= Seq::empty());
            while i < o.len()
                invariant
                    j.deep_view() == Some(JsonModel::Object(m)),
                    m == json::members_model(o@),
                    t == m.map_values(|e: (Seq<char>, JsonModel)| (e.0, option_of(e.1)->0)),
                    i <= o.len(),
                    forall|k: int| 0 <= k < i ==> option_of((#[trigger] m[k]).1) is Some,
                    out.deep_view() == decode::collected(t.subrange(0, i as int)),
                decreases o.len() - i,
            {
                assert(m[i as int] == (o@[i as int].0@, o@[i as int].1@));
                match read_option(&o[i].1) {
                    Some(d) => {
                        out.insert(o[i].0.clone(), d);
                    },
                    None => {
                        return None;
                    },
                }
                i = i + 1;
                assert(t.subrange(0, i as int).drop_last() =~= t.subrange(0, i - 1));
            }
            assert(t.subrange(0, t.len() as int) =~= t);
            Some(out)
        },
        _ => None,
    }
}

/// Reads a `devcontainer-feature.json` that is already JSON.
pub fn read_metadata(j: &Json) -> (r: Option<FeatureMetadata>)
    ensures
        r.deep_view() == metadata_of(j@),
{
    let names: Vec<&str> = vec![
        "id",
        "version",
        "name",
        "description",
        "documentationUrl",
        "options",
        "installsAfter",
        "dependsOn",
    ];
    assert(names.deep_view() =~= metadata_fields());
    let held = decode::by_position(j, &names, 5);
    let j: &Json = match &held {
        Some(o) => o,
        None => j,
    };
    let is_object = match j {
        Json::Object(_) => true,
        _ => false,
    };
    let id = decode::opt_text(j.get("id"));
    let version = decode::opt_text(j.get("version"));
    let name = decode::opt_text(j.get("name"));
    let description = decode::opt_text(j.get("description"));
    let documentation_url = decode::opt_text(j.get("documentationUrl"));
    let options = read_options(j.get("options"));
    let installs_after = decode::texts(j.get("installsAfter"));
    let depends_on = present(j.get("dependsOn"));
    if !is_object || id.is_none() || version.is_none() || name.is_none() || description.is_none()
        || documentation_url.is_none() || options.is_none() || installs_after.is_none() {
        return None;
    }
    Some(
        FeatureMetadata {
            id: id.unwrap(),
            version: version.unwrap(),
            name: name.unwrap(),
            description: description.unwrap(),
            documentation_url: documentation_url.unwrap(),
            options: options.unwrap(),
            installs_after: installs_after.unwrap(),
            depends_on,
        },
    )
}

/// The error for a `devcontainer-feature.json` that cannot be read.
pub open spec fn unreadable_metadata() -> AmErrorModel {
    AmErrorModel::DevcontainerBuildFailed("parsing devcontainer-feature.json"@)
}

/// The metadata in a text, with the JSON behind it; `parsed` is what the JSON reader made of the text.
pub open spec fn metadata_in(parsed: Result<JsonModel, Seq<char>>) -> Result<(MetadataModel, JsonModel), AmErrorModel> {
    match parsed {
        Err(_) => Err(unreadable_metadata()),
        Ok(j) => match metadata_of(j) {
            Some(m) => Ok((m, j)),
            None => Err(unreadable_metadata()),
        },
    }
}

/// Reads a `devcontainer-feature.json`: what the builder computes with, and all of it.
pub fn parse_metadata(text: &str) -> (r: Result<(FeatureMetadata, Json), AmError>)
    ensures
        crate::error::outcome(r) == metadata_in(json::lenient(text@)),
{
    match json::parse_lenient(text) {
        Err(_) => Err(AmError::DevcontainerBuildFailed("parsing devcontainer-feature.json".to_owned())),
        Ok(j) => match read_metadata(&j) {
            Some(m) => Ok((m, j)),
            None => Err(AmError::DevcontainerBuildFailed("parsing devcontainer-feature.json".to_owned())),
        },
    }
}

// ----------------------------------------------------------------------------------------------
// Options
// ----------------------------------------------------------------------------------------------

/// An option's value as the install contract has it: text, never a JSON literal.
pub open spec fn option_text(j: JsonModel) -> Seq<char> {
    match j {
        JsonModel::Str(s) => s,
        JsonModel::Null => Seq::empty(),
        other => json::compact(other),
    }
}

/// Renders an option's value as the install contract has it.
pub fn stringify(value: &Json) -> (r: String)
    ensures
        r@ == option_text(value@),
{
    match value {
        Json::Str(s) => s.clone(),
        Json::Null => {
            let s = String::new();
            assert(s@ =~= Seq::empty());
            s
        },
        other => other.to_text(),
    }
}

/// A character that a shell variable may hold, or an underscore in its place.
pub open spec fn shell_char(c: char) -> char {
    if text::is_word(c) || c == '_' {
        c
    } else {
        '_'
    }
}

/// `s` from its first letter on.
pub open spec fn from_first_letter(s: Seq<char>) -> Seq<char>
    decreases s.len(),
{
    if s.len() > 0 && (text::is_digit(s[0]) || s[0] == '_') {
        from_first_letter(s.drop_first())
    } else {
        s
    }
}

/// The environment variable that an option arrives in: upper case, with an underscore for every
/// character that a variable cannot hold, and one for everything before the first letter.
pub open spec fn env_name(name: Seq<char>) -> Seq<char> {
    let shell = name.map_values(|c: char| shell_char(c));
    let rest = from_first_letter(shell);
    let whole = if rest.len() == shell.len() {
        rest
    } else {
        seq!['_'] + rest
    };
    whole.map_values(|c: char| text::ascii_upper(c))
}

proof fn lemma_from_first_letter(s: Seq<char>)
    ensures
        from_first_letter(s).len() <= s.len(),
        from_first_letter(s) == s.subrange(s.len() - from_first_letter(s).len(), s.len() as int),
        from_first_letter(s).len() > 0 ==> !text::is_digit(from_first_letter(s)[0]) && from_first_letter(s)[0] != '_',
    decreases s.len(),
{
    if s.len() > 0 && (text::is_digit(s[0]) || s[0] == '_') {
        let t = s.drop_first();
        lemma_from_first_letter(t);
        assert(t.subrange(t.len() - from_first_letter(t).len(), t.len() as int) =~= s.subrange(
            s.len() - from_first_letter(s).len(),
            s.len() as int,
        ));
    } else {
        assert(s.subrange(0, s.len() as int) =~= s);
    }
}

/// Every option that has a name arrives in a variable that a shell can assign: capital letters, digits
/// and underscores, not beginning with a digit.
pub proof fn law_options_are_shell_variables(name: Seq<char>)
    requires
        name.len() > 0,
    ensures
        env_name(name).len() > 0,
        !text::is_digit(env_name(name)[0]),
        forall|i: int| 0 <= i < env_name(name).len() ==> {
            let c = #[trigger] env_name(name)[i];
            text::is_upper(c) || text::is_digit(c) || c == '_'
        },
{
    let shell = name.map_values(|c: char| shell_char(c));
    let rest = from_first_letter(shell);
    lemma_from_first_letter(shell);
    assert forall|i: int| 0 <= i < rest.len() implies text::is_word(#[trigger] rest[i]) || rest[i] == '_' by {
        assert(rest[i] == shell[shell.len() - rest.len() + i]);
    }
}

/// Names the environment variable that an option arrives in.
pub fn option_env_name(name: &str) -> (r: String)
    ensures
        r@ == env_name(name@),
{
    let cs = text::chars(name);
    let mut shell: Vec<char> = Vec::new();
    let mut i: usize = 0;
    while i < cs.len()
        invariant
            i <= cs.len(),
            shell@ == cs@.subrange(0, i as int).map_values(|c: char| shell_char(c)),
        decreases cs.len() - i,
    {
        let c = cs[i];
        if text::is_ascii_word(c) || c == '_' {
            shell.push(c);
        } else {
            shell.push('_');
        }
        i = i + 1;
        assert(shell@ =~= cs@.subrange(0, i as int).map_values(|c: char| shell_char(c)));
    }
    assert(cs@.subrange(0, cs@.len() as int) =~= cs@);
    let ghost s = shell@;
    let mut k: usize = 0;
    assert(s.subrange(0, s.len() as int) =~= s);
    while k < shell.len() && (text::is_ascii_digit(shell[k]) || shell[k] == '_')
        invariant
            s == shell@,
            k <= shell.len(),
            from_first_letter(s) == from_first_letter(s.subrange(k as int, s.len() as int)),
        decreases shell.len() - k,
    {
        assert(s.subrange(k as int, s.len() as int).drop_first() =~= s.subrange(k + 1, s.len() as int));
        k = k + 1;
    }
    let rest = text::from_range(&shell, k, shell.len());
    proof {
        reveal_strlit("_");
    }
    let whole = if k == 0 {
        rest
    } else {
        let w = text::cat2("_", rest.as_str());
        assert(w@ =~= seq!['_'] + rest@);
        w
    };
    assert(text::all_ascii(whole@)) by {
        assert forall|j: int| 0 <= j < whole@.len() implies text::is_ascii_char(#[trigger] whole@[j]) by {
            if k > 0 && j > 0 {
                assert(whole@[j] == s[k + j - 1]);
                assert(s[k + j - 1] == shell_char(cs@[k + j - 1]));
            } else if k == 0 {
                assert(whole@[j] == s[j]);
                assert(s[j] == shell_char(cs@[j]));
            }
        }
    }
    text::to_uppercase(whole.as_str())
}

/// The variables that a Feature's defaults give.
pub open spec fn default_options(options: Seq<(Seq<char>, OptionModel)>) -> Seq<(Seq<char>, Seq<char>)>
    decreases options.len(),
{
    if options.len() == 0 {
        Seq::empty()
    } else {
        let rest = default_options(options.drop_last());
        match options.last().1.default {
            Some(d) => strmap::insert(rest, env_name(options.last().0), option_text(d)),
            None => rest,
        }
    }
}

/// Variables, with the options that were supplied over them.
pub open spec fn supplied_over(base: Seq<(Seq<char>, Seq<char>)>, supplied: Seq<(Seq<char>, JsonModel)>) -> Seq<
    (Seq<char>, Seq<char>),
>
    decreases supplied.len(),
{
    if supplied.len() == 0 {
        base
    } else {
        strmap::insert(
            supplied_over(base, supplied.drop_last()),
            env_name(supplied.last().0),
            option_text(supplied.last().1),
        )
    }
}

/// Merges the options that were supplied over a Feature's defaults. An option that the Feature never
/// declared goes through as well.
pub fn resolve_options(metadata: &FeatureMetadata, supplied: &StrMap<Json>) -> (r: StrMap<String>)
    ensures
        r.deep_view() == supplied_over(default_options(metadata.options.deep_view()), supplied.deep_view()),
{
    let mut out: StrMap<String> = StrMap::new();
    let ghost o = metadata.options.deep_view();
    let n: usize = metadata.options.len();
    let mut i: usize = 0;
    assert(o.subrange(0, 0) =~= Seq::empty());
    while i < n
        invariant
            o == metadata.options.deep_view(),
            n == o.len(),
            i <= n,
            out.deep_view() == default_options(o.subrange(0, i as int)),
        decreases n - i,
    {
        let (name, def) = metadata.options.at(i);
        assert(o.subrange(0, i + 1).drop_last() =~= o.subrange(0, i as int));
        match &def.default {
            Some(d) => {
                out.insert(option_env_name(name), stringify(d));
            },
            None => {},
        }
        i = i + 1;
    }
    assert(o.subrange(0, o.len() as int) =~= o);
    let ghost base = out.deep_view();
    let ghost s = supplied.deep_view();
    let m: usize = supplied.len();
    let mut k: usize = 0;
    assert(s.subrange(0, 0) =~= Seq::empty());
    while k < m
        invariant
            s == supplied.deep_view(),
            m == s.len(),
            k <= m,
            out.deep_view() == supplied_over(base, s.subrange(0, k as int)),
        decreases m - k,
    {
        let (name, value) = supplied.at(k);
        assert(s.subrange(0, k + 1).drop_last() =~= s.subrange(0, k as int));
        out.insert(option_env_name(name), stringify(value));
        k = k + 1;
    }
    assert(s.subrange(0, s.len() as int) =~= s);
    out
}

/// The variable of an option that was supplied holds the value that was supplied, whatever the default,
/// unless a later option shares the variable.
pub proof fn law_supplied_options_win(
    base: Seq<(Seq<char>, Seq<char>)>,
    supplied: Seq<(Seq<char>, JsonModel)>,
    i: int,
)
    requires
        strmap::sorted(base),
        0 <= i < supplied.len(),
        forall|j: int| i < j < supplied.len() ==> env_name((#[trigger] supplied[j]).0) != env_name(supplied[i].0),
    ensures
        strmap::get(supplied_over(base, supplied), env_name(supplied[i].0)) == Some(option_text(supplied[i].1)),
    decreases supplied.len(),
{
    let rest = supplied.drop_last();
    lemma_supplied_sorted(base, rest);
    strmap::lemma_get_after_insert(
        supplied_over(base, rest),
        env_name(supplied.last().0),
        option_text(supplied.last().1),
        env_name(supplied[i].0),
    );
    if i < supplied.len() - 1 {
        assert(supplied[supplied.len() - 1] == supplied.last());
        assert forall|j: int| i < j < rest.len() implies env_name((#[trigger] rest[j]).0) != env_name(rest[i].0) by {
            assert(rest[j] == supplied[j]);
        }
        law_supplied_options_win(base, rest, i);
    }
}

proof fn lemma_supplied_sorted(base: Seq<(Seq<char>, Seq<char>)>, supplied: Seq<(Seq<char>, JsonModel)>)
    requires
        strmap::sorted(base),
    ensures
        strmap::sorted(supplied_over(base, supplied)),
    decreases supplied.len(),
{
    if supplied.len() > 0 {
        lemma_supplied_sorted(base, supplied.drop_last());
        strmap::lemma_insert_sorted(
            supplied_over(base, supplied.drop_last()),
            env_name(supplied.last().0),
            option_text(supplied.last().1),
        );
    }
}

/// Options as they reach the install script: each name with its value as text.
pub open spec fn rendered(options: Seq<(Seq<char>, JsonModel)>) -> Seq<(Seq<char>, Seq<char>)> {
    options.map_values(|o: (Seq<char>, JsonModel)| (o.0, option_text(o.1)))
}

/// The names and the values, in turn.
pub open spec fn option_words(options: Seq<(Seq<char>, JsonModel)>) -> Seq<Seq<char>> {
    Seq::new(
        2 * options.len(),
        |i: int|
            if i % 2 == 0 {
                options[i / 2].0
            } else {
                option_text(options[i / 2].1)
            },
    )
}

/// Options in one line, for telling requests apart. They are quoted, so that a value that holds a
/// separator is not read as two.
pub open spec fn options_line(options: Seq<(Seq<char>, JsonModel)>) -> Seq<char> {
    shell::command_line(option_words(options))
}

fn words_of(first: Vec<String>, options: &StrMap<Json>) -> (r: Vec<String>)
    ensures
        r.deep_view() == first.deep_view() + option_words(options.deep_view()),
{
    let ghost s = options.deep_view();
    let ghost c0 = first.deep_view();
    let n: usize = options.len();
    let mut words = first;
    let mut i: usize = 0;
    assert(c0 =~= c0 + option_words(s.subrange(0, 0)));
    while i < n
        invariant
            s == options.deep_view(),
            n == s.len(),
            i <= n,
            words.deep_view() == c0 + option_words(s.subrange(0, i as int)),
        decreases n - i,
    {
        let (k, v) = options.at(i);
        text::push_str(&mut words, k);
        text::push(&mut words, stringify(v));
        assert(option_words(s.subrange(0, i + 1)) =~= option_words(s.subrange(0, i as int)).push(s[i as int].0).push(
            option_text(s[i as int].1),
        ));
        i = i + 1;
        assert(words.deep_view() =~= c0 + option_words(s.subrange(0, i as int)));
    }
    assert(s.subrange(0, s.len() as int) =~= s);
    words
}

/// Renders options in one line.
pub fn canonical_options(options: &StrMap<Json>) -> (r: String)
    ensures
        r@ == options_line(options.deep_view()),
{
    let empty: Vec<String> = Vec::new();
    let words = words_of(empty, options);
    assert(words.deep_view() =~= option_words(options.deep_view()));
    shell::quote_all(&words)
}

/// What a Feature with some options is known by.
pub open spec fn keyed(id: Seq<char>, options: Seq<(Seq<char>, JsonModel)>) -> Seq<char> {
    shell::command_line(seq![id] + option_words(options))
}

/// What a Feature that was asked for, but not yet fetched, is known by.
pub fn request_key(id: &str, options: &StrMap<Json>) -> (r: String)
    ensures
        r@ == keyed(id@, options.deep_view()),
{
    let mut first: Vec<String> = Vec::new();
    text::push_str(&mut first, id);
    assert(first.deep_view() =~= seq![id@]);
    let words = words_of(first, options);
    shell::quote_all(&words)
}

proof fn lemma_words_tell_options_apart(a: Seq<(Seq<char>, JsonModel)>, b: Seq<(Seq<char>, JsonModel)>)
    ensures
        option_words(a) == option_words(b) <==> rendered(a) == rendered(b),
{
    let (u, v) = (option_words(a), option_words(b));
    let (x, y) = (rendered(a), rendered(b));
    if u == v {
        assert(a.len() == b.len());
        assert forall|i: int| 0 <= i < a.len() implies x[i] == y[i] by {
            assert(u[2 * i] == v[2 * i]);
            assert(u[2 * i + 1] == v[2 * i + 1]);
            assert((2 * i) / 2 == i && (2 * i + 1) / 2 == i);
        }
        assert(x =~= y);
    }
    if x == y {
        assert(a.len() == x.len() && b.len() == y.len());
        assert forall|i: int| 0 <= i < u.len() implies u[i] == v[i] by {
            assert(x[i / 2] == y[i / 2]);
        }
        assert(u =~= v);
    }
}

/// Two lists of options are written alike only where they ask for the same, and so are two requests:
/// the same id with the same options is one, and anything else is two.
pub proof fn law_keys_tell_requests_apart(
    id: Seq<char>,
    options: Seq<(Seq<char>, JsonModel)>,
    other_id: Seq<char>,
    other: Seq<(Seq<char>, JsonModel)>,
)
    ensures
        options_line(options) == options_line(other) <==> rendered(options) == rendered(other),
        keyed(id, options) == keyed(other_id, other) <==> id == other_id && rendered(options) == rendered(other),
{
    let (a, b) = (option_words(options), option_words(other));
    let (c, d) = (seq![id] + a, seq![other_id] + b);
    lemma_words_tell_options_apart(options, other);
    shell::law_words_are_read_as_written(a);
    shell::law_words_are_read_as_written(b);
    shell::law_words_are_read_as_written(c);
    shell::law_words_are_read_as_written(d);
    assert(c.drop_first() =~= a && d.drop_first() =~= b);
    assert(c[0] == id && d[0] == other_id);
}

// ----------------------------------------------------------------------------------------------
// Resolved Features
// ----------------------------------------------------------------------------------------------

/// A Feature that is ready to be installed.
#[derive(Debug, PartialEq)]
pub struct ResolvedFeature {
    pub reference: FeatureRef,
    pub metadata: FeatureMetadata,
    /// The whole `devcontainer-feature.json`.
    pub raw: Json,
    /// The variables for the install script, with the defaults applied.
    pub options: StrMap<String>,
    /// The options as they were written.
    pub supplied: StrMap<Json>,
    /// What the contents are known by: a digest, or the path of a local Feature.
    pub digest: String,
    /// The keys of the Features that this one depends on.
    pub hard_deps: Vec<String>,
}

/// What a [`ResolvedFeature`] stands for.
pub struct ResolvedModel {
    pub reference: RefModel,
    pub metadata: MetadataModel,
    pub raw: JsonModel,
    pub options: Seq<(Seq<char>, Seq<char>)>,
    pub supplied: Seq<(Seq<char>, JsonModel)>,
    pub digest: Seq<char>,
    pub hard_deps: Seq<Seq<char>>,
}

impl DeepView for ResolvedFeature {
    type V = ResolvedModel;

    open spec fn deep_view(&self) -> ResolvedModel {
        ResolvedModel {
            reference: self.reference.deep_view(),
            metadata: self.metadata.deep_view(),
            raw: self.raw@,
            options: self.options.deep_view(),
            supplied: self.supplied.deep_view(),
            digest: self.digest@,
            hard_deps: self.hard_deps.deep_view(),
        }
    }
}

impl Duplicate for ResolvedFeature {
    fn duplicate(&self) -> (r: Self) {
        ResolvedFeature {
            reference: self.reference.duplicate(),
            metadata: self.metadata.duplicate(),
            raw: self.raw.copy(),
            options: self.options.duplicate(),
            supplied: self.supplied.duplicate(),
            digest: self.digest.clone(),
            hard_deps: self.hard_deps.duplicate(),
        }
    }
}

/// A name as a directory: with an underscore for everything but letters and digits.
pub open spec fn directory_name(name: Seq<char>) -> Seq<char> {
    name.map_values(
        |c: char|
            if text::alphanumeric(c) {
                c
            } else {
                '_'
            },
    )
}

fn directory(name: &str) -> (r: String)
    ensures
        r@ == directory_name(name@),
{
    let cs = text::chars(name);
    let mut out: Vec<char> = Vec::new();
    let mut i: usize = 0;
    while i < cs.len()
        invariant
            i <= cs.len(),
            out@ == directory_name(cs@.subrange(0, i as int)),
        decreases cs.len() - i,
    {
        let c = cs[i];
        if text::is_alphanumeric(c) {
            out.push(c);
        } else {
            out.push('_');
        }
        i = i + 1;
        assert(out@ =~= directory_name(cs@.subrange(0, i as int)));
    }
    assert(cs@.subrange(0, cs@.len() as int) =~= cs@);
    text::from_chars(&out)
}

impl ResolvedModel {
    /// What the Feature is known by: its contents and its options, not the id it was written as.
    pub open spec fn key(self) -> Seq<char> {
        keyed(self.digest, self.supplied)
    }

    /// The Feature's directory in the build context.
    pub open spec fn dir_name(self, index: nat) -> Seq<char> {
        let name = match self.metadata.id {
            Some(id) => id,
            None => self.reference.name(),
        };
        directory_name(name) + "_"@ + text::decimal(index)
    }

    /// The Feature's contribution to the image's label.
    pub open spec fn label_snippet(self) -> JsonModel {
        JsonModel::Object(
            seq![("id"@, JsonModel::Str(self.reference.raw))] + properties(self.raw, feature_keys()),
        )
    }
}

impl ResolvedFeature {
    /// What the Feature is known by.
    pub fn key(&self) -> (r: String)
        ensures
            r@ == self.deep_view().key(),
    {
        request_key(self.digest.as_str(), &self.supplied)
    }

    /// The Feature's directory in the build context, `index` being its place among all.
    pub fn dir_name(&self, index: usize) -> (r: String)
        ensures
            r@ == self.deep_view().dir_name(index as nat),
    {
        let name = match &self.metadata.id {
            Some(id) => directory(id.as_str()),
            None => directory(self.reference.name()),
        };
        let number = text::decimal_of(index as u64);
        text::cat3(name.as_str(), "_", number.as_str())
    }

    /// The Feature's contribution to the image's label. It goes under the id as it was written.
    pub fn label_snippet(&self) -> (r: Json)
        ensures
            r@ == self.deep_view().label_snippet(),
    {
        broadcast use crate::json::lemma_object_view;

        let mut o: Vec<(String, Json)> = Vec::new();
        assert(json::members_model(o@) =~= Seq::empty());
        json::push_member(&mut o, "id", Json::Str(self.reference.raw.clone()));
        assert(json::members_model(o@) =~= seq![("id"@, JsonModel::Str(self.reference.raw@))]);
        let keys = feature_metadata_keys();
        let more = metadata_properties(&self.raw, &keys);
        append_members(&mut o, more);
        Json::Object(o)
    }
}

// ----------------------------------------------------------------------------------------------
// Labels
// ----------------------------------------------------------------------------------------------

/// The properties that a Feature leaves in the label, in order. Its `containerEnv` is not among them:
/// the image holds it already.
pub open spec fn feature_keys() -> Seq<Seq<char>> {
    seq![
        "onCreateCommand"@,
        "updateContentCommand"@,
        "postCreateCommand"@,
        "postStartCommand"@,
        "postAttachCommand"@,
        "init"@,
        "privileged"@,
        "capAdd"@,
        "securityOpt"@,
        "entrypoint"@,
        "mounts"@,
        "customizations"@,
    ]
}

/// The properties that a `devcontainer.json` leaves in the label, in order.
pub open spec fn config_keys() -> Seq<Seq<char>> {
    seq![
        "onCreateCommand"@,
        "updateContentCommand"@,
        "postCreateCommand"@,
        "postStartCommand"@,
        "postAttachCommand"@,
        "waitFor"@,
        "customizations"@,
        "mounts"@,
        "containerEnv"@,
        "containerUser"@,
        "init"@,
        "privileged"@,
        "capAdd"@,
        "securityOpt"@,
        "remoteUser"@,
        "userEnvProbe"@,
        "remoteEnv"@,
        "overrideCommand"@,
        "portsAttributes"@,
        "otherPortsAttributes"@,
        "forwardPorts"@,
        "shutdownAction"@,
        "updateRemoteUserUID"@,
        "hostRequirements"@,
    ]
}

/// The properties that a Feature leaves in the label.
pub fn feature_metadata_keys() -> (r: Vec<String>)
    ensures
        r.deep_view() == feature_keys(),
{
    let mut v: Vec<String> = Vec::new();
    text::push_str(&mut v, "onCreateCommand");
    text::push_str(&mut v, "updateContentCommand");
    text::push_str(&mut v, "postCreateCommand");
    text::push_str(&mut v, "postStartCommand");
    text::push_str(&mut v, "postAttachCommand");
    text::push_str(&mut v, "init");
    text::push_str(&mut v, "privileged");
    text::push_str(&mut v, "capAdd");
    text::push_str(&mut v, "securityOpt");
    text::push_str(&mut v, "entrypoint");
    text::push_str(&mut v, "mounts");
    text::push_str(&mut v, "customizations");
    assert(v.deep_view() =~= feature_keys());
    v
}

/// The properties that a `devcontainer.json` leaves in the label.
pub fn config_metadata_keys() -> (r: Vec<String>)
    ensures
        r.deep_view() == config_keys(),
{
    let mut v: Vec<String> = Vec::new();
    text::push_str(&mut v, "onCreateCommand");
    text::push_str(&mut v, "updateContentCommand");
    text::push_str(&mut v, "postCreateCommand");
    text::push_str(&mut v, "postStartCommand");
    text::push_str(&mut v, "postAttachCommand");
    text::push_str(&mut v, "waitFor");
    text::push_str(&mut v, "customizations");
    text::push_str(&mut v, "mounts");
    text::push_str(&mut v, "containerEnv");
    text::push_str(&mut v, "containerUser");
    text::push_str(&mut v, "init");
    text::push_str(&mut v, "privileged");
    text::push_str(&mut v, "capAdd");
    text::push_str(&mut v, "securityOpt");
    text::push_str(&mut v, "remoteUser");
    text::push_str(&mut v, "userEnvProbe");
    text::push_str(&mut v, "remoteEnv");
    text::push_str(&mut v, "overrideCommand");
    text::push_str(&mut v, "portsAttributes");
    text::push_str(&mut v, "otherPortsAttributes");
    text::push_str(&mut v, "forwardPorts");
    text::push_str(&mut v, "shutdownAction");
    text::push_str(&mut v, "updateRemoteUserUID");
    text::push_str(&mut v, "hostRequirements");
    assert(v.deep_view() =~= config_keys());
    v
}

/// The members of `raw` under some keys, in the order of the keys.
pub open spec fn properties(raw: JsonModel, keys: Seq<Seq<char>>) -> Seq<(Seq<char>, JsonModel)>
    decreases keys.len(),
{
    if keys.len() == 0 {
        Seq::empty()
    } else {
        let rest = properties(raw, keys.drop_last());
        match raw.member(keys.last()) {
            Some(v) => rest.push((keys.last(), v)),
            None => rest,
        }
    }
}

/// The members of `raw` under some keys, in the order of the keys.
pub fn metadata_properties(raw: &Json, keys: &Vec<String>) -> (r: Vec<(String, Json)>)
    ensures
        json::members_model(r@) == properties(raw@, keys.deep_view()),
{
    let ghost k = keys.deep_view();
    let mut out: Vec<(String, Json)> = Vec::new();
    let mut i: usize = 0;
    assert(json::members_model(out@) =~= properties(raw@, k.subrange(0, 0)));
    while i < keys.len()
        invariant
            k == keys.deep_view(),
            i <= keys.len(),
            json::members_model(out@) == properties(raw@, k.subrange(0, i as int)),
        decreases keys.len() - i,
    {
        assert(k.subrange(0, i + 1).drop_last() =~= k.subrange(0, i as int));
        assert(k[i as int] == keys@[i as int]@);
        match raw.get(keys[i].as_str()) {
            Some(v) => {
                json::push_member(&mut out, keys[i].as_str(), v.copy());
            },
            None => {},
        }
        i = i + 1;
    }
    assert(k.subrange(0, k.len() as int) =~= k);
    out
}

fn append_members(o: &mut Vec<(String, Json)>, more: Vec<(String, Json)>)
    ensures
        json::members_model(final(o)@) == json::members_model(old(o)@) + json::members_model(more@),
{
    let ghost base = json::members_model(o@);
    let ghost m = json::members_model(more@);
    let mut i: usize = 0;
    assert(base + m.subrange(0, 0) =~= base);
    while i < more.len()
        invariant
            m == json::members_model(more@),
            i <= more.len(),
            json::members_model(o@) == base + m.subrange(0, i as int),
        decreases more.len() - i,
    {
        json::push_member(o, more[i].0.as_str(), more[i].1.copy());
        assert(base + m.subrange(0, i + 1) =~= (base + m.subrange(0, i as int)).push(m[i as int]));
        i = i + 1;
    }
    assert(m.subrange(0, m.len() as int) =~= m);
}

/// A `devcontainer.json` reduced to what it leaves in the label.
pub fn config_label_snippet(raw: &Json) -> (r: Json)
    ensures
        r@ == JsonModel::Object(properties(raw@, config_keys())),
{
    broadcast use crate::json::lemma_object_view;

    let keys = config_metadata_keys();
    Json::Object(metadata_properties(raw, &keys))
}

// ----------------------------------------------------------------------------------------------
// What a Feature says
// ----------------------------------------------------------------------------------------------

/// Everything in a Feature's metadata is what the object says under its own name. An option is there under
/// its name, with its default where it has one that is not null.
pub proof fn law_metadata_says_what_it_spells(o: Seq<(Seq<char>, JsonModel)>)
    ensures
        metadata_of(JsonModel::Object(o)) matches Some(m) ==> {
            &&& decode::spells_text(json::lookup(o, "id"@), m.id)
            &&& decode::spells_text(json::lookup(o, "version"@), m.version)
            &&& decode::spells_text(json::lookup(o, "name"@), m.name)
            &&& decode::spells_text(json::lookup(o, "description"@), m.description)
            &&& decode::spells_text(json::lookup(o, "documentationUrl"@), m.documentation_url)
            &&& decode::spells_texts(json::lookup(o, "installsAfter"@), m.installs_after)
            &&& decode::spells_map(json::lookup(o, "options"@), m.options, |v: JsonModel| option_of(v))
            &&& json::lookup(o, "dependsOn"@) is None || json::lookup(o, "dependsOn"@) == Some(JsonModel::Null)
                ==> m.depends_on is None
            &&& json::lookup(o, "dependsOn"@) matches Some(d) ==> !(d is Null) ==> m.depends_on == Some(d)
        },
{
    decode::law_what_is_read_is_what_is_there(json::lookup(o, "id"@));
    decode::law_what_is_read_is_what_is_there(json::lookup(o, "version"@));
    decode::law_what_is_read_is_what_is_there(json::lookup(o, "name"@));
    decode::law_what_is_read_is_what_is_there(json::lookup(o, "description"@));
    decode::law_what_is_read_is_what_is_there(json::lookup(o, "documentationUrl"@));
    decode::law_what_is_read_is_what_is_there(json::lookup(o, "installsAfter"@));
    match json::lookup(o, "options"@) {
        Some(JsonModel::Object(a)) => {
            if options_of(Some(JsonModel::Object(a))) is Some {
                let p = a.map_values(|m: (Seq<char>, JsonModel)| (m.0, option_of(m.1)->0));
                decode::lemma_spells_map(a, p, |v: JsonModel| option_of(v));
            }
        },
        _ => {},
    }
}

/// The default of an option is what its object says under `default`, where that is not null.
pub proof fn law_an_option_has_its_default(o: Seq<(Seq<char>, JsonModel)>)
    ensures
        option_of(JsonModel::Object(o)) is Some,
        json::lookup(o, "default"@) matches Some(d) ==> !(d is Null) ==> option_of(JsonModel::Object(o))->0.default
            == Some(d),
        json::lookup(o, "default"@) is None || json::lookup(o, "default"@) == Some(JsonModel::Null) ==> option_of(
            JsonModel::Object(o),
        )->0.default is None,
{
}

/// The variable of an option whose name begins with a letter has the name in capitals, character by
/// character, with an underscore for what no variable can hold.
pub proof fn law_a_variable_is_its_options_name(name: Seq<char>, i: int)
    requires
        0 <= i < name.len(),
        'a' <= name[0] <= 'z' || 'A' <= name[0] <= 'Z',
    ensures
        env_name(name).len() == name.len(),
        'a' <= name[i] <= 'z' ==> env_name(name)[i] as int == name[i] as int - 32,
        'A' <= name[i] <= 'Z' || '0' <= name[i] <= '9' || name[i] == '_' ==> env_name(name)[i] == name[i],
        !('a' <= name[i] <= 'z' || 'A' <= name[i] <= 'Z' || '0' <= name[i] <= '9' || name[i] == '_') ==> env_name(
            name,
        )[i] == '_',
{
    let shell = name.map_values(|c: char| shell_char(c));
    assert(shell[0] == shell_char(name[0]));
    assert(from_first_letter(shell) == shell);
    assert(shell[i] == shell_char(name[i]));
}

/// The variable of an option holds its default where nothing is supplied for it: the default of the last
/// option that has one and shares the variable.
pub proof fn law_defaults_fill_in(
    options: Seq<(Seq<char>, OptionModel)>,
    supplied: Seq<(Seq<char>, JsonModel)>,
    i: int,
)
    requires
        0 <= i < options.len(),
        options[i].1.default is Some,
        forall|j: int|
            i < j < options.len() && (#[trigger] options[j]).1.default is Some ==> env_name(options[j].0) != env_name(
                options[i].0,
            ),
        forall|j: int| 0 <= j < supplied.len() ==> env_name((#[trigger] supplied[j]).0) != env_name(options[i].0),
    ensures
        strmap::get(supplied_over(default_options(options), supplied), env_name(options[i].0)) == Some(
            option_text(options[i].1.default->0),
        ),
{
    lemma_defaults(options, i);
    lemma_unsupplied(default_options(options), supplied, env_name(options[i].0));
}

proof fn lemma_defaults_sorted(options: Seq<(Seq<char>, OptionModel)>)
    ensures
        strmap::sorted(default_options(options)),
    decreases options.len(),
{
    if options.len() > 0 {
        lemma_defaults_sorted(options.drop_last());
        match options.last().1.default {
            Some(d) => {
                strmap::lemma_insert_sorted(
                    default_options(options.drop_last()),
                    env_name(options.last().0),
                    option_text(d),
                );
            },
            None => {},
        }
    }
}

proof fn lemma_defaults(options: Seq<(Seq<char>, OptionModel)>, i: int)
    requires
        0 <= i < options.len(),
        options[i].1.default is Some,
        forall|j: int|
            i < j < options.len() && (#[trigger] options[j]).1.default is Some ==> env_name(options[j].0) != env_name(
                options[i].0,
            ),
    ensures
        strmap::sorted(default_options(options)),
        strmap::get(default_options(options), env_name(options[i].0)) == Some(
            option_text(options[i].1.default->0),
        ),
    decreases options.len(),
{
    let front = options.drop_last();
    let last = options.len() - 1;
    lemma_defaults_sorted(options);
    lemma_defaults_sorted(front);
    assert(options[last] == options.last());
    let q = env_name(options[i].0);
    match options.last().1.default {
        Some(d) => {
            strmap::lemma_get_after_insert(default_options(front), env_name(options.last().0), option_text(d), q);
        },
        None => {},
    }
    if i < last {
        assert(front[i] == options[i]);
        assert forall|j: int|
            i < j < front.len() && (#[trigger] front[j]).1.default is Some implies env_name(front[j].0) != env_name(
            front[i].0,
        ) by {
            assert(front[j] == options[j]);
        }
        lemma_defaults(front, i);
    }
}

proof fn lemma_unsupplied(base: Seq<(Seq<char>, Seq<char>)>, supplied: Seq<(Seq<char>, JsonModel)>, q: Seq<char>)
    requires
        strmap::sorted(base),
        forall|j: int| 0 <= j < supplied.len() ==> env_name((#[trigger] supplied[j]).0) != q,
    ensures
        strmap::get(supplied_over(base, supplied), q) == strmap::get(base, q),
    decreases supplied.len(),
{
    if supplied.len() > 0 {
        let front = supplied.drop_last();
        assert(supplied[supplied.len() - 1] == supplied.last());
        assert forall|j: int| 0 <= j < front.len() implies env_name((#[trigger] front[j]).0) != q by {
            assert(front[j] == supplied[j]);
        }
        lemma_unsupplied(base, front, q);
        lemma_supplied_sorted(base, front);
        strmap::lemma_get_after_insert(
            supplied_over(base, front),
            env_name(supplied.last().0),
            option_text(supplied.last().1),
            q,
        );
    }
}

/// An option's value reaches the script as text: a text as it is, without quotes, nothing for null, and any
/// other value as JSON writes it.
pub proof fn law_values_are_texts(s: Seq<char>, b: bool, n: Seq<char>)
    ensures
        option_text(JsonModel::Str(s)) == s,
        option_text(JsonModel::Null).len() == 0,
        option_text(JsonModel::Bool(b)) == json::compact(JsonModel::Bool(b)),
        option_text(JsonModel::Number(n)) == json::compact(JsonModel::Number(n)),
{
}

/// No two Features share a directory in the build context, whatever they are called.
pub proof fn law_every_feature_has_its_own_directory(f: ResolvedModel, g: ResolvedModel, i: nat, j: nat)
    requires
        i != j,
    ensures
        f.dir_name(i) != g.dir_name(j),
{
    if f.dir_name(i) == g.dir_name(j) {
        let a = f.dir_name(i);
        text::law_decimals_are_read_back(i);
        text::law_decimals_are_read_back(j);
        let name = match f.metadata.id {
            Some(id) => id,
            None => f.reference.name(),
        };
        let other = match g.metadata.id {
            Some(id) => id,
            None => g.reference.name(),
        };
        lemma_after_underscore(directory_name(name), text::decimal(i));
        lemma_after_underscore(directory_name(other), text::decimal(j));
        assert(text::decimal(i) == text::decimal(j));
    }
}

proof fn lemma_after_underscore(x: Seq<char>, d: Seq<char>)
    requires
        forall|k: int| 0 <= k < d.len() ==> text::is_digit(#[trigger] d[k]),
    ensures
        ({
            let s = x + "_"@ + d;
            s.subrange(text::last_end(s, '_') as int, s.len() as int) == d
        }),
{
    reveal_strlit("_");
    let s = x + "_"@ + d;
    let e = x.len() as int + 1;
    assert(s[e - 1] == '_');
    assert forall|k: int| e <= k < s.len() implies s[k] != '_' by {
        assert(s[k] == d[k - e]);
    }
    text::lemma_last_end_is(s, '_', e);
    assert(s.subrange(e, s.len() as int) =~= d);
}

/// A Feature's directory is named after its own id, or after its reference where it has none.
pub proof fn law_a_directory_is_named_after_its_feature(f: ResolvedModel, index: nat, i: int)
    ensures
        ({
            let name = match f.metadata.id {
                Some(id) => id,
                None => f.reference.name(),
            };
            let d = f.dir_name(index);
            &&& d.len() == name.len() + 1 + text::decimal(index).len()
            &&& 0 <= i < name.len() && text::alphanumeric(name[i]) ==> d[i] == name[i]
            &&& 0 <= i < name.len() && !text::alphanumeric(name[i]) ==> d[i] == '_'
        }),
{
    reveal_strlit("_");
}

proof fn lemma_properties(raw: JsonModel, keys: Seq<Seq<char>>, k: Seq<char>)
    ensures
        json::lookup(properties(raw, keys), k) == (if keys.contains(k) {
            raw.member(k)
        } else {
            None
        }),
    decreases keys.len(),
{
    if keys.len() > 0 {
        let front = keys.drop_last();
        let last = keys.len() - 1;
        let rest = properties(raw, front);
        lemma_properties(raw, front, k);
        assert(keys[last] == keys.last());
        assert(front.contains(k) ==> keys.contains(k)) by {
            if front.contains(k) {
                let i = choose|i: int| 0 <= i < front.len() && front[i] == k;
                assert(keys[i] == k);
            }
        }
        assert(keys.contains(k) ==> front.contains(k) || k == keys.last()) by {
            if keys.contains(k) {
                let i = choose|i: int| 0 <= i < keys.len() && keys[i] == k;
                if i < last {
                    assert(front[i] == k);
                }
            }
        }
        match raw.member(keys.last()) {
            Some(v) => {
                let one = seq![(keys.last(), v)];
                assert(properties(raw, keys) =~= rest + one);
                json::lemma_lookup_in_either(rest, one, k);
                reveal_with_fuel(json::lookup, 2);
                assert(one.drop_first() =~= Seq::<(Seq<char>, JsonModel)>::empty());
            },
            None => {},
        }
    }
}

/// What a Feature leaves in the label: the id it was written as, and of its metadata its hooks, the
/// privileges it asks for, its entrypoint, its mounts and its customizations, each as it is. Its environment
/// is not among them: the image holds it already.
pub proof fn law_a_feature_leaves_its_properties(f: ResolvedModel)
    ensures
        ({
            let l = f.label_snippet();
            &&& l.member("id"@) == Some(JsonModel::Str(f.reference.raw))
            &&& l.member("onCreateCommand"@) == f.raw.member("onCreateCommand"@)
            &&& l.member("updateContentCommand"@) == f.raw.member("updateContentCommand"@)
            &&& l.member("postCreateCommand"@) == f.raw.member("postCreateCommand"@)
            &&& l.member("postStartCommand"@) == f.raw.member("postStartCommand"@)
            &&& l.member("postAttachCommand"@) == f.raw.member("postAttachCommand"@)
            &&& l.member("init"@) == f.raw.member("init"@)
            &&& l.member("privileged"@) == f.raw.member("privileged"@)
            &&& l.member("capAdd"@) == f.raw.member("capAdd"@)
            &&& l.member("securityOpt"@) == f.raw.member("securityOpt"@)
            &&& l.member("entrypoint"@) == f.raw.member("entrypoint"@)
            &&& l.member("mounts"@) == f.raw.member("mounts"@)
            &&& l.member("customizations"@) == f.raw.member("customizations"@)
            &&& l.member("containerEnv"@) is None
        }),
{
    let keys = feature_keys();
    let p = properties(f.raw, keys);
    let one = seq![("id"@, JsonModel::Str(f.reference.raw))];
    reveal_strlit("id");
    reveal_with_fuel(json::lookup, 2);
    assert(one.drop_first() =~= Seq::<(Seq<char>, JsonModel)>::empty());
    json::lemma_lookup_in_either(one, p, "id"@);
    reveal_strlit("onCreateCommand");
    assert(keys[0] == "onCreateCommand"@);
    assert("onCreateCommand"@.len() == 15);
    lemma_properties(f.raw, keys, "onCreateCommand"@);
    json::lemma_lookup_in_either(one, p, "onCreateCommand"@);
    reveal_strlit("updateContentCommand");
    assert(keys[1] == "updateContentCommand"@);
    assert("updateContentCommand"@.len() == 20);
    lemma_properties(f.raw, keys, "updateContentCommand"@);
    json::lemma_lookup_in_either(one, p, "updateContentCommand"@);
    reveal_strlit("postCreateCommand");
    assert(keys[2] == "postCreateCommand"@);
    assert("postCreateCommand"@.len() == 17);
    lemma_properties(f.raw, keys, "postCreateCommand"@);
    json::lemma_lookup_in_either(one, p, "postCreateCommand"@);
    reveal_strlit("postStartCommand");
    assert(keys[3] == "postStartCommand"@);
    assert("postStartCommand"@.len() == 16);
    lemma_properties(f.raw, keys, "postStartCommand"@);
    json::lemma_lookup_in_either(one, p, "postStartCommand"@);
    reveal_strlit("postAttachCommand");
    assert(keys[4] == "postAttachCommand"@);
    assert("postAttachCommand"@.len() == 17);
    lemma_properties(f.raw, keys, "postAttachCommand"@);
    json::lemma_lookup_in_either(one, p, "postAttachCommand"@);
    reveal_strlit("init");
    assert(keys[5] == "init"@);
    assert("init"@.len() == 4);
    lemma_properties(f.raw, keys, "init"@);
    json::lemma_lookup_in_either(one, p, "init"@);
    reveal_strlit("privileged");
    assert(keys[6] == "privileged"@);
    assert("privileged"@.len() == 10);
    lemma_properties(f.raw, keys, "privileged"@);
    json::lemma_lookup_in_either(one, p, "privileged"@);
    reveal_strlit("capAdd");
    assert(keys[7] == "capAdd"@);
    assert("capAdd"@.len() == 6);
    lemma_properties(f.raw, keys, "capAdd"@);
    json::lemma_lookup_in_either(one, p, "capAdd"@);
    reveal_strlit("securityOpt");
    assert(keys[8] == "securityOpt"@);
    assert("securityOpt"@.len() == 11);
    lemma_properties(f.raw, keys, "securityOpt"@);
    json::lemma_lookup_in_either(one, p, "securityOpt"@);
    reveal_strlit("entrypoint");
    assert(keys[9] == "entrypoint"@);
    assert("entrypoint"@.len() == 10);
    lemma_properties(f.raw, keys, "entrypoint"@);
    json::lemma_lookup_in_either(one, p, "entrypoint"@);
    reveal_strlit("mounts");
    assert(keys[10] == "mounts"@);
    assert("mounts"@.len() == 6);
    lemma_properties(f.raw, keys, "mounts"@);
    json::lemma_lookup_in_either(one, p, "mounts"@);
    reveal_strlit("customizations");
    assert(keys[11] == "customizations"@);
    assert("customizations"@.len() == 14);
    lemma_properties(f.raw, keys, "customizations"@);
    json::lemma_lookup_in_either(one, p, "customizations"@);
    reveal_strlit("containerEnv");
    assert("containerEnv"@.len() == 12 && "containerEnv"@[0] == 'c');
    lemma_properties(f.raw, keys, "containerEnv"@);
    json::lemma_lookup_in_either(one, p, "containerEnv"@);
    assert forall|i: int| 0 <= i < keys.len() implies #[trigger] keys[i] != "containerEnv"@ by {}
}

/// What a config leaves in the label, each as it is.
pub proof fn law_a_config_leaves_its_properties(raw: JsonModel)
    ensures
        json::lookup(properties(raw, config_keys()), "onCreateCommand"@) == raw.member("onCreateCommand"@),
        json::lookup(properties(raw, config_keys()), "updateContentCommand"@) == raw.member("updateContentCommand"@),
        json::lookup(properties(raw, config_keys()), "postCreateCommand"@) == raw.member("postCreateCommand"@),
        json::lookup(properties(raw, config_keys()), "postStartCommand"@) == raw.member("postStartCommand"@),
        json::lookup(properties(raw, config_keys()), "postAttachCommand"@) == raw.member("postAttachCommand"@),
        json::lookup(properties(raw, config_keys()), "waitFor"@) == raw.member("waitFor"@),
        json::lookup(properties(raw, config_keys()), "customizations"@) == raw.member("customizations"@),
        json::lookup(properties(raw, config_keys()), "mounts"@) == raw.member("mounts"@),
        json::lookup(properties(raw, config_keys()), "containerEnv"@) == raw.member("containerEnv"@),
        json::lookup(properties(raw, config_keys()), "containerUser"@) == raw.member("containerUser"@),
        json::lookup(properties(raw, config_keys()), "init"@) == raw.member("init"@),
        json::lookup(properties(raw, config_keys()), "privileged"@) == raw.member("privileged"@),
        json::lookup(properties(raw, config_keys()), "capAdd"@) == raw.member("capAdd"@),
        json::lookup(properties(raw, config_keys()), "securityOpt"@) == raw.member("securityOpt"@),
        json::lookup(properties(raw, config_keys()), "remoteUser"@) == raw.member("remoteUser"@),
        json::lookup(properties(raw, config_keys()), "userEnvProbe"@) == raw.member("userEnvProbe"@),
        json::lookup(properties(raw, config_keys()), "remoteEnv"@) == raw.member("remoteEnv"@),
        json::lookup(properties(raw, config_keys()), "overrideCommand"@) == raw.member("overrideCommand"@),
        json::lookup(properties(raw, config_keys()), "portsAttributes"@) == raw.member("portsAttributes"@),
        json::lookup(properties(raw, config_keys()), "otherPortsAttributes"@) == raw.member("otherPortsAttributes"@),
        json::lookup(properties(raw, config_keys()), "forwardPorts"@) == raw.member("forwardPorts"@),
        json::lookup(properties(raw, config_keys()), "shutdownAction"@) == raw.member("shutdownAction"@),
        json::lookup(properties(raw, config_keys()), "updateRemoteUserUID"@) == raw.member("updateRemoteUserUID"@),
        json::lookup(properties(raw, config_keys()), "hostRequirements"@) == raw.member("hostRequirements"@),
        json::lookup(properties(raw, config_keys()), "features"@) is None,
        json::lookup(properties(raw, config_keys()), "image"@) is None,
{
    let keys = config_keys();
    assert(keys[0] == "onCreateCommand"@);
    lemma_properties(raw, keys, "onCreateCommand"@);
    assert(keys[1] == "updateContentCommand"@);
    lemma_properties(raw, keys, "updateContentCommand"@);
    assert(keys[2] == "postCreateCommand"@);
    lemma_properties(raw, keys, "postCreateCommand"@);
    assert(keys[3] == "postStartCommand"@);
    lemma_properties(raw, keys, "postStartCommand"@);
    assert(keys[4] == "postAttachCommand"@);
    lemma_properties(raw, keys, "postAttachCommand"@);
    assert(keys[5] == "waitFor"@);
    lemma_properties(raw, keys, "waitFor"@);
    assert(keys[6] == "customizations"@);
    lemma_properties(raw, keys, "customizations"@);
    assert(keys[7] == "mounts"@);
    lemma_properties(raw, keys, "mounts"@);
    assert(keys[8] == "containerEnv"@);
    lemma_properties(raw, keys, "containerEnv"@);
    assert(keys[9] == "containerUser"@);
    lemma_properties(raw, keys, "containerUser"@);
    assert(keys[10] == "init"@);
    lemma_properties(raw, keys, "init"@);
    assert(keys[11] == "privileged"@);
    lemma_properties(raw, keys, "privileged"@);
    assert(keys[12] == "capAdd"@);
    lemma_properties(raw, keys, "capAdd"@);
    assert(keys[13] == "securityOpt"@);
    lemma_properties(raw, keys, "securityOpt"@);
    assert(keys[14] == "remoteUser"@);
    lemma_properties(raw, keys, "remoteUser"@);
    assert(keys[15] == "userEnvProbe"@);
    lemma_properties(raw, keys, "userEnvProbe"@);
    assert(keys[16] == "remoteEnv"@);
    lemma_properties(raw, keys, "remoteEnv"@);
    assert(keys[17] == "overrideCommand"@);
    lemma_properties(raw, keys, "overrideCommand"@);
    assert(keys[18] == "portsAttributes"@);
    lemma_properties(raw, keys, "portsAttributes"@);
    assert(keys[19] == "otherPortsAttributes"@);
    lemma_properties(raw, keys, "otherPortsAttributes"@);
    assert(keys[20] == "forwardPorts"@);
    lemma_properties(raw, keys, "forwardPorts"@);
    assert(keys[21] == "shutdownAction"@);
    lemma_properties(raw, keys, "shutdownAction"@);
    assert(keys[22] == "updateRemoteUserUID"@);
    lemma_properties(raw, keys, "updateRemoteUserUID"@);
    assert(keys[23] == "hostRequirements"@);
    lemma_properties(raw, keys, "hostRequirements"@);
    lemma_not_left();
    lemma_properties(raw, keys, "features"@);
    lemma_properties(raw, keys, "image"@);
}

proof fn lemma_not_left()
    ensures
        !config_keys().contains("features"@),
        !config_keys().contains("image"@),
{
    let keys = config_keys();
    reveal_strlit("features");
    reveal_strlit("image");
    assert("features"@.len() == 8 && "image"@.len() == 5);
    reveal_strlit("onCreateCommand");
    assert("onCreateCommand"@.len() == 15);
    reveal_strlit("updateContentCommand");
    assert("updateContentCommand"@.len() == 20);
    reveal_strlit("postCreateCommand");
    assert("postCreateCommand"@.len() == 17);
    reveal_strlit("postStartCommand");
    assert("postStartCommand"@.len() == 16);
    reveal_strlit("postAttachCommand");
    assert("postAttachCommand"@.len() == 17);
    reveal_strlit("waitFor");
    assert("waitFor"@.len() == 7);
    reveal_strlit("customizations");
    assert("customizations"@.len() == 14);
    reveal_strlit("mounts");
    assert("mounts"@.len() == 6);
    reveal_strlit("containerEnv");
    assert("containerEnv"@.len() == 12);
    reveal_strlit("containerUser");
    assert("containerUser"@.len() == 13);
    reveal_strlit("init");
    assert("init"@.len() == 4);
    reveal_strlit("privileged");
    assert("privileged"@.len() == 10);
    reveal_strlit("capAdd");
    assert("capAdd"@.len() == 6);
    reveal_strlit("securityOpt");
    assert("securityOpt"@.len() == 11);
    reveal_strlit("remoteUser");
    assert("remoteUser"@.len() == 10);
    reveal_strlit("userEnvProbe");
    assert("userEnvProbe"@.len() == 12);
    reveal_strlit("remoteEnv");
    assert("remoteEnv"@.len() == 9);
    reveal_strlit("overrideCommand");
    assert("overrideCommand"@.len() == 15);
    reveal_strlit("portsAttributes");
    assert("portsAttributes"@.len() == 15);
    reveal_strlit("otherPortsAttributes");
    assert("otherPortsAttributes"@.len() == 20);
    reveal_strlit("forwardPorts");
    assert("forwardPorts"@.len() == 12);
    reveal_strlit("shutdownAction");
    assert("shutdownAction"@.len() == 14);
    reveal_strlit("updateRemoteUserUID");
    assert("updateRemoteUserUID"@.len() == 19);
    reveal_strlit("hostRequirements");
    assert("hostRequirements"@.len() == 16);
    assert forall|i: int| 0 <= i < keys.len() implies #[trigger] keys[i] != "features"@ && keys[i] != "image"@ by {}
}

} // verus!
