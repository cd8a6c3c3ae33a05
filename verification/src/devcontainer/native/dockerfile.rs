//! The build context and the Dockerfile that install Features into a base image.
//!
//! One stage copies the staged Features out of the context and runs them in order. What a Feature
//! relies on while it is installed stands in files beside its script:
//!
//! ```text
//! /tmp/dev-container-features/devcontainer-features.builtin.env            the users
//! /tmp/dev-container-features/<name>_<n>/install.sh                        the Feature's own script
//! /tmp/dev-container-features/<name>_<n>/devcontainer-features.env         its options
//! /tmp/dev-container-features/<name>_<n>/devcontainer-features-install.sh  what runs the script
//! ```

use vstd::prelude::*;

use super::feature::{ResolvedFeature, ResolvedModel};
use crate::json::{self, Json, JsonModel};
use crate::text;

pub mod laws;

verus! {

// ----------------------------------------------------------------------------------------------
// Quoting
// ----------------------------------------------------------------------------------------------

/// A character between double quotes.
pub open spec fn quoted_char(c: char) -> Seq<char> {
    if c == '\\' || c == '"' {
        seq!['\\', c]
    } else {
        seq![c]
    }
}

/// A text between double quotes, so that it cannot end the quotes.
pub open spec fn quoted(s: Seq<char>) -> Seq<char>
    decreases s.len(),
{
    if s.len() == 0 {
        Seq::empty()
    } else {
        quoted(s.drop_last()) + quoted_char(s.last())
    }
}

/// A character of a `LABEL` instruction. A dollar sign is quoted too: the instruction would expand what
/// follows it.
pub open spec fn label_char(c: char) -> Seq<char> {
    if c == '$' {
        seq!['\\', c]
    } else if c == '\n' {
        seq![' ']
    } else {
        quoted_char(c)
    }
}

/// A text in a `LABEL` instruction.
pub open spec fn labelled(s: Seq<char>) -> Seq<char>
    decreases s.len(),
{
    if s.len() == 0 {
        Seq::empty()
    } else {
        labelled(s.drop_last()) + label_char(s.last())
    }
}

fn quote(s: &str) -> (r: String)
    ensures
        r@ == quoted(s@),
{
    let cs = text::chars(s);
    let mut out: Vec<char> = Vec::new();
    let mut i: usize = 0;
    while i < cs.len()
        invariant
            i <= cs.len(),
            out@ == quoted(cs@.subrange(0, i as int)),
        decreases cs.len() - i,
    {
        let c = cs[i];
        assert(cs@.subrange(0, i + 1).drop_last() =~= cs@.subrange(0, i as int));
        let ghost before = out@;
        if c == '\\' || c == '"' {
            out.push('\\');
        }
        out.push(c);
        assert(out@ =~= before + quoted_char(c));
        i = i + 1;
    }
    assert(cs@.subrange(0, cs@.len() as int) =~= cs@);
    text::from_chars(&out)
}

/// Quotes a text for a `LABEL` instruction.
pub fn escape_label(label: &str) -> (r: String)
    ensures
        r@ == labelled(label@),
{
    let cs = text::chars(label);
    let mut out: Vec<char> = Vec::new();
    let mut i: usize = 0;
    while i < cs.len()
        invariant
            i <= cs.len(),
            out@ == labelled(cs@.subrange(0, i as int)),
        decreases cs.len() - i,
    {
        let c = cs[i];
        assert(cs@.subrange(0, i + 1).drop_last() =~= cs@.subrange(0, i as int));
        let ghost before = out@;
        if c == '\n' {
            out.push(' ');
        } else {
            if c == '\\' || c == '"' || c == '$' {
                out.push('\\');
            }
            out.push(c);
        }
        assert(out@ =~= before + label_char(c));
        i = i + 1;
    }
    assert(cs@.subrange(0, cs@.len() as int) =~= cs@);
    text::from_chars(&out)
}

/// Whether nothing in a text ends the quotes around it, expands, or ends the line.
pub open spec fn inert(s: Seq<char>) -> bool
    decreases s.len(),
{
    if s.len() == 0 {
        true
    } else if s[0] == '\\' {
        s.len() >= 2 && s[1] != '\n' && inert(s.subrange(2, s.len() as int))
    } else {
        s[0] != '"' && s[0] != '$' && s[0] != '\n' && inert(s.drop_first())
    }
}

/// A text with its quoting taken off.
pub open spec fn unquoted(s: Seq<char>) -> Seq<char>
    decreases s.len(),
{
    if s.len() == 0 {
        Seq::empty()
    } else if s[0] == '\\' && s.len() >= 2 {
        seq![s[1]] + unquoted(s.subrange(2, s.len() as int))
    } else {
        seq![s[0]] + unquoted(s.drop_first())
    }
}

/// A text in one line.
pub open spec fn one_line(s: Seq<char>) -> Seq<char> {
    s.map_values(
        |c: char|
            if c == '\n' {
                ' '
            } else {
                c
            },
    )
}

proof fn lemma_labelled(s: Seq<char>, t: Seq<char>)
    ensures
        inert(labelled(s) + t) == inert(t),
        unquoted(labelled(s) + t) == one_line(s) + unquoted(t),
    decreases s.len(),
{
    if s.len() == 0 {
        assert(labelled(s) + t =~= t);
        assert(one_line(s) + unquoted(t) =~= unquoted(t));
    } else {
        let c = s.last();
        let u = label_char(c) + t;
        lemma_labelled(s.drop_last(), u);
        assert(labelled(s) + t =~= labelled(s.drop_last()) + u);
        if c == '\\' || c == '"' || c == '$' {
            assert(u.subrange(2, u.len() as int) =~= t);
        } else {
            assert(u.drop_first() =~= t);
        }
        assert(one_line(s) =~= one_line(s.drop_last()) + one_line(seq![c]));
        assert(one_line(s.drop_last()) + unquoted(u) =~= one_line(s) + unquoted(t));
    }
}

/// Nothing in a label ends its instruction or is expanded in it, and the label comes out of the image
/// as it was, in one line.
pub proof fn law_labels_survive_the_build(label: Seq<char>)
    ensures
        inert(labelled(label)),
        unquoted(labelled(label)) == one_line(label),
{
    lemma_labelled(label, Seq::empty());
    assert(labelled(label) + Seq::<char>::empty() =~= labelled(label));
    assert(one_line(label) + Seq::<char>::empty() =~= one_line(label));
}

proof fn lemma_quoted(s: Seq<char>, t: Seq<char>)
    ensures
        unquoted(quoted(s) + t) == s + unquoted(t),
    decreases s.len(),
{
    if s.len() == 0 {
        assert(quoted(s) + t =~= t);
        assert(s + unquoted(t) =~= unquoted(t));
    } else {
        let c = s.last();
        let u = quoted_char(c) + t;
        lemma_quoted(s.drop_last(), u);
        assert(quoted(s) + t =~= quoted(s.drop_last()) + u);
        if c == '\\' || c == '"' {
            assert(u.subrange(2, u.len() as int) =~= t);
        } else {
            assert(u.drop_first() =~= t);
        }
        assert(s.drop_last() + unquoted(u) =~= s + unquoted(t));
    }
}

/// Taking the quoting off an option's value gives the value back.
pub proof fn law_quoting_can_be_undone(value: Seq<char>)
    ensures
        unquoted(quoted(value)) == value,
{
    lemma_quoted(value, Seq::empty());
    assert(quoted(value) + Seq::<char>::empty() =~= quoted(value));
    assert(value + Seq::<char>::empty() =~= value);
}

// ----------------------------------------------------------------------------------------------
// The build context
// ----------------------------------------------------------------------------------------------

/// The file that names the users.
pub fn builtin_env(container_user: &str, remote_user: &str) -> (r: String)
    ensures
        r@ == "_CONTAINER_USER="@ + container_user@ + "\n_REMOTE_USER="@ + remote_user@ + "\n"@,
{
    text::cat5("_CONTAINER_USER=", container_user, "\n_REMOTE_USER=", remote_user, "\n")
}

/// Options as a file for the shell to read.
pub open spec fn env_lines(options: Seq<(Seq<char>, Seq<char>)>) -> Seq<char>
    decreases options.len(),
{
    if options.len() == 0 {
        Seq::empty()
    } else {
        env_lines(options.drop_last()) + (options.last().0 + "=\""@ + quoted(options.last().1) + "\"\n"@)
    }
}

/// Renders a Feature's options as a file for the shell to read.
pub fn options_env(feature: &ResolvedFeature) -> (r: String)
    ensures
        r@ == env_lines(feature.options.deep_view()),
{
    let ghost o = feature.options.deep_view();
    let n: usize = feature.options.len();
    let mut out = String::new();
    let mut i: usize = 0;
    assert(out@ =~= env_lines(o.subrange(0, 0)));
    while i < n
        invariant
            o == feature.options.deep_view(),
            n == o.len(),
            i <= n,
            out@ == env_lines(o.subrange(0, i as int)),
        decreases n - i,
    {
        assert(o.subrange(0, i + 1).drop_last() =~= o.subrange(0, i as int));
        let (k, v) = feature.options.at(i);
        let value = quote(v.as_str());
        let line = text::cat4(k, "=\"", value.as_str(), "\"\n");
        out.append(line.as_str());
        i = i + 1;
    }
    assert(o.subrange(0, o.len() as int) =~= o);
    out
}

/// Options as they are shown while a Feature is installed.
pub open spec fn shown_options(options: Seq<(Seq<char>, Seq<char>)>) -> Seq<char>
    decreases options.len(),
{
    if options.len() == 0 {
        Seq::empty()
    } else {
        shown_options(options.drop_last()) + ("    "@ + options.last().0 + "=\""@ + options.last().1 + "\"\n"@)
    }
}

fn show_options(feature: &ResolvedFeature) -> (r: String)
    ensures
        r@ == shown_options(feature.options.deep_view()),
{
    let ghost o = feature.options.deep_view();
    let n: usize = feature.options.len();
    let mut out = String::new();
    let mut i: usize = 0;
    assert(out@ =~= shown_options(o.subrange(0, 0)));
    while i < n
        invariant
            o == feature.options.deep_view(),
            n == o.len(),
            i <= n,
            out@ == shown_options(o.subrange(0, i as int)),
        decreases n - i,
    {
        assert(o.subrange(0, i + 1).drop_last() =~= o.subrange(0, i as int));
        let (k, v) = feature.options.at(i);
        let line = text::cat5("    ", k, "=\"", v.as_str(), "\"\n");
        out.append(line.as_str());
        i = i + 1;
    }
    assert(o.subrange(0, o.len() as int) =~= o);
    out
}

/// An optional text, or another in its place.
pub open spec fn text_or(t: Option<Seq<char>>, otherwise: Seq<char>) -> Seq<char> {
    match t {
        Some(s) => s,
        None => otherwise,
    }
}

fn or_text<'a>(t: &'a Option<String>, otherwise: &'a str) -> (r: &'a str)
    ensures
        r@ == text_or(t.deep_view(), otherwise@),
{
    match t {
        Some(s) => s.as_str(),
        None => otherwise,
    }
}

/// Where to look when a Feature fails to install.
pub open spec fn troubleshooting(docs: Seq<char>) -> Seq<char> {
    if docs.len() == 0 {
        ""@
    } else {
        " Look at the documentation at "@ + docs + " for help troubleshooting this error."@
    }
}

/// The script that runs a Feature's own script.
pub open spec fn wrapper_of(f: ResolvedModel) -> Seq<char> {
    let id = f.reference.raw;
    let name = text_or(f.metadata.name, id);
    let docs = text_or(f.metadata.documentation_url, ""@);
    "#!/bin/sh\nset -e\n\non_exit () {\n\t[ $? -eq 0 ] && exit\n\techo 'ERROR: Feature \""@ + name + "\" ("@ + id
        + ") failed to install!"@ + troubleshooting(docs)
        + "'\n}\n\ntrap on_exit EXIT\n\necho ===========================================================================\n\necho 'Feature       : "@
        + name + "'\necho 'Description   : "@ + text_or(f.metadata.description, ""@) + "'\necho 'Id            : "@ + id
        + "'\necho 'Version       : "@ + text_or(f.metadata.version, "unknown"@) + "'\necho 'Documentation : "@ + docs
        + "'\necho 'Options       :'\necho '"@ + shown_options(f.options)
        + "'\necho ===========================================================================\n\nset -a\n. ../devcontainer-features.builtin.env\n. ./devcontainer-features.env\nset +a\n\nchmod +x ./install.sh\n./install.sh\n"@
}

/// Renders the script that sets up the environment and runs the Feature's own script.
pub fn install_wrapper(feature: &ResolvedFeature) -> (r: String)
    ensures
        r@ == wrapper_of(feature.deep_view()),
{
    let id = feature.reference.raw.as_str();
    let name = or_text(&feature.metadata.name, id);
    let docs = or_text(&feature.metadata.documentation_url, "");
    let description = or_text(&feature.metadata.description, "");
    let version = or_text(&feature.metadata.version, "unknown");
    let help = if docs.is_empty() {
        "".to_owned()
    } else {
        text::cat3(" Look at the documentation at ", docs, " for help troubleshooting this error.")
    };
    let options = show_options(feature);
    let mut s =
        "#!/bin/sh\nset -e\n\non_exit () {\n\t[ $? -eq 0 ] && exit\n\techo 'ERROR: Feature \"".to_owned();
    s.append(name);
    s.append("\" (");
    s.append(id);
    s.append(") failed to install!");
    s.append(help.as_str());
    s.append(
        "'\n}\n\ntrap on_exit EXIT\n\necho ===========================================================================\n\necho 'Feature       : ",
    );
    s.append(name);
    s.append("'\necho 'Description   : ");
    s.append(description);
    s.append("'\necho 'Id            : ");
    s.append(id);
    s.append("'\necho 'Version       : ");
    s.append(version);
    s.append("'\necho 'Documentation : ");
    s.append(docs);
    s.append("'\necho 'Options       :'\necho '");
    s.append(options.as_str());
    s.append(
        "'\necho ===========================================================================\n\nset -a\n. ../devcontainer-features.builtin.env\n. ./devcontainer-features.env\nset +a\n\nchmod +x ./install.sh\n./install.sh\n",
    );
    s
}

/// The files to write for one Feature, by their path in the build context.
pub open spec fn feature_files(f: ResolvedModel, index: nat) -> Seq<(Seq<char>, Seq<char>)> {
    seq![
        (f.dir_name(index) + "/devcontainer-features.env"@, env_lines(f.options)),
        (f.dir_name(index) + "/devcontainer-features-install.sh"@, wrapper_of(f)),
    ]
}

/// The files to write for some Features.
pub open spec fn all_feature_files(fs: Seq<ResolvedModel>) -> Seq<(Seq<char>, Seq<char>)>
    decreases fs.len(),
{
    if fs.len() == 0 {
        Seq::empty()
    } else {
        all_feature_files(fs.drop_last()) + feature_files(fs.last(), (fs.len() - 1) as nat)
    }
}

/// The files to write into the build context.
pub open spec fn files_of(fs: Seq<ResolvedModel>, container_user: Seq<char>, remote_user: Seq<char>) -> Seq<
    (Seq<char>, Seq<char>),
> {
    seq![
        (
            "devcontainer-features.builtin.env"@,
            "_CONTAINER_USER="@ + container_user + "\n_REMOTE_USER="@ + remote_user + "\n"@,
        ),
    ] + all_feature_files(fs)
}

/// Lists the files to write into the build context, beside copies of the Features' own directories.
pub fn context_files(features: &Vec<ResolvedFeature>, container_user: &str, remote_user: &str) -> (r: Vec<
    (String, String),
>)
    ensures
        r.deep_view() == files_of(features.deep_view(), container_user@, remote_user@),
{
    let ghost fs = features.deep_view();
    let mut out: Vec<(String, String)> = Vec::new();
    out.push(("devcontainer-features.builtin.env".to_owned(), builtin_env(container_user, remote_user)));
    let ghost head = out.deep_view();
    let mut i: usize = 0;
    assert(head =~= seq![
        (
            "devcontainer-features.builtin.env"@,
            "_CONTAINER_USER="@ + container_user@ + "\n_REMOTE_USER="@ + remote_user@ + "\n"@,
        ),
    ]);
    assert(head + all_feature_files(fs.subrange(0, 0)) =~= head);
    while i < features.len()
        invariant
            fs == features.deep_view(),
            i <= features.len(),
            out.deep_view() == head + all_feature_files(fs.subrange(0, i as int)),
        decreases features.len() - i,
    {
        assert(fs.subrange(0, i + 1).drop_last() =~= fs.subrange(0, i as int));
        assert(fs[i as int] == features@[i as int].deep_view());
        let ghost before = out.deep_view();
        let dir = features[i].dir_name(i);
        let env_path = text::cat2(dir.as_str(), "/devcontainer-features.env");
        let wrapper_path = text::cat2(dir.as_str(), "/devcontainer-features-install.sh");
        out.push((env_path, options_env(&features[i])));
        out.push((wrapper_path, install_wrapper(&features[i])));
        assert(out.deep_view() =~= before + feature_files(fs[i as int], i as nat));
        assert(head + all_feature_files(fs.subrange(0, i + 1)) =~= before + feature_files(fs[i as int], i as nat));
        i = i + 1;
    }
    assert(fs.subrange(0, fs.len() as int) =~= fs);
    out
}

// ----------------------------------------------------------------------------------------------
// The Dockerfile
// ----------------------------------------------------------------------------------------------

/// The `ENV` instructions for some members; what is no text is passed over. A dollar sign is left for
/// the build to expand: that is how a Feature extends `PATH`.
pub open spec fn env_instructions(members: Seq<(Seq<char>, JsonModel)>) -> Seq<char>
    decreases members.len(),
{
    if members.len() == 0 {
        Seq::empty()
    } else {
        let rest = env_instructions(members.drop_last());
        match members.last().1 {
            JsonModel::Str(v) => rest + ("ENV "@ + members.last().0 + "=\""@ + quoted(v) + "\"\n"@),
            _ => rest,
        }
    }
}

/// The `ENV` instructions for a Feature.
pub open spec fn feature_env(raw: JsonModel) -> Seq<char> {
    match raw.member("containerEnv"@) {
        Some(JsonModel::Object(o)) => env_instructions(o),
        _ => Seq::empty(),
    }
}

fn env_of_members(o: &Vec<(String, Json)>) -> (r: String)
    ensures
        r@ == env_instructions(json::members_model(o@)),
{
    let ghost m = json::members_model(o@);
    let mut out = String::new();
    let mut i: usize = 0;
    assert(out@ =~= env_instructions(m.subrange(0, 0)));
    while i < o.len()
        invariant
            m == json::members_model(o@),
            i <= o.len(),
            out@ == env_instructions(m.subrange(0, i as int)),
        decreases o.len() - i,
    {
        assert(m.subrange(0, i + 1).drop_last() =~= m.subrange(0, i as int));
        assert(m[i as int] == (o@[i as int].0@, o@[i as int].1@));
        match o[i].1.as_str() {
            Some(v) => {
                let value = quote(v);
                let line = text::cat5("ENV ", o[i].0.as_str(), "=\"", value.as_str(), "\"\n");
                out.append(line.as_str());
            },
            None => {},
        }
        i = i + 1;
    }
    assert(m.subrange(0, m.len() as int) =~= m);
    out
}

/// Renders the `ENV` instructions for a Feature.
pub fn container_env_instructions(feature: &ResolvedFeature) -> (r: String)
    ensures
        r@ == feature_env(feature.raw@),
{
    broadcast use crate::json::lemma_object_view;

    match feature.raw.get("containerEnv") {
        Some(Json::Object(o)) => env_of_members(o),
        _ => {
            let s = String::new();
            assert(s@ =~= Seq::empty());
            s
        },
    }
}

/// A command that finds a user's home, in the image and nowhere else.
pub open spec fn probe_of(var: Seq<char>, user: Seq<char>) -> Seq<char> {
    "echo \""@ + var + "=$( (command -v getent >/dev/null 2>&1 && getent passwd '"@ + user + "' || grep -E '^"@ + user
        + "|^[^:]*:[^:]*:"@ + user
        + ":' /etc/passwd || true) | cut -d: -f6)\" >> /tmp/dev-container-features/devcontainer-features.builtin.env "@
}

/// Renders a command that finds a user's home.
pub fn home_probe(var: &str, user: &str) -> (r: String)
    ensures
        r@ == probe_of(var@, user@),
{
    let mut s = text::cat7(
        "echo \"",
        var,
        "=$( (command -v getent >/dev/null 2>&1 && getent passwd '",
        user,
        "' || grep -E '^",
        user,
        "|^[^:]*:[^:]*:",
    );
    s.append(user);
    s.append(
        ":' /etc/passwd || true) | cut -d: -f6)\" >> /tmp/dev-container-features/devcontainer-features.builtin.env ",
    );
    s
}

/// The instructions that install one Feature. What it puts into the environment comes before its
/// script, so that later Features see it as well.
pub open spec fn install_instructions(f: ResolvedModel, index: nat) -> Seq<char> {
    "# "@ + f.reference.raw + "\n"@ + feature_env(f.raw) + "RUN chmod -R 0755 /tmp/dev-container-features/"@ + f.dir_name(
        index,
    ) + " \\\n&& cd /tmp/dev-container-features/"@ + f.dir_name(index)
        + " \\\n&& chmod +x ./devcontainer-features-install.sh \\\n&& ./devcontainer-features-install.sh\n\n"@
}

/// The instructions that install some Features.
pub open spec fn all_instructions(fs: Seq<ResolvedModel>) -> Seq<char>
    decreases fs.len(),
{
    if fs.len() == 0 {
        Seq::empty()
    } else {
        all_instructions(fs.drop_last()) + install_instructions(fs.last(), (fs.len() - 1) as nat)
    }
}

/// The middle of the Dockerfile: nothing where there is nothing to install.
pub open spec fn feature_section(fs: Seq<ResolvedModel>, container_user: Seq<char>, remote_user: Seq<char>) -> Seq<char> {
    if fs.len() == 0 {
        Seq::empty()
    } else {
        "RUN mkdir -p /tmp/dev-container-features\nCOPY --chown=root:root . /tmp/dev-container-features\n\nRUN \\\n"@
            + probe_of("_CONTAINER_USER_HOME"@, container_user) + "\\\n"@ + probe_of("_REMOTE_USER_HOME"@, remote_user)
            + "\n\n"@ + all_instructions(fs)
    }
}

/// The Dockerfile that installs Features and stamps the label.
pub open spec fn dockerfile_of(
    fs: Seq<ResolvedModel>,
    label: Seq<char>,
    container_user: Seq<char>,
    remote_user: Seq<char>,
) -> Seq<char> {
    "ARG _DEV_CONTAINERS_BASE_IMAGE=placeholder\n\nFROM $_DEV_CONTAINERS_BASE_IMAGE AS dev_containers_target_stage\n\nUSER root\n\n"@
        + feature_section(fs, container_user, remote_user)
        + "ARG _DEV_CONTAINERS_IMAGE_USER=root\nUSER $_DEV_CONTAINERS_IMAGE_USER\n\nLABEL devcontainer.metadata=\""@
        + labelled(label) + "\"\n"@
}

fn render_feature(feature: &ResolvedFeature, index: usize) -> (r: String)
    ensures
        r@ == install_instructions(feature.deep_view(), index as nat),
{
    let dir = feature.dir_name(index);
    let env = container_env_instructions(feature);
    let mut s = text::cat7(
        "# ",
        feature.reference.raw.as_str(),
        "\n",
        env.as_str(),
        "RUN chmod -R 0755 /tmp/dev-container-features/",
        dir.as_str(),
        " \\\n&& cd /tmp/dev-container-features/",
    );
    s.append(dir.as_str());
    s.append(" \\\n&& chmod +x ./devcontainer-features-install.sh \\\n&& ./devcontainer-features-install.sh\n\n");
    s
}

fn render_features(features: &Vec<ResolvedFeature>) -> (r: String)
    ensures
        r@ == all_instructions(features.deep_view()),
{
    let ghost fs = features.deep_view();
    let mut out = String::new();
    let mut i: usize = 0;
    assert(out@ =~= all_instructions(fs.subrange(0, 0)));
    while i < features.len()
        invariant
            fs == features.deep_view(),
            i <= features.len(),
            out@ == all_instructions(fs.subrange(0, i as int)),
        decreases features.len() - i,
    {
        assert(fs.subrange(0, i + 1).drop_last() =~= fs.subrange(0, i as int));
        assert(fs[i as int] == features@[i as int].deep_view());
        let one = render_feature(&features[i], i);
        out.append(one.as_str());
        i = i + 1;
    }
    assert(fs.subrange(0, fs.len() as int) =~= fs);
    out
}

/// Renders the Dockerfile that installs Features and stamps the label.
pub fn render(features: &Vec<ResolvedFeature>, label: &str, container_user: &str, remote_user: &str) -> (r: String)
    ensures
        r@ == dockerfile_of(features.deep_view(), label@, container_user@, remote_user@),
{
    let section = if features.len() == 0 {
        let s = String::new();
        assert(s@ =~= Seq::empty());
        s
    } else {
        let first = home_probe("_CONTAINER_USER_HOME", container_user);
        let second = home_probe("_REMOTE_USER_HOME", remote_user);
        let rest = render_features(features);
        text::cat6(
            "RUN mkdir -p /tmp/dev-container-features\nCOPY --chown=root:root . /tmp/dev-container-features\n\nRUN \\\n",
            first.as_str(),
            "\\\n",
            second.as_str(),
            "\n\n",
            rest.as_str(),
        )
    };
    let escaped = escape_label(label);
    text::cat5(
        "ARG _DEV_CONTAINERS_BASE_IMAGE=placeholder\n\nFROM $_DEV_CONTAINERS_BASE_IMAGE AS dev_containers_target_stage\n\nUSER root\n\n",
        section.as_str(),
        "ARG _DEV_CONTAINERS_IMAGE_USER=root\nUSER $_DEV_CONTAINERS_IMAGE_USER\n\nLABEL devcontainer.metadata=\"",
        escaped.as_str(),
        "\"\n",
    )
}

} // verus!
