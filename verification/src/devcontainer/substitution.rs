//! `${...}` substitution.

use vstd::prelude::*;

use crate::duplicate::Duplicate;
use crate::strmap::{self, StrMap};
use crate::path;
use crate::text;

verus! {

/// Values available to `${...}`.
#[derive(Debug, PartialEq)]
pub struct SubstitutionContext {
    pub local_workspace_folder: String,
    pub container_workspace_folder: String,
    pub container_env: StrMap<String>,
    /// The environment that `am` itself runs in.
    pub local_env: StrMap<String>,
}

/// What a [`SubstitutionContext`] stands for.
pub struct ContextModel {
    pub local_workspace_folder: Seq<char>,
    pub container_workspace_folder: Seq<char>,
    pub container_env: Seq<(Seq<char>, Seq<char>)>,
    pub local_env: Seq<(Seq<char>, Seq<char>)>,
}

impl DeepView for SubstitutionContext {
    type V = ContextModel;

    open spec fn deep_view(&self) -> ContextModel {
        ContextModel {
            local_workspace_folder: self.local_workspace_folder@,
            container_workspace_folder: self.container_workspace_folder@,
            container_env: self.container_env.deep_view(),
            local_env: self.local_env.deep_view(),
        }
    }
}

/// The value under `k`, empty where there is none.
pub open spec fn value_or_empty(m: Seq<(Seq<char>, Seq<char>)>, k: Seq<char>) -> Seq<char> {
    match strmap::get(m, k) {
        Some(v) => v,
        None => Seq::empty(),
    }
}

/// The last component of a path, empty where there is none.
pub open spec fn basename(p: Seq<char>) -> Seq<char> {
    match path::file_name(p) {
        Some(n) => n,
        None => Seq::empty(),
    }
}

/// The index of the first `${`, or the length where there is none.
pub open spec fn marker(s: Seq<char>) -> nat
    decreases s.len(),
{
    if s.len() < 2 {
        s.len()
    } else if s[0] == '$' && s[1] == '{' {
        0
    } else {
        1 + marker(s.drop_first())
    }
}

impl ContextModel {
    /// What `${name}` stands for; a variable that is not known stands for nothing.
    pub open spec fn resolved(self, name: Seq<char>) -> Seq<char> {
        match text::without_prefix(name, "localEnv:"@) {
            Some(var) => value_or_empty(self.local_env, var),
            None => match text::without_prefix(name, "containerEnv:"@) {
                Some(var) => value_or_empty(self.container_env, var),
                None => if name == "localWorkspaceFolder"@ {
                    self.local_workspace_folder
                } else if name == "containerWorkspaceFolder"@ {
                    self.container_workspace_folder
                } else if name == "localWorkspaceFolderBasename"@ {
                    basename(self.local_workspace_folder)
                } else if name == "containerWorkspaceFolderBasename"@ {
                    basename(self.container_workspace_folder)
                } else {
                    Seq::empty()
                },
            },
        }
    }

    /// `s` with every `${...}` replaced; a `${` that is never closed stays as it is.
    pub open spec fn substituted(self, s: Seq<char>) -> Seq<char>
        decreases s.len(),
    {
        let i = marker(s) as int;
        if i + 2 > s.len() {
            s
        } else {
            let after = s.subrange(i + 2, s.len() as int);
            let e = text::position(after, '}') as int;
            if 0 <= e < after.len() {
                s.subrange(0, i) + self.resolved(after.subrange(0, e)) + self.substituted(
                    after.subrange(e + 1, after.len() as int),
                )
            } else {
                s
            }
        }
    }
}

proof fn lemma_marker(s: Seq<char>)
    ensures
        marker(s) <= s.len(),
        marker(s) < s.len() ==> marker(s) + 2 <= s.len() && s[marker(s) as int] == '$' && s[marker(s) as int + 1] == '{',
        forall|j: int| 0 <= j && j < marker(s) && j + 1 < s.len() ==> !((#[trigger] s[j]) == '$' && s[j + 1] == '{'),
    decreases s.len(),
{
    if s.len() >= 2 && !(s[0] == '$' && s[1] == '{') {
        let t = s.drop_first();
        lemma_marker(t);
        assert(marker(t) < t.len() ==> t[marker(t) as int] == s[marker(t) as int + 1]);
        assert forall|j: int| 0 <= j && j < marker(s) && j + 1 < s.len() implies !((#[trigger] s[j]) == '$' && s[j
            + 1] == '{') by {
            if j > 0 {
                assert(t[j - 1] == s[j] && t[j] == s[j + 1]);
            }
        }
    }
}

proof fn lemma_marker_is(s: Seq<char>, i: int)
    requires
        0 <= i <= s.len(),
        i < s.len() ==> i + 2 <= s.len() && s[i] == '$' && s[i + 1] == '{',
        forall|j: int| 0 <= j && j < i && j + 1 < s.len() ==> !((#[trigger] s[j]) == '$' && s[j + 1] == '{'),
    ensures
        marker(s) == i,
{
    lemma_marker(s);
    let m = marker(s) as int;
    if m < i {
        assert(!(s[m] == '$' && s[m + 1] == '{'));
    } else if i < m {
        assert(!(s[i] == '$' && s[i + 1] == '{'));
    }
}

/// Text without a `${` is left alone.
pub proof fn law_plain_text_is_untouched(ctx: ContextModel, s: Seq<char>)
    requires
        forall|j: int| 0 <= j && j + 1 < s.len() ==> !((#[trigger] s[j]) == '$' && s[j + 1] == '{'),
    ensures
        ctx.substituted(s) == s,
{
    lemma_marker_is(s, s.len() as int);
}

/// A `${` that is never closed is left alone, with everything after it.
pub proof fn law_unterminated_is_literal(ctx: ContextModel, s: Seq<char>)
    requires
        !s.contains('}'),
    ensures
        ctx.substituted(s) == s,
{
    let i = marker(s) as int;
    if i + 2 <= s.len() {
        let after = s.subrange(i + 2, s.len() as int);
        text::lemma_position(after, '}');
        let e = text::position(after, '}') as int;
        if e < after.len() {
            assert(after[e] == s[i + 2 + e]);
            assert(s.contains('}'));
        }
    }
}

/// What stands before the first variable is kept, and the rest is substituted on its own.
pub proof fn law_variables_are_replaced_in_place(
    ctx: ContextModel,
    before: Seq<char>,
    name: Seq<char>,
    rest: Seq<char>,
)
    requires
        !before.contains('$'),
        !name.contains('}'),
    ensures
        ctx.substituted(before + "${"@ + name + "}"@ + rest) == before + ctx.resolved(name) + ctx.substituted(rest),
{
    reveal_strlit("${");
    reveal_strlit("}");
    let s = before + "${"@ + name + "}"@ + rest;
    let i = before.len() as int;
    assert(s[i] == '$' && s[i + 1] == '{');
    assert forall|j: int| 0 <= j && j < i && j + 1 < s.len() implies !((#[trigger] s[j]) == '$' && s[j + 1] == '{') by {
        assert(s[j] == before[j]);
    }
    lemma_marker_is(s, i);
    let after = s.subrange(i + 2, s.len() as int);
    assert(after =~= name + "}"@ + rest);
    assert forall|j: int| 0 <= j < name.len() implies after[j] != '}' by {
        assert(after[j] == name[j]);
    }
    assert(after[name.len() as int] == '}');
    text::lemma_position_is(after, '}', name.len() as int);
    assert(s.subrange(0, i) =~= before);
    assert(after.subrange(0, name.len() as int) =~= name);
    assert(after.subrange(name.len() as int + 1, after.len() as int) =~= rest);
}

impl SubstitutionContext {
    pub fn new(local_workspace_folder: &str, container_workspace_folder: &str) -> (r: Self)
        ensures
            r.deep_view() == (ContextModel {
                local_workspace_folder: local_workspace_folder@,
                container_workspace_folder: container_workspace_folder@,
                container_env: Seq::empty(),
                local_env: Seq::empty(),
            }),
    {
        SubstitutionContext {
            local_workspace_folder: local_workspace_folder.to_owned(),
            container_workspace_folder: container_workspace_folder.to_owned(),
            container_env: StrMap::new(),
            local_env: StrMap::new(),
        }
    }

    fn lookup(m: &StrMap<String>, k: &str) -> (r: String)
        ensures
            r@ == value_or_empty(m.deep_view(), k@),
    {
        match m.get(k) {
            Some(v) => v.clone(),
            None => String::new(),
        }
    }

    fn basename(p: &str) -> (r: String)
        ensures
            r@ == basename(p@),
    {
        match path::base_name(p) {
            Some(n) => n.to_owned(),
            None => String::new(),
        }
    }

    /// Resolves the name inside one `${...}`.
    pub fn resolve(&self, name: &str) -> (r: String)
        ensures
            r@ == self.deep_view().resolved(name@),
    {
        if let Some(var) = text::strip_prefix(name, "localEnv:") {
            return Self::lookup(&self.local_env, var);
        }
        if let Some(var) = text::strip_prefix(name, "containerEnv:") {
            return Self::lookup(&self.container_env, var);
        }
        if text::eq(name, "localWorkspaceFolder") {
            self.local_workspace_folder.clone()
        } else if text::eq(name, "containerWorkspaceFolder") {
            self.container_workspace_folder.clone()
        } else if text::eq(name, "localWorkspaceFolderBasename") {
            Self::basename(self.local_workspace_folder.as_str())
        } else if text::eq(name, "containerWorkspaceFolderBasename") {
            Self::basename(self.container_workspace_folder.as_str())
        } else {
            String::new()
        }
    }

    fn find_marker(cs: &Vec<char>, from: usize) -> (r: usize)
        requires
            from <= cs.len(),
        ensures
            from <= r <= cs.len(),
            r - from == marker(cs@.subrange(from as int, cs@.len() as int)),
            r < cs.len() ==> r + 2 <= cs.len(),
    {
        let ghost tail = cs@.subrange(from as int, cs@.len() as int);
        let mut i: usize = from;
        while i < cs.len() && !(cs.len() - i >= 2 && cs[i] == '$' && cs[i + 1] == '{')
            invariant
                from <= i <= cs.len(),
                tail == cs@.subrange(from as int, cs@.len() as int),
                forall|j: int|
                    0 <= j && j < i - from && j + 1 < tail.len() ==> !((#[trigger] tail[j]) == '$' && tail[j + 1]
                        == '{'),
            decreases cs.len() - i,
        {
            assert(tail[i - from] == cs@[i as int]);
            assert(i + 1 < cs.len() ==> tail[i - from + 1] == cs@[i + 1]);
            i = i + 1;
        }
        proof {
            if i < cs.len() {
                assert(tail[i - from] == cs@[i as int] && tail[i - from + 1] == cs@[i + 1]);
            }
            lemma_marker_is(tail, i - from);
        }
        i
    }

    /// Replaces every `${...}` in `input`.
    pub fn substitute(&self, input: &str) -> (r: String)
        ensures
            r@ == self.deep_view().substituted(input@),
    {
        let cs = text::chars(input);
        let ghost ctx = self.deep_view();
        let ghost s = input@;
        let mut out = String::new();
        let mut from: usize = 0;
        assert(s.subrange(0, s.len() as int) =~= s);
        assert(out@ + ctx.substituted(s) =~= ctx.substituted(s));
        loop
            invariant
                cs@ == s,
                s == input@,
                ctx == self.deep_view(),
                from <= cs.len(),
                ctx.substituted(s) == out@ + ctx.substituted(s.subrange(from as int, s.len() as int)),
            decreases cs.len() - from,
        {
            let ghost rest = s.subrange(from as int, s.len() as int);
            let ghost before = out@;
            let start: usize = Self::find_marker(&cs, from);
            if start >= cs.len() {
                out.append(text::from_range(&cs, from, cs.len()).as_str());
                return out;
            }
            let ghost after = rest.subrange(start - from + 2, rest.len() as int);
            assert(after =~= s.subrange(start + 2, s.len() as int));
            let end: usize = text::find(&cs, start + 2, '}');
            if end >= cs.len() {
                out.append(text::from_range(&cs, from, cs.len()).as_str());
                return out;
            }
            let name = text::from_range(&cs, start + 2, end);
            let head = text::from_range(&cs, from, start);
            let value = self.resolve(name.as_str());
            out.append(head.as_str());
            out.append(value.as_str());
            proof {
                let e = text::position(after, '}') as int;
                assert(e == end - start - 2);
                assert(after.subrange(0, e) =~= s.subrange(start + 2, end as int));
                assert(after.subrange(e + 1, after.len() as int) =~= s.subrange(end + 1, s.len() as int));
                assert(rest.subrange(0, start - from) =~= s.subrange(from as int, start as int));
                let tail = ctx.substituted(s.subrange(end + 1, s.len() as int));
                assert(ctx.substituted(rest) == head@ + value@ + tail);
                assert(before + (head@ + value@ + tail) =~= before + head@ + value@ + tail);
            }
            from = end + 1;
        }
    }
}

impl Duplicate for SubstitutionContext {
    fn duplicate(&self) -> (r: Self) {
        SubstitutionContext {
            local_workspace_folder: self.local_workspace_folder.clone(),
            container_workspace_folder: self.container_workspace_folder.clone(),
            container_env: self.container_env.duplicate(),
            local_env: self.local_env.duplicate(),
        }
    }
}

/// What each variable stands for: the two folders and their last components, and a variable of either
/// environment, empty where it is not set. Any other name stands for nothing.
pub proof fn law_each_variable_has_its_value(ctx: ContextModel, var: Seq<char>)
    ensures
        ctx.resolved("localWorkspaceFolder"@) == ctx.local_workspace_folder,
        ctx.resolved("containerWorkspaceFolder"@) == ctx.container_workspace_folder,
        path::file_name(ctx.local_workspace_folder) matches Some(n) ==> ctx.resolved("localWorkspaceFolderBasename"@)
            == n,
        path::file_name(ctx.container_workspace_folder) matches Some(n) ==> ctx.resolved(
            "containerWorkspaceFolderBasename"@,
        ) == n,
        strmap::get(ctx.local_env, var) matches Some(v) ==> ctx.resolved("localEnv:"@ + var) == v,
        strmap::get(ctx.local_env, var) is None ==> ctx.resolved("localEnv:"@ + var).len() == 0,
        strmap::get(ctx.container_env, var) matches Some(v) ==> ctx.resolved("containerEnv:"@ + var) == v,
        strmap::get(ctx.container_env, var) is None ==> ctx.resolved("containerEnv:"@ + var).len() == 0,
        !text::has_prefix(var, "localEnv:"@) && !text::has_prefix(var, "containerEnv:"@) && var
            != "localWorkspaceFolder"@ && var != "containerWorkspaceFolder"@ && var
            != "localWorkspaceFolderBasename"@ && var != "containerWorkspaceFolderBasename"@ ==> ctx.resolved(
            var,
        ).len() == 0,
{
    reveal_strlit("localEnv:");
    reveal_strlit("containerEnv:");
    reveal_strlit("localWorkspaceFolder");
    reveal_strlit("containerWorkspaceFolder");
    reveal_strlit("localWorkspaceFolderBasename");
    reveal_strlit("containerWorkspaceFolderBasename");
    lemma_other_prefix("localWorkspaceFolder"@);
    lemma_other_prefix("containerWorkspaceFolder"@);
    lemma_other_prefix("localWorkspaceFolderBasename"@);
    lemma_other_prefix("containerWorkspaceFolderBasename"@);
    assert("localWorkspaceFolder"@.len() == 20 && "containerWorkspaceFolder"@.len() == 24);
    assert("localWorkspaceFolderBasename"@.len() == 28 && "containerWorkspaceFolderBasename"@.len() == 32);
    let l = "localEnv:"@ + var;
    let c = "containerEnv:"@ + var;
    assert(l.subrange(0, "localEnv:"@.len() as int) =~= "localEnv:"@);
    assert(l.subrange("localEnv:"@.len() as int, l.len() as int) =~= var);
    assert(c.subrange(0, "containerEnv:"@.len() as int) =~= "containerEnv:"@);
    assert(c.subrange("containerEnv:"@.len() as int, c.len() as int) =~= var);
    assert(c[0] == 'c');
    if text::has_prefix(c, "localEnv:"@) {
        assert(c.subrange(0, "localEnv:"@.len() as int)[0] == c[0]);
    }
}

proof fn lemma_other_prefix(s: Seq<char>)
    requires
        s.len() > 9,
        s[5] == 'W' || s[9] == 'W',
    ensures
        s[5] == 'W' && s[0] == 'l' ==> !text::has_prefix(s, "localEnv:"@) && !text::has_prefix(s, "containerEnv:"@),
        s[9] == 'W' && s[0] == 'c' ==> !text::has_prefix(s, "localEnv:"@) && !text::has_prefix(s, "containerEnv:"@),
{
    reveal_strlit("localEnv:");
    reveal_strlit("containerEnv:");
    if text::has_prefix(s, "localEnv:"@) {
        let p = s.subrange(0, "localEnv:"@.len() as int);
        assert(p[0] == s[0] && p[5] == s[5]);
    }
    if text::has_prefix(s, "containerEnv:"@) {
        let p = s.subrange(0, "containerEnv:"@.len() as int);
        assert(p[0] == s[0] && p[9] == s[9]);
    }
}

} // verus!
