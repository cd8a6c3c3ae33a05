//! Where a `devcontainer.json` is found.

use vstd::prelude::*;

use super::merge;
use crate::error::{AmError, AmErrorModel};
use crate::path;
use crate::sort;
use crate::text;

verus! {

/// The path that the user names.
pub open spec fn named_path(worktree: Seq<char>, given: Seq<char>) -> Seq<char> {
    if path::is_absolute(given) {
        given
    } else {
        path::joined(worktree, given)
    }
}

/// The config in the usual place.
pub open spec fn primary_path(worktree: Seq<char>) -> Seq<char> {
    path::joined(path::joined(worktree, ".devcontainer"@), "devcontainer.json"@)
}

/// The config in a folder of its own.
pub open spec fn nested_path(worktree: Seq<char>, folder: Seq<char>) -> Seq<char> {
    path::joined(path::joined(path::joined(worktree, ".devcontainer"@), folder), "devcontainer.json"@)
}

/// The folders that hold a config, in order.
pub open spec fn with_config(worktree: Seq<char>, folders: Seq<Seq<char>>, files: Seq<Seq<char>>) -> Seq<Seq<char>> {
    sort::sorted::<String>(folders.filter(|f: Seq<char>| files.contains(nested_path(worktree, f))))
}

/// The error where several folders hold a config.
pub open spec fn ambiguous(worktree: Seq<char>, found: Seq<Seq<char>>) -> AmErrorModel {
    AmErrorModel::ConfigError(
        "several devcontainer configs found under "@ + path::joined(worktree, ".devcontainer"@) + ":\n"@ + text::joined(
            found.map_values(|f: Seq<char>| "  "@ + nested_path(worktree, f)),
            "\n"@,
        ) + "\nSet devcontainer.path in .am/config.toml to choose one"@,
    )
}

/// The config of a worktree: the one that is named, or the one in the usual place, or the one dotfile, or
/// the only one in a folder of its own.
pub open spec fn found_config(
    worktree: Seq<char>,
    given: Option<Seq<char>>,
    files: Seq<Seq<char>>,
    folders: Option<Seq<Seq<char>>>,
) -> Result<Option<Seq<char>>, AmErrorModel> {
    match given {
        Some(g) => if files.contains(named_path(worktree, g)) {
            Ok(Some(named_path(worktree, g)))
        } else {
            Err(
                AmErrorModel::ConfigError(
                    "devcontainer config not found at "@ + named_path(worktree, g) + " (from devcontainer.path)"@,
                ),
            )
        },
        None => if files.contains(primary_path(worktree)) {
            Ok(Some(primary_path(worktree)))
        } else if files.contains(path::joined(worktree, ".devcontainer.json"@)) {
            Ok(Some(path::joined(worktree, ".devcontainer.json"@)))
        } else {
            match folders {
                None => Ok(None),
                Some(fs) => {
                    let found = with_config(worktree, fs, files);
                    if found.len() == 0 {
                        Ok(None)
                    } else if found.len() == 1 {
                        Ok(Some(nested_path(worktree, found[0])))
                    } else {
                        Err(ambiguous(worktree, found))
                    }
                },
            }
        },
    }
}

fn nested(worktree: &str, folder: &str) -> (r: String)
    ensures
        r@ == nested_path(worktree@, folder@),
{
    let dir = path::join(worktree, ".devcontainer");
    let inner = path::join(dir.as_str(), folder);
    path::join(inner.as_str(), "devcontainer.json")
}

fn folders_with_config(worktree: &str, folders: &Vec<String>, files: &Vec<String>) -> (r: Vec<String>)
    ensures
        r.deep_view() == with_config(worktree@, folders.deep_view(), files.deep_view()),
{
    let ghost fs = folders.deep_view();
    let ghost p = |f: Seq<char>| files.deep_view().contains(nested_path(worktree@, f));
    let mut out: Vec<String> = Vec::new();
    let mut i: usize = 0;
    proof {
        reveal(Seq::filter);
    }
    assert(out.deep_view() =~= fs.subrange(0, 0).filter(p));
    while i < folders.len()
        invariant
            fs == folders.deep_view(),
            p == (|f: Seq<char>| files.deep_view().contains(nested_path(worktree@, f))),
            i <= folders.len(),
            out.deep_view() == fs.subrange(0, i as int).filter(p),
        decreases folders.len() - i,
    {
        proof {
            reveal(Seq::filter);
        }
        assert(fs.subrange(0, i + 1).drop_last() =~= fs.subrange(0, i as int));
        assert(fs[i as int] == folders@[i as int]@);
        let candidate = nested(worktree, folders[i].as_str());
        if merge::contains_text(files, candidate.as_str()) {
            text::push_str(&mut out, folders[i].as_str());
        }
        i = i + 1;
    }
    assert(fs.subrange(0, fs.len() as int) =~= fs);
    sort::sort_values(out)
}

/// Finds the config of a worktree. `files` are the files that are there, among the places where a config
/// can be, and `folders` the names of the directories in `.devcontainer`, where that is one.
pub fn find_config(worktree: &str, override_path: Option<&str>, files: &Vec<String>, folders: Option<&Vec<String>>) -> (r:
    Result<Option<String>, AmError>)
    ensures
        crate::error::outcome(r) == found_config(
            worktree@,
            override_path.deep_view(),
            files.deep_view(),
            folders.deep_view(),
        ),
{
    match override_path {
        Some(g) => {
            let p = if path::absolute(g) {
                g.to_owned()
            } else {
                path::join(worktree, g)
            };
            if merge::contains_text(files, p.as_str()) {
                return Ok(Some(p));
            }
            return Err(
                AmError::ConfigError(
                    text::cat3("devcontainer config not found at ", p.as_str(), " (from devcontainer.path)"),
                ),
            );
        },
        None => {},
    }
    let dir = path::join(worktree, ".devcontainer");
    let primary = path::join(dir.as_str(), "devcontainer.json");
    if merge::contains_text(files, primary.as_str()) {
        return Ok(Some(primary));
    }
    let dotfile = path::join(worktree, ".devcontainer.json");
    if merge::contains_text(files, dotfile.as_str()) {
        return Ok(Some(dotfile));
    }
    match folders {
        None => Ok(None),
        Some(fs) => {
            let found = folders_with_config(worktree, fs, files);
            if found.len() == 0 {
                Ok(None)
            } else if found.len() == 1 {
                assert(found.deep_view()[0] == found@[0]@);
                Ok(Some(nested(worktree, found[0].as_str())))
            } else {
                let list = listed(worktree, &found);
                let lines = text::join(&list, "\n");
                Err(
                    AmError::ConfigError(
                        text::cat5(
                            "several devcontainer configs found under ",
                            dir.as_str(),
                            ":\n",
                            lines.as_str(),
                            "\nSet devcontainer.path in .am/config.toml to choose one",
                        ),
                    ),
                )
            }
        },
    }
}

fn listed(worktree: &str, found: &Vec<String>) -> (r: Vec<String>)
    ensures
        r.deep_view() == found.deep_view().map_values(|f: Seq<char>| "  "@ + nested_path(worktree@, f)),
{
    let ghost all = found.deep_view().map_values(|f: Seq<char>| "  "@ + nested_path(worktree@, f));
    let mut out: Vec<String> = Vec::new();
    let mut i: usize = 0;
    assert(out.deep_view() =~= all.subrange(0, 0));
    while i < found.len()
        invariant
            all == found.deep_view().map_values(|f: Seq<char>| "  "@ + nested_path(worktree@, f)),
            i <= found.len(),
            out.deep_view() == all.subrange(0, i as int),
        decreases found.len() - i,
    {
        let p = nested(worktree, found[i].as_str());
        text::push(&mut out, text::cat2("  ", p.as_str()));
        assert(all.subrange(0, i + 1) =~= all.subrange(0, i as int).push(all[i as int]));
        i = i + 1;
    }
    assert(all.subrange(0, all.len() as int) =~= all);
    out
}

// ----------------------------------------------------------------------------------------------
// What is found
// ----------------------------------------------------------------------------------------------

/// A config that the user names is the one that is used: as it is written where its path is absolute, and
/// otherwise below the worktree. Where it is not there, that is an error, whatever else is there.
pub proof fn law_a_named_config_is_the_one(
    worktree: Seq<char>,
    given: Seq<char>,
    files: Seq<Seq<char>>,
    folders: Option<Seq<Seq<char>>>,
)
    requires
        worktree.len() > 0,
        worktree.last() != '/',
    ensures
        ({
            let p = if given.len() > 0 && given[0] == '/' {
                given
            } else {
                worktree + "/"@ + given
            };
            &&& files.contains(p) ==> found_config(worktree, Some(given), files, folders) == Ok::<
                Option<Seq<char>>,
                AmErrorModel,
            >(Some(p))
            &&& !files.contains(p) ==> found_config(worktree, Some(given), files, folders) is Err
        }),
{
}

/// Where a config is in a folder of its own.
pub open spec fn in_folder(worktree: Seq<char>, folder: Seq<char>) -> Seq<char> {
    worktree + "/.devcontainer/"@ + folder + "/devcontainer.json"@
}

/// Where none is named, the config in `.devcontainer` is used, then `.devcontainer.json`, then the only one
/// that is in a folder of its own below `.devcontainer`. Where there are several of those, that is an error
/// which lists every one of them, and where there is none there is no config.
pub proof fn law_a_config_is_looked_for_in_order(
    worktree: Seq<char>,
    files: Seq<Seq<char>>,
    folders: Seq<Seq<char>>,
    k: int,
    l: int,
)
    requires
        worktree.len() > 0,
        worktree.last() != '/',
        forall|i: int|
            0 <= i < folders.len() ==> (#[trigger] folders[i]).len() > 0 && folders[i][0] != '/' && folders[i].last()
                != '/',
    ensures
        ({
            let usual = files.contains(worktree + "/.devcontainer/devcontainer.json"@);
            let dotted = files.contains(worktree + "/.devcontainer.json"@);
            let r = found_config(worktree, None, files, Some(folders));
            let present = |i: int| files.contains(in_folder(worktree, folders[i]));
            &&& usual ==> r == Ok::<Option<Seq<char>>, AmErrorModel>(
                Some(worktree + "/.devcontainer/devcontainer.json"@),
            )
            &&& !usual && dotted ==> r == Ok::<Option<Seq<char>>, AmErrorModel>(
                Some(worktree + "/.devcontainer.json"@),
            )
            &&& !usual && !dotted && (forall|i: int| 0 <= i < folders.len() ==> !#[trigger] present(i)) ==> r == Ok::<
                Option<Seq<char>>,
                AmErrorModel,
            >(None)
            &&& !usual && !dotted && 0 <= k < folders.len() && present(k) && (forall|i: int|
                0 <= i < folders.len() && i != k ==> !#[trigger] present(i)) ==> r == Ok::<
                Option<Seq<char>>,
                AmErrorModel,
            >(Some(in_folder(worktree, folders[k])))
            &&& !usual && !dotted && 0 <= k < l < folders.len() && present(k) && present(l) ==> {
                &&& r matches Err(AmErrorModel::ConfigError(m))
                &&& text::holds(r->Err_0->ConfigError_0, in_folder(worktree, folders[k]))
                &&& text::holds(r->Err_0->ConfigError_0, in_folder(worktree, folders[l]))
            }
            &&& found_config(worktree, None, files, None) == (if usual || dotted {
                r
            } else {
                Ok(None)
            })
        }),
{
    lemma_places(worktree);
    let present = |i: int| files.contains(in_folder(worktree, folders[i]));
    let kept = |f: Seq<char>| files.contains(nested_path(worktree, f));
    assert forall|i: int| 0 <= i < folders.len() implies #[trigger] nested_path(worktree, folders[i]) == in_folder(
        worktree,
        folders[i],
    ) by {
        lemma_folder(worktree, folders[i]);
    }
    let chosen = folders.filter(kept);
    let found = with_config(worktree, folders, files);
    sort::law_sorted::<String>(chosen);
    assert(found.len() == chosen.len());
    lemma_filter_counts(folders, kept);
    if forall|i: int| 0 <= i < folders.len() ==> !#[trigger] present(i) {
        assert forall|i: int| 0 <= i < folders.len() implies !kept(#[trigger] folders[i]) by {
            assert(!present(i));
        }
    }
    if 0 <= k < folders.len() && present(k) && (forall|i: int| 0 <= i < folders.len() && i != k ==> !#[trigger] present(i)) {
        assert forall|i: int| 0 <= i < folders.len() && i != k implies !kept(#[trigger] folders[i]) by {
            assert(!present(i));
        }
        lemma_filter_one(folders, kept, k);
        lemma_sorted_one(folders[k]);
    }
    if 0 <= k < l < folders.len() && present(k) && present(l) {
        lemma_filter_two(folders, kept, k, l);
        lemma_listed(worktree, chosen, folders[k]);
        lemma_listed(worktree, chosen, folders[l]);
    }
}

proof fn lemma_places(worktree: Seq<char>)
    requires
        worktree.len() > 0,
        worktree.last() != '/',
    ensures
        primary_path(worktree) == worktree + "/.devcontainer/devcontainer.json"@,
        path::joined(worktree, ".devcontainer.json"@) == worktree + "/.devcontainer.json"@,
        path::joined(worktree, ".devcontainer"@) == worktree + "/.devcontainer"@,
{
    reveal_strlit("/");
    reveal_strlit(".devcontainer");
    reveal_strlit("/.devcontainer");
    reveal_strlit("devcontainer.json");
    reveal_strlit(".devcontainer.json");
    reveal_strlit("/.devcontainer.json");
    reveal_strlit("/.devcontainer/devcontainer.json");
    assert(worktree + "/"@ + ".devcontainer"@ =~= worktree + "/.devcontainer"@);
    assert(worktree + "/"@ + ".devcontainer.json"@ =~= worktree + "/.devcontainer.json"@);
    assert((worktree + "/.devcontainer"@).last() == 'r');
    assert("/.devcontainer/devcontainer.json"@ =~= "/.devcontainer"@ + "/"@ + "devcontainer.json"@);
    assert((worktree + "/.devcontainer"@) + "/"@ + "devcontainer.json"@ =~= worktree
        + "/.devcontainer/devcontainer.json"@);
}

proof fn lemma_folder(worktree: Seq<char>, folder: Seq<char>)
    requires
        worktree.len() > 0,
        worktree.last() != '/',
        folder.len() > 0,
        folder[0] != '/',
        folder.last() != '/',
    ensures
        nested_path(worktree, folder) == in_folder(worktree, folder),
{
    lemma_places(worktree);
    reveal_strlit("/");
    reveal_strlit("/.devcontainer");
    reveal_strlit("/.devcontainer/");
    reveal_strlit("devcontainer.json");
    reveal_strlit("/devcontainer.json");
    let a = worktree + "/.devcontainer"@;
    assert(a.last() == 'r');
    let b = a + "/"@ + folder;
    assert(b.last() == folder.last());
    assert("/.devcontainer/"@ =~= "/.devcontainer"@ + "/"@);
    assert("/devcontainer.json"@ =~= "/"@ + "devcontainer.json"@);
    assert(b + "/"@ + "devcontainer.json"@ =~= in_folder(worktree, folder));
}

proof fn lemma_filter_counts(s: Seq<Seq<char>>, f: spec_fn(Seq<char>) -> bool)
    ensures
        (forall|i: int| 0 <= i < s.len() ==> !f(#[trigger] s[i])) ==> s.filter(f).len() == 0,
    decreases s.len(),
{
    reveal(Seq::filter);
    if s.len() > 0 {
        let front = s.drop_last();
        lemma_filter_counts(front, f);
        if forall|i: int| 0 <= i < s.len() ==> !f(#[trigger] s[i]) {
            assert(!f(s[s.len() - 1]));
            assert forall|i: int| 0 <= i < front.len() implies !f(#[trigger] front[i]) by {
                assert(front[i] == s[i]);
            }
        }
    }
}

proof fn lemma_filter_one(s: Seq<Seq<char>>, f: spec_fn(Seq<char>) -> bool, k: int)
    requires
        0 <= k < s.len(),
        f(s[k]),
        forall|i: int| 0 <= i < s.len() && i != k ==> !f(#[trigger] s[i]),
    ensures
        s.filter(f) == seq![s[k]],
    decreases s.len(),
{
    reveal(Seq::filter);
    let front = s.drop_last();
    if k == s.len() - 1 {
        assert forall|i: int| 0 <= i < front.len() implies !f(#[trigger] front[i]) by {
            assert(front[i] == s[i]);
        }
        lemma_filter_counts(front, f);
        assert(s.filter(f) =~= seq![s[k]]);
    } else {
        assert(!f(s[s.len() - 1]));
        assert forall|i: int| 0 <= i < front.len() && i != k implies !f(#[trigger] front[i]) by {
            assert(front[i] == s[i]);
        }
        lemma_filter_one(front, f, k);
    }
}

proof fn lemma_filter_has(s: Seq<Seq<char>>, f: spec_fn(Seq<char>) -> bool, k: int)
    requires
        0 <= k < s.len(),
        f(s[k]),
    ensures
        s.filter(f).contains(s[k]),
        s.filter(f).len() > 0,
    decreases s.len(),
{
    reveal(Seq::filter);
    let front = s.drop_last();
    let r = front.filter(f);
    if k == s.len() - 1 {
        assert(s.filter(f)[r.len() as int] == s[k]);
    } else {
        lemma_filter_has(front, f, k);
        let i = choose|i: int| 0 <= i < r.len() && r[i] == s[k];
        assert(s.filter(f)[i] == s[k]);
    }
}

proof fn lemma_filter_two(s: Seq<Seq<char>>, f: spec_fn(Seq<char>) -> bool, k: int, l: int)
    requires
        0 <= k < l < s.len(),
        f(s[k]),
        f(s[l]),
    ensures
        s.filter(f).contains(s[k]),
        s.filter(f).contains(s[l]),
        s.filter(f).len() > 1,
    decreases s.len(),
{
    reveal(Seq::filter);
    let front = s.drop_last();
    lemma_filter_has(s, f, k);
    lemma_filter_has(s, f, l);
    if l == s.len() - 1 {
        lemma_filter_has(front, f, k);
    } else {
        lemma_filter_two(front, f, k, l);
    }
}

proof fn lemma_sorted_one(x: Seq<char>)
    ensures
        sort::sorted::<String>(seq![x]) == seq![x],
{
    reveal_with_fuel(sort::sorted, 2);
    assert(seq![x].drop_last() =~= Seq::<Seq<char>>::empty());
    assert(sort::sorted::<String>(seq![x]) =~= seq![x]);
}

proof fn lemma_listed(worktree: Seq<char>, chosen: Seq<Seq<char>>, folder: Seq<char>)
    requires
        chosen.contains(folder),
        nested_path(worktree, folder) == in_folder(worktree, folder),
    ensures
        ambiguous(worktree, sort::sorted::<String>(chosen)) matches AmErrorModel::ConfigError(m) && text::holds(
            m,
            in_folder(worktree, folder),
        ),
{
    broadcast use vstd::seq_lib::group_to_multiset_ensures;

    let found = sort::sorted::<String>(chosen);
    sort::law_sorted::<String>(chosen);
    assert(found.to_multiset().count(folder) > 0);
    assert(found.contains(folder));
    let i = choose|i: int| 0 <= i < found.len() && found[i] == folder;
    let lines = found.map_values(|f: Seq<char>| "  "@ + nested_path(worktree, f));
    assert(lines[i] == "  "@ + in_folder(worktree, folder));
    let j = text::joined(lines, "\n"@);
    text::lemma_joined_holds(lines, "\n"@, i);
    let p = in_folder(worktree, folder);
    lemma_part_of_part(j, "  "@, p);
    let head = "several devcontainer configs found under "@ + path::joined(worktree, ".devcontainer"@) + ":\n"@;
    let tail = "\nSet devcontainer.path in .am/config.toml to choose one"@;
    text::lemma_holds_more(head, j, tail);
}

proof fn lemma_part_of_part(s: Seq<char>, a: Seq<char>, b: Seq<char>)
    requires
        text::holds(s, a + b),
    ensures
        text::holds(s, b),
{
    let p = a + b;
    let i = choose|i: int|
        #![trigger s.subrange(i, i + p.len())]
        0 <= i && i + p.len() <= s.len() && s.subrange(i, i + p.len()) == p;
    let k = i + a.len();
    assert(s.subrange(k, k + b.len()) =~= p.subrange(a.len() as int, p.len() as int));
    assert(p.subrange(a.len() as int, p.len() as int) =~= b);
}

} // verus!
