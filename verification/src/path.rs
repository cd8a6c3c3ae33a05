//! Unix paths as text.

use vstd::prelude::*;

use crate::text;

verus! {

pub open spec fn is_absolute(p: Seq<char>) -> bool {
    p.len() > 0 && p[0] == '/'
}

/// `child` below `base`; an absolute `child` stands for itself.
pub open spec fn joined(base: Seq<char>, child: Seq<char>) -> Seq<char> {
    if is_absolute(child) || base.len() == 0 {
        child
    } else if base.last() == '/' {
        base + child
    } else {
        base + "/"@ + child
    }
}

pub fn absolute(p: &str) -> (r: bool)
    ensures
        r == is_absolute(p@),
{
    p.unicode_len() > 0 && p.get_char(0) == '/'
}

pub fn join(base: &str, child: &str) -> (r: String)
    ensures
        r@ == joined(base@, child@),
{
    let n: usize = base.unicode_len();
    if absolute(child) || n == 0 {
        child.to_owned()
    } else if base.get_char(n - 1) == '/' {
        text::cat2(base, child)
    } else {
        text::cat3(base, "/", child)
    }
}

/// `p` without trailing separators and `.` components.
pub open spec fn tidy(p: Seq<char>) -> Seq<char>
    decreases p.len(),
{
    if p.len() > 1 && p.last() == '/' {
        tidy(p.drop_last())
    } else if p.len() > 1 && p.last() == '.' && p[p.len() - 2] == '/' {
        tidy(p.drop_last())
    } else {
        p
    }
}

/// The last component, where it is a name.
pub open spec fn file_name(p: Seq<char>) -> Option<Seq<char>> {
    let t = tidy(p);
    let n = match text::split_last(t, '/') {
        Some((_, name)) => name,
        None => t,
    };
    if n.len() == 0 || n == "."@ || n == ".."@ {
        None
    } else {
        Some(n)
    }
}

/// Everything but the last component; none for the root and the empty path.
pub open spec fn parent(p: Seq<char>) -> Option<Seq<char>> {
    let t = tidy(p);
    if t.len() == 0 || t == "/"@ {
        None
    } else {
        match text::split_last(t, '/') {
            Some((head, _)) => if head.len() == 0 {
                Some("/"@)
            } else {
                Some(tidy(head))
            },
            None => Some(Seq::empty()),
        }
    }
}

fn tidied(p: &str) -> (r: &str)
    ensures
        r@ == tidy(p@),
{
    let cs = text::chars(p);
    let mut n: usize = cs.len();
    assert(p@.subrange(0, p@.len() as int) =~= p@);
    while n > 1 && (cs[n - 1] == '/' || (cs[n - 1] == '.' && cs[n - 2] == '/'))
        invariant
            cs@ == p@,
            n <= cs.len(),
            tidy(p@) == tidy(p@.subrange(0, n as int)),
        decreases n,
    {
        assert(p@.subrange(0, n as int).drop_last() =~= p@.subrange(0, n - 1));
        n = n - 1;
    }
    p.substring_char(0, n)
}

pub fn base_name(p: &str) -> (r: Option<&str>)
    ensures
        r.deep_view() == file_name(p@),
{
    let t = tidied(p);
    let n = match text::rsplit_once(t, '/') {
        Some((_, name)) => name,
        None => t,
    };
    if n.is_empty() || text::eq(n, ".") || text::eq(n, "..") {
        None
    } else {
        Some(n)
    }
}

pub fn parent_of(p: &str) -> (r: Option<&str>)
    ensures
        r.deep_view() == parent(p@),
{
    let t = tidied(p);
    if t.is_empty() || text::eq(t, "/") {
        None
    } else {
        match text::rsplit_once(t, '/') {
            Some((head, _)) => if head.is_empty() {
                Some("/")
            } else {
                Some(tidied(head))
            },
            None => {
                let e = t.substring_char(0, 0);
                assert(e@ =~= Seq::empty());
                Some(e)
            },
        }
    }
}

/// The last component without its extension.
pub open spec fn file_stem(p: Seq<char>) -> Option<Seq<char>> {
    match file_name(p) {
        None => None,
        Some(n) => match text::split_last(n, '.') {
            Some((stem, _)) if stem.len() > 0 => Some(stem),
            _ => Some(n),
        },
    }
}

pub fn stem(p: &str) -> (r: Option<&str>)
    ensures
        r.deep_view() == file_stem(p@),
{
    match base_name(p) {
        None => None,
        Some(n) => match text::rsplit_once(n, '.') {
            Some((stem, _)) => if stem.is_empty() {
                Some(n)
            } else {
                Some(stem)
            },
            None => Some(n),
        },
    }
}

/// A file below a directory has its own name there, and the directory for its parent. Without its extension
/// it has its stem. An absolute path stands for itself, wherever it is looked for.
pub proof fn law_a_file_is_below_its_directory(
    base: Seq<char>,
    name: Seq<char>,
    stem: Seq<char>,
    extension: Seq<char>,
    child: Seq<char>,
)
    requires
        base.len() > 0,
        tidy(base) == base,
        name.len() > 0 && !name.contains('/') && name != "."@ && name != ".."@,
    ensures
        file_name(joined(base, name)) == Some(name),
        parent(joined(base, name)) == Some(base),
        name == stem + "."@ + extension && stem.len() > 0 && !extension.contains('.') ==> file_stem(
            joined(base, name),
        ) == Some(stem),
        !name.contains('.') ==> file_stem(joined(base, name)) == Some(name),
        is_absolute(child) ==> joined(base, child) == child,
{
    reveal_strlit("/");
    reveal_strlit(".");
    reveal_strlit("..");
    let p = joined(base, name);
    let head = if base.last() == '/' {
        base.drop_last()
    } else {
        base
    };
    assert(!is_absolute(name)) by {
        if is_absolute(name) {
            assert(name.contains(name[0]));
        }
    }
    assert(p =~= head + "/"@ + name);
    if base.last() == '/' {
        assert(base.len() == 1) by {
            if base.len() > 1 {
                lemma_tidy_shrinks(base.drop_last());
            }
        }
        assert(base =~= "/"@);
    }
    assert forall|j: int| head.len() + 1 <= j < p.len() implies p[j] != '/' by {
        assert(p[j] == name[j - head.len() - 1]);
        assert(name.contains(name[j - head.len() - 1]));
    }
    assert(p[head.len() as int] == '/');
    assert(p.last() == name.last());
    assert(name.contains(name.last()));
    if p.last() == '.' && p[p.len() - 2] == '/' {
        assert(name =~= "."@);
    }
    assert(tidy(p) == p);
    text::lemma_last_end_is(p, '/', head.len() as int + 1);
    assert(p.subrange(0, head.len() as int) =~= head);
    assert(p.subrange(head.len() as int + 1, p.len() as int) =~= name);
    assert(p[head.len() as int] == '/' && p.len() > 1);
    if name == stem + "."@ + extension && stem.len() > 0 && !extension.contains('.') {
        assert forall|j: int| stem.len() + 1 <= j < name.len() implies name[j] != '.' by {
            assert(name[j] == extension[j - stem.len() - 1]);
            assert(extension.contains(extension[j - stem.len() - 1]));
        }
        text::lemma_last_end_is(name, '.', stem.len() as int + 1);
        assert(name.subrange(0, stem.len() as int) =~= stem);
    }
    if !name.contains('.') {
        text::lemma_last_end_is(name, '.', 0);
    }
}

proof fn lemma_tidy_shrinks(p: Seq<char>)
    ensures
        tidy(p).len() <= p.len(),
    decreases p.len(),
{
    if p.len() > 1 {
        lemma_tidy_shrinks(p.drop_last());
    }
}

} // verus!
