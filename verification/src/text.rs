//! Strings as sequences of characters.
//!
//! Every operation is stated over the character sequence that a string views as.

use vstd::prelude::*;

verus! {

/// `String::push` appends one character.
pub assume_specification[ String::push ](s: &mut String, c: char)
    ensures
        final(s)@ == old(s)@.push(c),
;

/// The characters of `s`.
pub fn chars(s: &str) -> (r: Vec<char>)
    ensures
        r@ == s@,
{
    let mut out: Vec<char> = Vec::new();
    for c in it: s.chars()
        invariant
            it.seq() == s@,
            out@ == s@.take(it.index()),
    {
        out.push(c);
        assert(s@.take(it.index()).push(c) =~= s@.take(it.index() + 1));
    }
    assert(s@.take(s@.len() as int) =~= s@);
    out
}

/// Whether two strings hold the same characters.
pub fn eq(a: &str, b: &str) -> (r: bool)
    ensures
        r == (a@ == b@),
{
    let x = chars(a);
    let y = chars(b);
    if x.len() != y.len() {
        return false;
    }
    let mut i: usize = 0;
    while i < x.len()
        invariant
            x@ == a@,
            y@ == b@,
            x@.len() == y@.len(),
            i <= x.len(),
            forall|j: int| 0 <= j < i ==> x@[j] == y@[j],
        decreases x.len() - i,
    {
        if x[i] != y[i] {
            assert(a@[i as int] != b@[i as int]);
            return false;
        }
        i = i + 1;
    }
    assert(x@ =~= y@);
    true
}

/// The string made of `cs[from..to]`.
pub fn from_range(cs: &Vec<char>, from: usize, to: usize) -> (r: String)
    requires
        from <= to <= cs.len(),
    ensures
        r@ == cs@.subrange(from as int, to as int),
{
    let mut out = String::new();
    let mut i: usize = from;
    while i < to
        invariant
            from <= i <= to <= cs.len(),
            out@ == cs@.subrange(from as int, i as int),
        decreases to - i,
    {
        out.push(cs[i]);
        i = i + 1;
        assert(cs@.subrange(from as int, i - 1).push(cs@[i - 1]) =~= cs@.subrange(from as int, i as int));
    }
    out
}

/// The string made of `cs`.
pub fn from_chars(cs: &Vec<char>) -> (r: String)
    ensures
        r@ == cs@,
{
    let r = from_range(cs, 0, cs.len());
    assert(cs@.subrange(0, cs@.len() as int) =~= cs@);
    r
}

/// The one-character text.
pub open spec fn single(c: char) -> Seq<char> {
    seq![c]
}

// ----------------------------------------------------------------------------------------------
// Prefixes and suffixes
// ----------------------------------------------------------------------------------------------

pub open spec fn has_prefix(s: Seq<char>, p: Seq<char>) -> bool {
    p.len() <= s.len() && s.subrange(0, p.len() as int) == p
}

pub open spec fn has_suffix(s: Seq<char>, p: Seq<char>) -> bool {
    p.len() <= s.len() && s.subrange(s.len() - p.len(), s.len() as int) == p
}

/// `s` without the prefix `p`, where it has one.
pub open spec fn without_prefix(s: Seq<char>, p: Seq<char>) -> Option<Seq<char>> {
    if has_prefix(s, p) {
        Some(s.subrange(p.len() as int, s.len() as int))
    } else {
        None
    }
}

pub fn starts_with(s: &str, p: &str) -> (r: bool)
    ensures
        r == has_prefix(s@, p@),
{
    let n: usize = p.unicode_len();
    if n > s.unicode_len() {
        return false;
    }
    eq(s.substring_char(0, n), p)
}

pub fn ends_with(s: &str, p: &str) -> (r: bool)
    ensures
        r == has_suffix(s@, p@),
{
    let n: usize = p.unicode_len();
    let len: usize = s.unicode_len();
    if n > len {
        return false;
    }
    eq(s.substring_char(len - n, len), p)
}

pub fn strip_prefix<'a>(s: &'a str, p: &str) -> (r: Option<&'a str>)
    ensures
        r.deep_view() == without_prefix(s@, p@),
{
    if starts_with(s, p) {
        Some(s.substring_char(p.unicode_len(), s.unicode_len()))
    } else {
        None
    }
}

// ----------------------------------------------------------------------------------------------
// Searching and splitting at a character
// ----------------------------------------------------------------------------------------------

/// The number of characters before the first `c`: its index, or the length where there is none.
pub open spec fn position(s: Seq<char>, c: char) -> nat
    decreases s.len(),
{
    if s.len() == 0 || s[0] == c {
        0
    } else {
        1 + position(s.drop_first(), c)
    }
}

/// One past the index of the last `c`, or 0 where there is none.
pub open spec fn last_end(s: Seq<char>, c: char) -> nat
    decreases s.len(),
{
    if s.len() == 0 {
        0
    } else if s.last() == c {
        s.len()
    } else {
        last_end(s.drop_last(), c)
    }
}

/// What stands before and after the first `c`.
pub open spec fn split_first(s: Seq<char>, c: char) -> Option<(Seq<char>, Seq<char>)> {
    let i: int = position(s, c) as int;
    if i < s.len() {
        Some((s.subrange(0, i), s.subrange(i + 1, s.len() as int)))
    } else {
        None
    }
}

/// What stands before and after the last `c`.
pub open spec fn split_last(s: Seq<char>, c: char) -> Option<(Seq<char>, Seq<char>)> {
    let e = last_end(s, c);
    if e > 0 {
        Some((s.subrange(0, e - 1), s.subrange(e as int, s.len() as int)))
    } else {
        None
    }
}

/// The pieces of `s` between the occurrences of `c`: at least one, possibly empty.
pub open spec fn split_at(s: Seq<char>, c: char) -> Seq<Seq<char>>
    decreases s.len(),
{
    let i: int = position(s, c) as int;
    if i < s.len() {
        seq![s.subrange(0, i)] + split_at(s.subrange(i + 1, s.len() as int), c)
    } else {
        seq![s]
    }
}

/// The pieces of two texts with `c` between them are the pieces of the one and then those of the other.
pub proof fn lemma_split_at_mark(a: Seq<char>, b: Seq<char>, c: char)
    ensures
        split_at(a + seq![c] + b, c) == split_at(a, c) + split_at(b, c),
    decreases a.len(),
{
    let s = a + seq![c] + b;
    lemma_position(a, c);
    let i = position(a, c) as int;
    assert forall|j: int| 0 <= j < i implies s[j] != c by {
        assert(s[j] == a[j]);
    }
    assert(s[i] == c);
    lemma_position_is(s, c, i);
    assert(s.subrange(0, i) =~= a.subrange(0, i));
    if i < a.len() {
        let t = a.subrange(i + 1, a.len() as int);
        lemma_split_at_mark(t, b, c);
        assert(s.subrange(i + 1, s.len() as int) =~= t + seq![c] + b);
        assert(split_at(s, c) =~= split_at(a, c) + split_at(b, c));
    } else {
        assert(a.subrange(0, i) =~= a);
        assert(s.subrange(i + 1, s.len() as int) =~= b);
    }
}

/// There is always a piece.
pub proof fn lemma_pieces(s: Seq<char>, c: char)
    ensures
        split_at(s, c).len() > 0,
{
}

/// A text without `c` is one piece.
pub proof fn lemma_one_piece(s: Seq<char>, c: char)
    requires
        !s.contains(c),
    ensures
        split_at(s, c) == seq![s],
{
    assert forall|j: int| 0 <= j < s.len() implies s[j] != c by {
        assert(s.contains(s[j]));
    }
    lemma_position_is(s, c, s.len() as int);
}

pub proof fn lemma_position(s: Seq<char>, c: char)
    ensures
        position(s, c) <= s.len(),
        position(s, c) < s.len() ==> s[position(s, c) as int] == c,
        forall|j: int| 0 <= j < position(s, c) ==> s[j] != c,
    decreases s.len(),
{
    if s.len() > 0 && s[0] != c {
        let t = s.drop_first();
        lemma_position(t, c);
        assert forall|j: int| 0 <= j < position(s, c) implies s[j] != c by {
            if j > 0 {
                assert(s[j] == t[j - 1]);
            }
        }
    }
}

pub proof fn lemma_position_is(s: Seq<char>, c: char, i: int)
    requires
        0 <= i <= s.len(),
        i < s.len() ==> s[i] == c,
        forall|j: int| 0 <= j < i ==> s[j] != c,
    ensures
        position(s, c) == i,
{
    lemma_position(s, c);
    let p = position(s, c) as int;
    if p < i {
        assert(s[p] != c);
    } else if i < p {
        assert(s[i] != c);
    }
}

pub proof fn lemma_last_end(s: Seq<char>, c: char)
    ensures
        last_end(s, c) <= s.len(),
        last_end(s, c) > 0 ==> s[last_end(s, c) - 1] == c,
        forall|j: int| last_end(s, c) <= j < s.len() ==> s[j] != c,
    decreases s.len(),
{
    if s.len() > 0 && s.last() != c {
        let t = s.drop_last();
        lemma_last_end(t, c);
        assert forall|j: int| last_end(s, c) <= j < s.len() implies s[j] != c by {
            if j < s.len() - 1 {
                assert(s[j] == t[j]);
            }
        }
    }
}

pub proof fn lemma_last_end_is(s: Seq<char>, c: char, e: int)
    requires
        0 <= e <= s.len(),
        e > 0 ==> s[e - 1] == c,
        forall|j: int| e <= j < s.len() ==> s[j] != c,
    ensures
        last_end(s, c) == e,
{
    lemma_last_end(s, c);
    let p = last_end(s, c) as int;
    if p < e {
        assert(s[e - 1] != c);
    } else if e < p {
        assert(s[p - 1] != c);
    }
}

pub fn find(cs: &Vec<char>, from: usize, c: char) -> (r: usize)
    requires
        from <= cs.len(),
    ensures
        r == from + position(cs@.subrange(from as int, cs@.len() as int), c),
        r <= cs.len(),
        r < cs.len() ==> cs@[r as int] == c,
        forall|j: int| from <= j < r ==> cs@[j] != c,
{
    let ghost tail = cs@.subrange(from as int, cs@.len() as int);
    let mut i: usize = from;
    while i < cs.len() && cs[i] != c
        invariant
            from <= i <= cs.len(),
            forall|j: int| from <= j < i ==> cs@[j] != c,
        decreases cs.len() - i,
    {
        i = i + 1;
    }
    proof {
        assert(forall|j: int| 0 <= j < i - from ==> tail[j] == cs@[j + from]);
        lemma_position_is(tail, c, i - from);
    }
    i
}

pub fn contains(s: &str, c: char) -> (r: bool)
    ensures
        r == s@.contains(c),
{
    let cs = chars(s);
    let i: usize = find(&cs, 0, c);
    assert(i < cs.len() ==> s@[i as int] == c);
    i < cs.len()
}

pub fn split_once<'a>(s: &'a str, c: char) -> (r: Option<(&'a str, &'a str)>)
    ensures
        r.deep_view() == split_first(s@, c),
{
    let cs = chars(s);
    let i: usize = find(&cs, 0, c);
    assert(s@.subrange(0, s@.len() as int) =~= s@);
    if i < cs.len() {
        Some((s.substring_char(0, i), s.substring_char(i + 1, cs.len())))
    } else {
        None
    }
}

pub fn rsplit_once<'a>(s: &'a str, c: char) -> (r: Option<(&'a str, &'a str)>)
    ensures
        r.deep_view() == split_last(s@, c),
{
    let cs = chars(s);
    let mut e: usize = cs.len();
    while e > 0 && cs[e - 1] != c
        invariant
            e <= cs.len(),
            forall|j: int| e <= j < cs.len() ==> cs@[j] != c,
        decreases e,
    {
        e = e - 1;
    }
    proof {
        lemma_last_end_is(s@, c, e as int);
    }
    if e > 0 {
        Some((s.substring_char(0, e - 1), s.substring_char(e, cs.len())))
    } else {
        None
    }
}

pub fn split(s: &str, c: char) -> (r: Vec<String>)
    ensures
        r.deep_view() == split_at(s@, c),
        r.len() > 0,
{
    let cs = chars(s);
    let mut out: Vec<String> = Vec::new();
    let mut from: usize = 0;
    let mut i: usize = find(&cs, 0, c);
    assert(s@.subrange(0, s@.len() as int) =~= s@);
    while i < cs.len()
        invariant
            cs@ == s@,
            from <= i <= cs.len(),
            i == from + position(s@.subrange(from as int, s@.len() as int), c),
            split_at(s@, c) =~= out.deep_view() + split_at(s@.subrange(from as int, s@.len() as int), c),
        decreases cs.len() - from,
    {
        let ghost rest = s@.subrange(from as int, s@.len() as int);
        push(&mut out, from_range(&cs, from, i));
        proof {
            assert(rest.subrange(0, i - from) =~= s@.subrange(from as int, i as int));
            assert(rest.subrange(i - from + 1, rest.len() as int) =~= s@.subrange(i + 1, s@.len() as int));
            assert(split_at(rest, c) == seq![s@.subrange(from as int, i as int)] + split_at(
                s@.subrange(i + 1, s@.len() as int),
                c,
            ));
        }
        from = i + 1;
        i = find(&cs, from, c);
    }
    push(&mut out, from_range(&cs, from, cs.len()));
    out
}

/// Whether `p` stands somewhere in `s`.
pub open spec fn holds(s: Seq<char>, p: Seq<char>) -> bool {
    exists|i: int| #![trigger s.subrange(i, i + p.len())] 0 <= i && i + p.len() <= s.len() && s.subrange(i, i + p.len()) == p
}

pub fn contains_str(s: &str, p: &str) -> (r: bool)
    ensures
        r == holds(s@, p@),
{
    let n: usize = s.unicode_len();
    let k: usize = p.unicode_len();
    let mut i: usize = 0;
    while i <= n && k <= n - i
        invariant
            n == s@.len(),
            k == p@.len(),
            i <= n + 1,
            n < usize::MAX || i <= n,
            forall|j: int| 0 <= j < i && j + k <= n ==> (#[trigger] s@.subrange(j, j + p@.len())) != p@,
        decreases n + 1 - i,
    {
        if eq(s.substring_char(i, i + k), p) {
            assert(s@.subrange(i as int, i + p@.len()) == p@);
            return true;
        }
        if i == n {
            return false;
        }
        i = i + 1;
    }
    false
}

// ----------------------------------------------------------------------------------------------
// Building lists of strings
// ----------------------------------------------------------------------------------------------

/// Appends `s`.
pub fn push(v: &mut Vec<String>, s: String)
    ensures
        final(v).deep_view() == old(v).deep_view().push(s@),
        final(v)@ == old(v)@.push(s),
{
    v.push(s);
    assert(v.deep_view() =~= old(v).deep_view().push(s@));
}

/// Appends a copy of `s`.
pub fn push_str(v: &mut Vec<String>, s: &str)
    ensures
        final(v).deep_view() == old(v).deep_view().push(s@),
{
    push(v, s.to_owned());
}

// ----------------------------------------------------------------------------------------------
// Trimming
// ----------------------------------------------------------------------------------------------

/// The Unicode `White_Space` property.
pub open spec fn is_space(c: char) -> bool {
    ||| 0x9 <= c as u32 <= 0xd
    ||| c as u32 == 0x20
    ||| c as u32 == 0x85
    ||| c as u32 == 0xa0
    ||| c as u32 == 0x1680
    ||| 0x2000 <= c as u32 <= 0x200a
    ||| c as u32 == 0x2028
    ||| c as u32 == 0x2029
    ||| c as u32 == 0x202f
    ||| c as u32 == 0x205f
    ||| c as u32 == 0x3000
}

pub fn is_whitespace(c: char) -> (r: bool)
    ensures
        r == is_space(c),
{
    let n: u32 = c as u32;
    (0x9 <= n && n <= 0xd) || n == 0x20 || n == 0x85 || n == 0xa0 || n == 0x1680 || (0x2000 <= n && n
        <= 0x200a) || n == 0x2028 || n == 0x2029 || n == 0x202f || n == 0x205f || n == 0x3000
}

/// `s` without its leading whitespace.
pub open spec fn trimmed_start(s: Seq<char>) -> Seq<char>
    decreases s.len(),
{
    if s.len() > 0 && is_space(s[0]) {
        trimmed_start(s.drop_first())
    } else {
        s
    }
}

/// `s` without its trailing whitespace.
pub open spec fn trimmed_end(s: Seq<char>) -> Seq<char>
    decreases s.len(),
{
    if s.len() > 0 && is_space(s.last()) {
        trimmed_end(s.drop_last())
    } else {
        s
    }
}

/// `s` without whitespace at either end.
pub open spec fn trimmed(s: Seq<char>) -> Seq<char> {
    trimmed_end(trimmed_start(s))
}

/// `s` without any `c` at its end.
pub open spec fn trimmed_end_char(s: Seq<char>, c: char) -> Seq<char>
    decreases s.len(),
{
    if s.len() > 0 && s.last() == c {
        trimmed_end_char(s.drop_last(), c)
    } else {
        s
    }
}

/// `s` without any `c` at its start.
pub open spec fn trimmed_start_char(s: Seq<char>, c: char) -> Seq<char>
    decreases s.len(),
{
    if s.len() > 0 && s[0] == c {
        trimmed_start_char(s.drop_first(), c)
    } else {
        s
    }
}

/// `s` with the prefix `p` removed as often as it is there.
pub open spec fn trimmed_prefixes(s: Seq<char>, p: Seq<char>) -> Seq<char>
    decreases s.len(),
{
    if p.len() > 0 && has_prefix(s, p) {
        trimmed_prefixes(s.subrange(p.len() as int, s.len() as int), p)
    } else {
        s
    }
}

pub fn trim_start(s: &str) -> (r: &str)
    ensures
        r@ == trimmed_start(s@),
{
    let cs = chars(s);
    let mut i: usize = 0;
    assert(s@.subrange(0, s@.len() as int) =~= s@);
    while i < cs.len() && is_whitespace(cs[i])
        invariant
            cs@ == s@,
            i <= cs.len(),
            trimmed_start(s@) == trimmed_start(s@.subrange(i as int, s@.len() as int)),
        decreases cs.len() - i,
    {
        assert(s@.subrange(i as int, s@.len() as int).drop_first() =~= s@.subrange(i + 1, s@.len() as int));
        i = i + 1;
    }
    s.substring_char(i, cs.len())
}

pub fn trim_end(s: &str) -> (r: &str)
    ensures
        r@ == trimmed_end(s@),
{
    let cs = chars(s);
    let mut e: usize = cs.len();
    assert(s@.subrange(0, s@.len() as int) =~= s@);
    while e > 0 && is_whitespace(cs[e - 1])
        invariant
            cs@ == s@,
            e <= cs.len(),
            trimmed_end(s@) == trimmed_end(s@.subrange(0, e as int)),
        decreases e,
    {
        assert(s@.subrange(0, e as int).drop_last() =~= s@.subrange(0, e - 1));
        e = e - 1;
    }
    s.substring_char(0, e)
}

pub fn trim(s: &str) -> (r: &str)
    ensures
        r@ == trimmed(s@),
{
    trim_end(trim_start(s))
}

pub fn trim_end_char(s: &str, c: char) -> (r: &str)
    ensures
        r@ == trimmed_end_char(s@, c),
{
    let cs = chars(s);
    let mut e: usize = cs.len();
    assert(s@.subrange(0, s@.len() as int) =~= s@);
    while e > 0 && cs[e - 1] == c
        invariant
            cs@ == s@,
            e <= cs.len(),
            trimmed_end_char(s@, c) == trimmed_end_char(s@.subrange(0, e as int), c),
        decreases e,
    {
        assert(s@.subrange(0, e as int).drop_last() =~= s@.subrange(0, e - 1));
        e = e - 1;
    }
    s.substring_char(0, e)
}

pub fn trim_start_char(s: &str, c: char) -> (r: &str)
    ensures
        r@ == trimmed_start_char(s@, c),
{
    let cs = chars(s);
    let mut i: usize = 0;
    assert(s@.subrange(0, s@.len() as int) =~= s@);
    while i < cs.len() && cs[i] == c
        invariant
            cs@ == s@,
            i <= cs.len(),
            trimmed_start_char(s@, c) == trimmed_start_char(s@.subrange(i as int, s@.len() as int), c),
        decreases cs.len() - i,
    {
        assert(s@.subrange(i as int, s@.len() as int).drop_first() =~= s@.subrange(i + 1, s@.len() as int));
        i = i + 1;
    }
    s.substring_char(i, cs.len())
}

pub fn trim_prefixes<'a>(s: &'a str, p: &str) -> (r: &'a str)
    requires
        p@.len() > 0,
    ensures
        r@ == trimmed_prefixes(s@, p@),
    decreases s@.len(),
{
    match strip_prefix(s, p) {
        Some(rest) => trim_prefixes(rest, p),
        None => s,
    }
}

// ----------------------------------------------------------------------------------------------
// Replacing and joining
// ----------------------------------------------------------------------------------------------

/// `s` with every `c` replaced by `with`.
pub open spec fn replaced(s: Seq<char>, c: char, with: Seq<char>) -> Seq<char>
    decreases s.len(),
{
    if s.len() == 0 {
        Seq::empty()
    } else {
        replaced(s.drop_last(), c, with) + (if s.last() == c {
            with
        } else {
            seq![s.last()]
        })
    }
}

pub fn replace(s: &str, c: char, with: &str) -> (r: String)
    ensures
        r@ == replaced(s@, c, with@),
{
    let cs = chars(s);
    let mut out = String::new();
    let mut i: usize = 0;
    while i < cs.len()
        invariant
            cs@ == s@,
            i <= cs.len(),
            out@ == replaced(s@.subrange(0, i as int), c, with@),
        decreases cs.len() - i,
    {
        let ghost before = out@;
        if cs[i] == c {
            out.append(with);
        } else {
            out.push(cs[i]);
            assert(out@ =~= before + seq![s@[i as int]]);
        }
        i = i + 1;
        assert(s@.subrange(0, i as int).drop_last() =~= s@.subrange(0, i - 1));
    }
    assert(s@.subrange(0, s@.len() as int) =~= s@);
    out
}

/// The parts with `sep` between them.
pub open spec fn joined(parts: Seq<Seq<char>>, sep: Seq<char>) -> Seq<char>
    decreases parts.len(),
{
    if parts.len() == 0 {
        Seq::empty()
    } else if parts.len() == 1 {
        parts[0]
    } else {
        joined(parts.drop_last(), sep) + sep + parts.last()
    }
}

pub fn join(parts: &Vec<String>, sep: &str) -> (r: String)
    ensures
        r@ == joined(parts.deep_view(), sep@),
{
    let mut out = String::new();
    let mut i: usize = 0;
    let ghost all = parts.deep_view();
    while i < parts.len()
        invariant
            all == parts.deep_view(),
            i <= parts.len(),
            out@ == joined(all.subrange(0, i as int), sep@),
        decreases parts.len() - i,
    {
        if i > 0 {
            out.append(sep);
        }
        let ghost before = out@;
        out.append(parts[i].as_str());
        assert(i == 0 ==> before + all[i as int] =~= all[i as int]);
        i = i + 1;
        assert(all.subrange(0, i as int).drop_last() =~= all.subrange(0, i - 1));
    }
    assert(all.subrange(0, all.len() as int) =~= all);
    out
}

pub fn cat2(a: &str, b: &str) -> (r: String)
    ensures
        r@ == a@ + b@,
{
    let mut s = a.to_owned();
    s.append(b);
    s
}

pub fn cat3(a: &str, b: &str, c: &str) -> (r: String)
    ensures
        r@ == a@ + b@ + c@,
{
    let mut s = cat2(a, b);
    s.append(c);
    s
}

pub fn cat4(a: &str, b: &str, c: &str, d: &str) -> (r: String)
    ensures
        r@ == a@ + b@ + c@ + d@,
{
    let mut s = cat3(a, b, c);
    s.append(d);
    s
}

pub fn cat5(a: &str, b: &str, c: &str, d: &str, e: &str) -> (r: String)
    ensures
        r@ == a@ + b@ + c@ + d@ + e@,
{
    let mut s = cat4(a, b, c, d);
    s.append(e);
    s
}

pub fn cat6(a: &str, b: &str, c: &str, d: &str, e: &str, f: &str) -> (r: String)
    ensures
        r@ == a@ + b@ + c@ + d@ + e@ + f@,
{
    let mut s = cat5(a, b, c, d, e);
    s.append(f);
    s
}

pub fn cat7(a: &str, b: &str, c: &str, d: &str, e: &str, f: &str, g: &str) -> (r: String)
    ensures
        r@ == a@ + b@ + c@ + d@ + e@ + f@ + g@,
{
    let mut s = cat6(a, b, c, d, e, f);
    s.append(g);
    s
}

// ----------------------------------------------------------------------------------------------
// Letter case and character classes
// ----------------------------------------------------------------------------------------------

pub open spec fn is_lower(c: char) -> bool {
    'a' <= c <= 'z'
}

pub open spec fn is_upper(c: char) -> bool {
    'A' <= c <= 'Z'
}

pub open spec fn is_digit(c: char) -> bool {
    '0' <= c <= '9'
}

/// An ASCII letter or digit.
pub open spec fn is_word(c: char) -> bool {
    is_lower(c) || is_upper(c) || is_digit(c)
}

pub open spec fn is_ascii_char(c: char) -> bool {
    c as u32 <= 0x7f
}

pub open spec fn all_ascii(s: Seq<char>) -> bool {
    forall|i: int| 0 <= i < s.len() ==> is_ascii_char(#[trigger] s[i])
}

/// The lower-case form of an ASCII character.
pub open spec fn ascii_lower(c: char) -> char {
    if is_upper(c) {
        (c as u32 + 32) as char
    } else {
        c
    }
}

/// The upper-case form of an ASCII character.
pub open spec fn ascii_upper(c: char) -> char {
    if is_lower(c) {
        (c as u32 - 32) as char
    } else {
        c
    }
}

pub fn is_ascii_lower(c: char) -> (r: bool)
    ensures
        r == is_lower(c),
{
    'a' <= c && c <= 'z'
}

pub fn is_ascii_upper(c: char) -> (r: bool)
    ensures
        r == is_upper(c),
{
    'A' <= c && c <= 'Z'
}

pub fn is_ascii_digit(c: char) -> (r: bool)
    ensures
        r == is_digit(c),
{
    '0' <= c && c <= '9'
}

pub fn is_ascii_word(c: char) -> (r: bool)
    ensures
        r == is_word(c),
{
    is_ascii_lower(c) || is_ascii_upper(c) || is_ascii_digit(c)
}

/// What `str::to_lowercase` makes of a text.
pub uninterp spec fn lowercase(s: Seq<char>) -> Seq<char>;

/// What `str::to_uppercase` makes of a text.
pub uninterp spec fn uppercase(s: Seq<char>) -> Seq<char>;

/// Whether `char::is_alphanumeric` holds of a character.
pub uninterp spec fn alphanumeric(c: char) -> bool;

/// `str::to_lowercase`: named, and on ASCII text the letters `A` to `Z` become `a` to `z`.
#[verifier::external_body]
pub(crate) fn to_lowercase(s: &str) -> (r: String)
    ensures
        r@ == lowercase(s@),
        all_ascii(s@) ==> r@ == s@.map_values(|c: char| ascii_lower(c)),
{
    s.to_lowercase()
}

/// `str::to_uppercase`: named, and on ASCII text the letters `a` to `z` become `A` to `Z`.
#[verifier::external_body]
pub(crate) fn to_uppercase(s: &str) -> (r: String)
    ensures
        r@ == uppercase(s@),
        all_ascii(s@) ==> r@ == s@.map_values(|c: char| ascii_upper(c)),
{
    s.to_uppercase()
}

/// `char::is_alphanumeric`: named, and of the ASCII characters it holds of letters and digits only.
#[verifier::external_body]
pub(crate) fn is_alphanumeric(c: char) -> (r: bool)
    ensures
        r == alphanumeric(c),
        is_ascii_char(c) ==> r == is_word(c),
{
    c.is_alphanumeric()
}

// ----------------------------------------------------------------------------------------------
// Order
// ----------------------------------------------------------------------------------------------

/// Lexicographic order by code point.
pub open spec fn less(a: Seq<char>, b: Seq<char>) -> bool
    decreases a.len(),
{
    if b.len() == 0 {
        false
    } else if a.len() == 0 {
        true
    } else if a[0] != b[0] {
        a[0] < b[0]
    } else {
        less(a.drop_first(), b.drop_first())
    }
}

pub proof fn lemma_less_irreflexive(a: Seq<char>)
    ensures
        !less(a, a),
    decreases a.len(),
{
    if a.len() > 0 {
        lemma_less_irreflexive(a.drop_first());
    }
}

pub proof fn lemma_less_total(a: Seq<char>, b: Seq<char>)
    ensures
        a == b || less(a, b) || less(b, a),
    decreases a.len(),
{
    if a.len() > 0 && b.len() > 0 && a[0] == b[0] {
        lemma_less_total(a.drop_first(), b.drop_first());
        if a.drop_first() == b.drop_first() {
            assert(a =~= seq![a[0]] + a.drop_first());
            assert(b =~= seq![b[0]] + b.drop_first());
        }
    } else if a.len() == 0 && b.len() == 0 {
        assert(a =~= b);
    }
}

pub proof fn lemma_less_transitive(a: Seq<char>, b: Seq<char>, c: Seq<char>)
    requires
        less(a, b),
        less(b, c),
    ensures
        less(a, c),
    decreases a.len(),
{
    if a.len() > 0 && a[0] == b[0] && b[0] == c[0] {
        lemma_less_transitive(a.drop_first(), b.drop_first(), c.drop_first());
    }
}

pub proof fn lemma_less_asymmetric(a: Seq<char>, b: Seq<char>)
    ensures
        !(less(a, b) && less(b, a)),
{
    if less(a, b) && less(b, a) {
        lemma_less_transitive(a, b, a);
        lemma_less_irreflexive(a);
    }
}

/// Whether `a` comes before `b`.
pub fn is_less(a: &str, b: &str) -> (r: bool)
    ensures
        r == less(a@, b@),
{
    let x = chars(a);
    let y = chars(b);
    let mut i: usize = 0;
    assert(a@.subrange(0, a@.len() as int) =~= a@);
    assert(b@.subrange(0, b@.len() as int) =~= b@);
    while i < x.len() && i < y.len() && x[i] == y[i]
        invariant
            x@ == a@,
            y@ == b@,
            i <= x.len(),
            i <= y.len(),
            less(a@, b@) == less(a@.subrange(i as int, a@.len() as int), b@.subrange(i as int, b@.len() as int)),
        decreases x.len() - i,
    {
        assert(a@.subrange(i as int, a@.len() as int).drop_first() =~= a@.subrange(i + 1, a@.len() as int));
        assert(b@.subrange(i as int, b@.len() as int).drop_first() =~= b@.subrange(i + 1, b@.len() as int));
        i = i + 1;
    }
    if i >= y.len() {
        false
    } else if i >= x.len() {
        true
    } else {
        x[i] < y[i]
    }
}

// ----------------------------------------------------------------------------------------------
// Numbers
// ----------------------------------------------------------------------------------------------

/// The decimal digit `d`.
pub open spec fn digit_char(d: nat) -> char {
    (48 + d) as char
}

/// `n` in decimal, without leading zeros.
pub open spec fn decimal(n: nat) -> Seq<char>
    decreases n,
{
    if n < 10 {
        seq![digit_char(n)]
    } else {
        decimal(n / 10).push(digit_char(n % 10))
    }
}

/// The number that a sequence of decimal digits stands for.
pub open spec fn digits_value(s: Seq<char>) -> nat
    decreases s.len(),
{
    if s.len() == 0 {
        0
    } else {
        10 * digits_value(s.drop_last()) + (s.last() as u32 - 48) as nat
    }
}

pub open spec fn all_digits(s: Seq<char>) -> bool {
    forall|i: int| 0 <= i < s.len() ==> is_digit(#[trigger] s[i])
}

/// `s` without one leading plus sign.
pub open spec fn unsigned_digits(s: Seq<char>) -> Seq<char> {
    if s.len() > 0 && s[0] == '+' {
        s.drop_first()
    } else {
        s
    }
}

/// The number that `s` spells: an optional plus sign and then digits, at most `max`.
pub open spec fn parsed(s: Seq<char>, max: nat) -> Option<nat> {
    let t = unsigned_digits(s);
    if t.len() > 0 && all_digits(t) && digits_value(t) <= max {
        Some(digits_value(t))
    } else {
        None
    }
}

fn digit_of(d: u64) -> (c: char)
    requires
        d < 10,
    ensures
        c == digit_char(d as nat),
{
    (48 + (d as u8)) as char
}

/// `n` in decimal.
pub fn decimal_of(n: u64) -> (r: String)
    ensures
        r@ == decimal(n as nat),
    decreases n,
{
    if n < 10 {
        let mut s = String::new();
        s.push(digit_of(n));
        assert(s@ =~= seq![digit_char(n as nat)]);
        s
    } else {
        let mut s = decimal_of(n / 10);
        s.push(digit_of(n % 10));
        s
    }
}

proof fn lemma_digits_value_prefix(s: Seq<char>, i: int)
    requires
        0 <= i <= s.len(),
        all_digits(s),
    ensures
        digits_value(s.subrange(0, i)) <= digits_value(s),
    decreases s.len() - i,
{
    if i < s.len() {
        lemma_digits_value_prefix(s, i + 1);
        let t = s.subrange(0, i + 1);
        assert(t.drop_last() =~= s.subrange(0, i));
        assert(is_digit(s[i]));
    } else {
        assert(s.subrange(0, i) =~= s);
    }
}

/// Reads a number the way `str::parse` does on an unsigned integer type with maximum `max`.
pub fn parse_number(s: &str, max: u64) -> (r: Option<u64>)
    ensures
        r is Some == parsed(s@, max as nat) is Some,
        r matches Some(n) ==> parsed(s@, max as nat) == Some(n as nat),
{
    let all = chars(s);
    let start: usize = if all.len() > 0 && all[0] == '+' {
        1
    } else {
        0
    };
    let ghost t = unsigned_digits(s@);
    assert(t =~= s@.subrange(start as int, s@.len() as int));
    if start >= all.len() {
        return None;
    }
    let mut v: u64 = 0;
    let mut i: usize = start;
    while i < all.len()
        invariant
            all@ == s@,
            start <= i <= all.len(),
            t == s@.subrange(start as int, s@.len() as int),
            t == unsigned_digits(s@),
            forall|j: int| 0 <= j < i - start ==> is_digit(#[trigger] t[j]),
            v == digits_value(t.subrange(0, i - start)),
            v <= max,
        decreases all.len() - i,
    {
        let c = all[i];
        assert(t[i - start] == c);
        if !is_ascii_digit(c) {
            return None;
        }
        let d: u64 = (c as u32 - 48) as u64;
        let ghost next = t.subrange(0, i - start + 1);
        assert(next.drop_last() =~= t.subrange(0, i - start));
        assert(digits_value(next) == 10 * v + d);
        if d > max || v > (max - d) / 10 {
            proof {
                assert(10 * v + d > max);
                if all_digits(t) {
                    lemma_digits_value_prefix(t, i - start + 1);
                }
            }
            return None;
        }
        v = 10 * v + d;
        i = i + 1;
    }
    assert(t.subrange(0, t.len() as int) =~= t);
    Some(v)
}

// ----------------------------------------------------------------------------------------------
// Finding a text in another
// ----------------------------------------------------------------------------------------------

/// A text holds what stands in the middle of it.
pub proof fn lemma_holds_middle(x: Seq<char>, part: Seq<char>, y: Seq<char>)
    ensures
        holds(x + part + y, part),
{
    let s = x + part + y;
    let i = x.len() as int;
    assert(s.subrange(i, i + part.len()) =~= part);
}

/// What a text holds is still there with more after it and before it.
pub proof fn lemma_holds_more(x: Seq<char>, s: Seq<char>, y: Seq<char>)
    ensures
        forall|p: Seq<char>| #[trigger] holds(s, p) ==> holds(x + s + y, p),
        forall|p: Seq<char>| #[trigger] holds(s, p) ==> holds(x + s, p),
        forall|p: Seq<char>| #[trigger] holds(s, p) ==> holds(s + y, p),
{
    assert forall|p: Seq<char>| #[trigger] holds(s, p) implies holds(x + s + y, p) && holds(x + s, p) && holds(
        s + y,
        p,
    ) by {
        let i = choose|i: int|
            #![trigger s.subrange(i, i + p.len())]
            0 <= i && i + p.len() <= s.len() && s.subrange(i, i + p.len()) == p;
        let n = x.len() as int;
        assert((x + s + y).subrange(n + i, n + i + p.len()) =~= p);
        assert((x + s).subrange(n + i, n + i + p.len()) =~= p);
        assert((s + y).subrange(i, i + p.len()) =~= p);
    }
}

/// Joined parts begin with the first and end with the last.
pub proof fn lemma_joined_ends(parts: Seq<Seq<char>>, sep: Seq<char>)
    requires
        parts.len() > 0,
    ensures
        has_prefix(joined(parts, sep), parts[0]),
        has_suffix(joined(parts, sep), parts.last()),
    decreases parts.len(),
{
    let j = joined(parts, sep);
    if parts.len() == 1 {
        assert(j.subrange(0, j.len() as int) =~= j);
    } else {
        let front = parts.drop_last();
        let f = joined(front, sep);
        lemma_joined_ends(front, sep);
        assert(j == f + sep + parts.last());
        assert(j.subrange(j.len() - parts.last().len(), j.len() as int) =~= parts.last());
        assert(j.subrange(0, parts[0].len() as int) =~= f.subrange(0, parts[0].len() as int));
    }
}

proof fn lemma_end_holds(f: Seq<char>, sep: Seq<char>, last: Seq<char>, before: Seq<char>)
    requires
        has_suffix(f, before),
    ensures
        holds(f + sep + last, last),
        holds(f + sep + last, before + sep + last),
{
    let j = f + sep + last;
    let x = f.subrange(0, f.len() - before.len());
    let part = before + sep + last;
    assert(f =~= x + before);
    let i = x.len() as int;
    assert(j.subrange(i, i + part.len()) =~= part);
    let k = (f + sep).len() as int;
    assert(j.subrange(k, k + last.len()) =~= last);
}

proof fn lemma_associate(a: Seq<char>, b: Seq<char>, c: Seq<char>)
    ensures
        a + (b + c) == a + b + c,
{
    assert(a + (b + c) =~= a + b + c);
}

/// Joined parts hold each of them, and each next to the one before it.
pub proof fn lemma_joined_holds(parts: Seq<Seq<char>>, sep: Seq<char>, k: int)
    requires
        0 <= k < parts.len(),
    ensures
        holds(joined(parts, sep), parts[k]),
        k > 0 ==> holds(joined(parts, sep), parts[k - 1] + sep + parts[k]),
    decreases parts.len(),
{
    if parts.len() == 1 {
        lemma_holds_itself(parts[0]);
    } else {
        let front = parts.drop_last();
        let f = joined(front, sep);
        let last = parts.last();
        if k < front.len() {
            lemma_joined_holds(front, sep, k);
            lemma_associate(f, sep, last);
            lemma_holds_after(f, parts[k], sep + last);
            if k > 0 {
                lemma_holds_after(f, parts[k - 1] + sep + parts[k], sep + last);
            }
        } else {
            lemma_joined_ends(front, sep);
            lemma_end_holds(f, sep, last, front.last());
        }
    }
}

proof fn lemma_holds_itself(s: Seq<char>)
    ensures
        holds(s, s),
{
    let i: int = 0;
    assert(s.subrange(i, i + s.len()) =~= s);
}

/// What a text holds is still there with more after it.
pub proof fn lemma_holds_after(s: Seq<char>, p: Seq<char>, y: Seq<char>)
    requires
        holds(s, p),
    ensures
        holds(s + y, p),
{
    let i = choose|i: int|
        #![trigger s.subrange(i, i + p.len())]
        0 <= i && i + p.len() <= s.len() && s.subrange(i, i + p.len()) == p;
    assert((s + y).subrange(i, i + p.len()) =~= p);
}

// ----------------------------------------------------------------------------------------------
// Numbers
// ----------------------------------------------------------------------------------------------

/// A number in decimal is digits alone, and reads as the number it was.
pub proof fn law_decimals_are_read_back(n: nat)
    ensures
        decimal(n).len() > 0,
        forall|i: int| 0 <= i < decimal(n).len() ==> is_digit(#[trigger] decimal(n)[i]),
        digits_value(decimal(n)) == n,
    decreases n,
{
    if n >= 10 {
        law_decimals_are_read_back(n / 10);
        let d = decimal(n);
        let front = decimal(n / 10);
        assert(d.drop_last() =~= front);
        assert forall|i: int| 0 <= i < d.len() implies is_digit(#[trigger] d[i]) by {
            if i < front.len() {
                assert(d[i] == front[i]);
            }
        }
    } else {
        let d = decimal(n);
        assert(d.drop_last() =~= Seq::<char>::empty());
        reveal_with_fuel(digits_value, 2);
    }
}

// ----------------------------------------------------------------------------------------------
// Taking apart and putting together
// ----------------------------------------------------------------------------------------------

proof fn lemma_start_trimmed(s: Seq<char>) -> (r: Seq<char>)
    ensures
        s == r + trimmed_start(s),
        forall|i: int| 0 <= i < r.len() ==> is_space(#[trigger] r[i]),
        trimmed_start(s).len() > 0 ==> !is_space(trimmed_start(s)[0]),
    decreases s.len(),
{
    if s.len() > 0 && is_space(s[0]) {
        let r = lemma_start_trimmed(s.drop_first());
        let d = s.drop_first();
        let t = trimmed_start(s);
        assert(t == trimmed_start(d));
        assert(d == r + t);
        assert(s =~= seq![s[0]] + d);
        assert(seq![s[0]] + (r + t) =~= seq![s[0]] + r + t);
        seq![s[0]] + r
    } else {
        assert(s =~= Seq::<char>::empty() + s);
        Seq::empty()
    }
}

proof fn lemma_end_trimmed(s: Seq<char>) -> (r: Seq<char>)
    ensures
        s == trimmed_end(s) + r,
        forall|i: int| 0 <= i < r.len() ==> is_space(#[trigger] r[i]),
        trimmed_end(s).len() > 0 ==> !is_space(trimmed_end(s).last()),
    decreases s.len(),
{
    if s.len() > 0 && is_space(s.last()) {
        let r = lemma_end_trimmed(s.drop_last());
        let d = s.drop_last();
        let t = trimmed_end(s);
        assert(t == trimmed_end(d));
        assert(d == t + r);
        assert(s =~= d.push(s.last()));
        assert((t + r).push(s.last()) =~= t + r.push(s.last()));
        r.push(s.last())
    } else {
        assert(s =~= s + Seq::<char>::empty());
        Seq::empty()
    }
}

/// What is trimmed off a text is whitespace from its ends, all that is there, and nothing else.
pub proof fn law_whitespace_is_trimmed_off(s: Seq<char>) -> (r: (Seq<char>, Seq<char>))
    ensures
        s == r.0 + trimmed(s) + r.1,
        forall|i: int| 0 <= i < r.0.len() ==> is_space(#[trigger] r.0[i]),
        forall|i: int| 0 <= i < r.1.len() ==> is_space(#[trigger] r.1[i]),
        trimmed(s).len() > 0 ==> !is_space(trimmed(s)[0]) && !is_space(trimmed(s).last()),
{
    let a = lemma_start_trimmed(s);
    let b = lemma_end_trimmed(trimmed_start(s));
    assert(s =~= a + trimmed(s) + b);
    if trimmed(s).len() > 0 {
        assert(trimmed_start(s)[0] == trimmed(s)[0]);
    }
    (a, b)
}

proof fn lemma_joined_from_the_front(first: Seq<char>, rest: Seq<Seq<char>>, sep: Seq<char>)
    requires
        rest.len() > 0,
    ensures
        joined(seq![first] + rest, sep) == first + sep + joined(rest, sep),
    decreases rest.len(),
{
    let all = seq![first] + rest;
    if rest.len() == 1 {
        assert(all.drop_last() =~= seq![first]);
        assert(joined(seq![first], sep) == first);
        assert(all.last() == rest[0]);
    } else {
        lemma_joined_from_the_front(first, rest.drop_last(), sep);
        assert(all.drop_last() =~= seq![first] + rest.drop_last());
        assert(all.last() == rest.last());
        assert(joined(all, sep) =~= first + sep + joined(rest, sep));
    }
}

/// The pieces of a text hold no mark, and put together with the mark between them they are the text.
pub proof fn law_pieces_are_the_text(s: Seq<char>, c: char)
    ensures
        split_at(s, c).len() > 0,
        joined(split_at(s, c), seq![c]) == s,
        forall|i: int| 0 <= i < split_at(s, c).len() ==> !(#[trigger] split_at(s, c)[i]).contains(c),
    decreases s.len(),
{
    let i: int = position(s, c) as int;
    lemma_position(s, c);
    if i < s.len() {
        let head = s.subrange(0, i);
        let rest = s.subrange(i + 1, s.len() as int);
        law_pieces_are_the_text(rest, c);
        lemma_joined_from_the_front(head, split_at(rest, c), seq![c]);
        assert(s =~= head + seq![c] + rest);
        assert forall|k: int| 0 <= k < split_at(s, c).len() implies !(#[trigger] split_at(s, c)[k]).contains(c) by {
            if k > 0 {
                assert(split_at(s, c)[k] == split_at(rest, c)[k - 1]);
            }
        }
    }
}

/// Every occurrence is replaced, wherever it stands, and nothing else is.
pub proof fn law_every_occurrence_is_replaced(a: Seq<char>, b: Seq<char>, c: char, with: Seq<char>)
    ensures
        replaced(a + seq![c] + b, c, with) == replaced(a, c, with) + with + replaced(b, c, with),
        !a.contains(c) ==> replaced(a, c, with) == a,
    decreases a.len() + b.len(),
{
    let s = a + seq![c] + b;
    if b.len() > 0 {
        law_every_occurrence_is_replaced(a, b.drop_last(), c, with);
        assert(s.drop_last() =~= a + seq![c] + b.drop_last());
        assert(s.last() == b.last());
        assert(replaced(s, c, with) =~= replaced(a, c, with) + with + replaced(b, c, with));
    } else {
        assert(s.drop_last() =~= a);
        assert(s.last() == c);
        assert(replaced(s, c, with) =~= replaced(a, c, with) + with + replaced(b, c, with));
    }
    lemma_nothing_to_replace(a, c, with);
}

proof fn lemma_nothing_to_replace(a: Seq<char>, c: char, with: Seq<char>)
    ensures
        !a.contains(c) ==> replaced(a, c, with) == a,
    decreases a.len(),
{
    if a.len() > 0 && !a.contains(c) {
        let f = a.drop_last();
        assert(a.contains(a.last()));
        assert forall|i: int| 0 <= i < f.len() implies f[i] != c by {
            assert(a[i] == f[i]);
            assert(a.contains(a[i]));
        }
        lemma_nothing_to_replace(f, c, with);
        assert(a =~= f + seq![a.last()]);
    }
}

} // verus!
