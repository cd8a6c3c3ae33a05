//! What is accepted on the command line.

use vstd::prelude::*;

use crate::text;

verus! {

/// Whether a slug may begin with a character.
pub open spec fn may_begin(c: char) -> bool {
    text::is_lower(c) || text::is_digit(c)
}

/// Whether a slug may hold a character.
pub open spec fn may_hold(c: char) -> bool {
    text::is_lower(c) || text::is_digit(c) || c == '_' || c == '-'
}

/// What is made of a slug: at most 40 bytes of lower-case letters, digits, underscores and hyphens, a
/// letter or a digit first.
pub open spec fn slug_of(s: Seq<char>) -> Result<Seq<char>, Seq<char>> {
    let length = vstd::utf8::encode_utf8(s).len();
    if length == 0 || length > 40 {
        Err("slug must be 1–40 characters (got "@ + text::decimal(length) + ")"@)
    } else if !may_begin(s[0]) {
        Err("slug must start with a lowercase letter or digit"@)
    } else if !(forall|i: int| 0 <= i < s.len() ==> may_hold(#[trigger] s[i])) {
        Err("slug may only contain lowercase letters, digits, underscores, and hyphens"@)
    } else {
        Ok(s)
    }
}

/// Accepts a session's slug, or says what is wrong with it.
pub fn validate_slug(s: &str) -> (r: Result<String, String>)
    ensures
        match r {
            Ok(t) => slug_of(s@) == Ok::<Seq<char>, Seq<char>>(t@),
            Err(e) => slug_of(s@) == Err::<Seq<char>, Seq<char>>(e@),
        },
{
    let bytes = s.as_bytes_vec();
    let n: usize = bytes.len();
    if n == 0 || n > 40 {
        let number = text::decimal_of(n as u64);
        return Err(text::cat3("slug must be 1–40 characters (got ", number.as_str(), ")"));
    }
    let cs = text::chars(s);
    proof {
        if s@.len() == 0 {
            assert(vstd::utf8::encode_utf8(s@).len() == 0);
        }
    }
    if !text::is_ascii_lower(cs[0]) && !text::is_ascii_digit(cs[0]) {
        return Err("slug must start with a lowercase letter or digit".to_owned());
    }
    let mut i: usize = 0;
    while i < cs.len()
        invariant
            cs@ == s@,
            i <= cs.len(),
            s@.len() > 0,
            0 < vstd::utf8::encode_utf8(s@).len() <= 40,
            may_begin(s@[0]),
            forall|k: int| 0 <= k < i ==> may_hold(#[trigger] s@[k]),
        decreases cs.len() - i,
    {
        let c = cs[i];
        if !text::is_ascii_lower(c) && !text::is_ascii_digit(c) && c != '_' && c != '-' {
            assert(!may_hold(s@[i as int]));
            return Err("slug may only contain lowercase letters, digits, underscores, and hyphens".to_owned());
        }
        i = i + 1;
    }
    Ok(s.to_owned())
}

/// A slug that is accepted is kept as it is. It is accepted exactly where it has from 1 to 40 bytes, all of
/// them lower-case letters, digits, underscores and hyphens, and begins with a letter or a digit.
pub proof fn law_a_slug_is_kept_or_refused(s: Seq<char>)
    ensures
        slug_of(s) matches Ok(t) ==> t == s,
        slug_of(s) is Ok <==> {
            &&& 1 <= vstd::utf8::encode_utf8(s).len() <= 40
            &&& 'a' <= s[0] <= 'z' || '0' <= s[0] <= '9'
            &&& forall|i: int|
                0 <= i < s.len() ==> ('a' <= #[trigger] s[i] <= 'z' || '0' <= s[i] <= '9' || s[i] == '_' || s[i]
                    == '-')
        },
{
    assert forall|i: int| 0 <= i < s.len() implies (may_hold(#[trigger] s[i]) <==> ('a' <= s[i] <= 'z' || '0' <= s[i]
        <= '9' || s[i] == '_' || s[i] == '-')) by {}
    if forall|i: int|
        0 <= i < s.len() ==> ('a' <= #[trigger] s[i] <= 'z' || '0' <= s[i] <= '9' || s[i] == '_' || s[i] == '-') {
        assert forall|i: int| 0 <= i < s.len() implies may_hold(#[trigger] s[i]) by {}
    }
    if forall|i: int| 0 <= i < s.len() ==> may_hold(#[trigger] s[i]) {
        assert forall|i: int| 0 <= i < s.len() implies ('a' <= #[trigger] s[i] <= 'z' || '0' <= s[i] <= '9' || s[i]
            == '_' || s[i] == '-') by {
            assert(may_hold(s[i]));
        }
    }
}

} // verus!
