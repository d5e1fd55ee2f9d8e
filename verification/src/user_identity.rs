//! Checks on the identity of the user whose Store PATH entry is repaired: the
//! account SID and the profile directory read from the registry.
use vstd::prelude::*;

use crate::error::{invalid_input, ErrorKind, Result};
use crate::text::{
    all_digits, chars_of, contains_char, digits_value, has_char, is_ascii_letter, is_digit,
    slice_chars, split_chars, split_on, string_of,
};

verus! {

/// A textual security identifier `S-1-<authority>-<sub>...`: at most 184 characters,
/// four to eighteen dash-separated parts, and every part after `S-1` a decimal
/// number that fits in `u64`.
pub open spec fn sid_ok(t: Seq<char>) -> bool {
    let p = split_on(t, '-');
    &&& t.len() <= 184
    &&& 4 <= p.len() <= 18
    &&& p[0] == seq!['S']
    &&& p[1] == seq!['1']
    &&& forall|i: int| 2 <= i < p.len() ==> number_part(#[trigger] p[i])
}

pub open spec fn number_part(s: Seq<char>) -> bool {
    s.len() > 0 && all_digits(s) && digits_value(s) <= u64::MAX
}

/// Whether a run of digits denotes a number that fits in `u64`.
fn fits_u64(s: &[char]) -> (r: bool)
    requires
        all_digits(s@),
    ensures
        r == (digits_value(s@) <= u64::MAX),
{
    let mut acc: u128 = 0;
    let mut i: usize = 0;
    while i < s.len()
        invariant
            i <= s.len(),
            all_digits(s@),
            acc <= u64::MAX,
            acc == digits_value(s@.take(i as int)),
        decreases s.len() - i,
    {
        proof {
            assert(s@.take(i + 1).drop_last() =~= s@.take(i as int));
            assert(is_digit(s@[i as int]));
        }
        let d = (s[i] as u32 - '0' as u32) as u128;
        let next = acc * 10 + d;
        if next > u64::MAX as u128 {
            proof {
                lemma_digits_prefix(s@, i as int + 1);
            }
            return false;
        }
        acc = next;
        i = i + 1;
    }
    assert(s@.take(s@.len() as int) =~= s@);
    true
}

proof fn lemma_digits_prefix(s: Seq<char>, k: int)
    requires
        0 <= k <= s.len(),
        all_digits(s),
    ensures
        digits_value(s.take(k)) <= digits_value(s),
    decreases s.len() - k,
{
    if k < s.len() {
        lemma_digits_prefix(s, k + 1);
        assert(s.take(k + 1).drop_last() =~= s.take(k));
        assert(is_digit(s[k]));
    } else {
        assert(s.take(k) =~= s);
    }
}

fn is_number_part(s: &[char]) -> (r: bool)
    ensures
        r == number_part(s@),
{
    if s.len() == 0 {
        return false;
    }
    let mut i: usize = 0;
    while i < s.len()
        invariant
            i <= s.len(),
            forall|j: int| 0 <= j < i ==> is_digit(#[trigger] s@[j]),
        decreases s.len() - i,
    {
        if !('0' <= s[i] && s[i] <= '9') {
            assert(!is_digit(s@[i as int]));
            return false;
        }
        i = i + 1;
    }
    fits_u64(s)
}

pub open spec fn sid_message() -> Seq<char> {
    "Invalid original-user SID"@
}

/// Accepts the SID of the user whose PATH is repaired.
pub fn validate_sid(sid: &str) -> (r: Result<()>)
    ensures
        r is Ok <==> sid_ok(sid@),
        r matches Err(e) ==> e.spec_kind() == ErrorKind::Usage && e.spec_message() == sid_message(),
{
    let cs = chars_of(sid);
    let parts = split_chars(cs.as_slice(), '-');
    let ghost p = split_on(sid@, '-');
    proof {
        assert(parts@.map_values(|v: Vec<char>| v@) == p);
        assert(parts@.len() == p.len());
    }
    if cs.len() > 184 || parts.len() < 4 || parts.len() > 18 {
        return Err(invalid_input("Invalid original-user SID"));
    }
    proof {
        assert(parts@.map_values(|v: Vec<char>| v@)[0] == parts@[0]@);
        assert(parts@.map_values(|v: Vec<char>| v@)[1] == parts@[1]@);
    }
    if !(parts[0].len() == 1 && parts[0][0] == 'S') || !(parts[1].len() == 1 && parts[1][0] == '1') {
        proof {
            if parts@[0]@ == seq!['S'] {
                assert(parts@[0]@[0] == 'S');
            }
            if parts@[1]@ == seq!['1'] {
                assert(parts@[1]@[0] == '1');
            }
        }
        return Err(invalid_input("Invalid original-user SID"));
    }
    proof {
        assert(parts@[0]@ =~= seq!['S']);
        assert(parts@[1]@ =~= seq!['1']);
    }
    let mut i: usize = 2;
    while i < parts.len()
        invariant
            2 <= i <= parts.len(),
            parts@.len() == p.len(),
            p == split_on(sid@, '-'),
            forall|j: int| 0 <= j < p.len() ==> p[j] == (#[trigger] parts@[j])@,
            forall|j: int| 2 <= j < i ==> number_part(#[trigger] p[j]),
        decreases parts.len() - i,
    {
        if !is_number_part(parts[i].as_slice()) {
            assert(!number_part(p[i as int]));
            return Err(invalid_input("Invalid original-user SID"));
        }
        i = i + 1;
    }
    Ok(())
}

/// A character that may not appear in a profile directory kept on PATH.
pub open spec fn profile_forbidden(c: char) -> bool {
    c == '%' || c == ';' || c == '"' || c == '/' || c == '\0' || c == '\r' || c == '\n'
}

/// A fixed local directory `X:\a\b...`: a drive letter, a colon and a backslash,
/// then non-empty components other than `.` and `..`, and no character that could
/// expand, split, quote or redirect the entry.
pub open spec fn profile_ok(t: Seq<char>) -> bool {
    &&& t.len() >= 4
    &&& is_ascii_letter(t[0])
    &&& t[1] == ':'
    &&& t[2] == '\\'
    &&& !exists|i: int| 0 <= i < t.len() && profile_forbidden(#[trigger] t[i])
    &&& forall|i: int| 0 <= i < split_on(t.skip(3), '\\').len() ==> plain_component(
        #[trigger] split_on(t.skip(3), '\\')[i],
    )
}

pub open spec fn plain_component(s: Seq<char>) -> bool {
    s.len() > 0 && s != seq!['.'] && s != seq!['.', '.']
}

pub open spec fn profile_message() -> Seq<char> {
    "ProfileImagePath must be a fixed local directory; refusing environment-derived or redirected targets"@
}

fn has_forbidden(cs: &[char]) -> (r: bool)
    ensures
        r == exists|i: int| 0 <= i < cs@.len() && profile_forbidden(#[trigger] cs@[i]),
{
    let mut i: usize = 0;
    while i < cs.len()
        invariant
            i <= cs.len(),
            forall|j: int| 0 <= j < i ==> !profile_forbidden(#[trigger] cs@[j]),
        decreases cs.len() - i,
    {
        let c = cs[i];
        if c == '%' || c == ';' || c == '"' || c == '/' || c == '\0' || c == '\r' || c == '\n' {
            assert(profile_forbidden(cs@[i as int]));
            return true;
        }
        i = i + 1;
    }
    false
}

/// Accepts the profile directory read for the repaired user.
pub fn validate_profile(profile: &str) -> (r: Result<()>)
    ensures
        r is Ok <==> profile_ok(profile@),
        r matches Err(e) ==> e.spec_kind() == ErrorKind::Usage && e.spec_message() == profile_message(),
{
    let cs = chars_of(profile);
    if cs.len() < 4 || !(('a' <= cs[0] && cs[0] <= 'z') || ('A' <= cs[0] && cs[0] <= 'Z')) || cs[1]
        != ':' || cs[2] != '\\' || has_forbidden(cs.as_slice()) {
        return Err(invalid_input(
            "ProfileImagePath must be a fixed local directory; refusing environment-derived or redirected targets",
        ));
    }
    let rest = slice_chars(cs.as_slice(), 3, cs.len());
    let parts = split_chars(rest.as_slice(), '\\');
    let ghost p = split_on(profile@.skip(3), '\\');
    proof {
        assert(rest@ =~= profile@.skip(3));
        assert(parts@.map_values(|v: Vec<char>| v@) == p);
        assert(parts@.len() == p.len());
    }
    let mut i: usize = 0;
    while i < parts.len()
        invariant
            i <= parts.len(),
            parts@.len() == p.len(),
            p == split_on(profile@.skip(3), '\\'),
            forall|j: int| 0 <= j < p.len() ==> p[j] == (#[trigger] parts@[j])@,
            forall|j: int| 0 <= j < i ==> plain_component(#[trigger] p[j]),
        decreases parts.len() - i,
    {
        let part = &parts[i];
        let dot = part.len() == 1 && part[0] == '.';
        let dot_dot = part.len() == 2 && part[0] == '.' && part[1] == '.';
        proof {
            assert(p[i as int] == part@);
            if part@ == seq!['.'] {
                assert(part@[0] == '.');
            }
            if part@ == seq!['.', '.'] {
                assert(part@[0] == '.' && part@[1] == '.');
            }
            if dot {
                assert(part@ =~= seq!['.']);
            }
            if dot_dot {
                assert(part@ =~= seq!['.', '.']);
            }
        }
        if part.len() == 0 || dot || dot_dot {
            return Err(invalid_input(
                "ProfileImagePath must be a fixed local directory; refusing environment-derived or redirected targets",
            ));
        }
        i = i + 1;
    }
    Ok(())
}

/// The text of a profile directory with a verbatim `\\?\` prefix removed.
pub open spec fn without_verbatim(t: Seq<char>) -> Seq<char> {
    if t.len() >= 4 && t[0] == '\\' && t[1] == '\\' && t[2] == '?' && t[3] == '\\' {
        t.skip(4)
    } else {
        t
    }
}

/// A directory as it is written into PATH: without a verbatim prefix, and only when
/// it is a fixed local profile directory.
pub fn plain_directory(path: &str) -> (r: Result<String>)
    ensures
        r is Ok <==> profile_ok(without_verbatim(path@)),
        r matches Ok(t) ==> t@ == without_verbatim(path@),
        r matches Err(e) ==> e.spec_kind() == ErrorKind::Usage && e.spec_message() == profile_message(),
{
    let cs = chars_of(path);
    let text = if cs.len() >= 4 && cs[0] == '\\' && cs[1] == '\\' && cs[2] == '?' && cs[3] == '\\' {
        let rest = slice_chars(cs.as_slice(), 4, cs.len());
        string_of(rest.as_slice())
    } else {
        string_of(cs.as_slice())
    };
    proof {
        assert(text@ =~= without_verbatim(path@));
    }
    match validate_profile(text.as_str()) {
        Ok(()) => Ok(text),
        Err(e) => Err(e),
    }
}

} // verus!
