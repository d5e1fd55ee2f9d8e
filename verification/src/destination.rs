//! The directory typed at the interactive installation prompt.
use vstd::prelude::*;

use crate::error::{invalid_input, ErrorKind, Result};
use crate::paths::{path_is_absolute, path_parent, spec_path_is_absolute, spec_path_parent};
use crate::config::normalized_by;
use crate::state::StateFileSystem;
use crate::text::{chars_of, slice_chars, string_of, trim, trim_chars};
use crate::user_path::{entry_breaking, path_text};

verus! {

/// The typed text without surrounding whitespace and, when it is quoted, without the
/// quotes.
pub open spec fn unquoted_input(input: Seq<char>) -> Seq<char> {
    let t = trim(input);
    if t.len() >= 2 && t[0] == '"' && t.last() == '"' {
        t.subrange(1, t.len() - 1)
    } else {
        t
    }
}

/// The directory meant by the input: the default for an empty answer.
pub open spec fn chosen_directory(input: Seq<char>, default: Seq<char>) -> Seq<char> {
    let u = unquoted_input(input);
    if u.len() == 0 {
        default
    } else {
        u
    }
}

pub open spec fn absolute_message() -> Seq<char> {
    "请输入本地绝对目录，例如 D:\\Python，或直接回车 / Enter an absolute local directory or press Enter"@
}

/// Why the chosen directory is refused before the platform normalizes it, if it is.
pub open spec fn destination_failure(p: Seq<char>) -> Option<Seq<char>> {
    if !spec_path_is_absolute(p) || spec_path_parent(p) is None {
        Some(absolute_message())
    } else if exists|i: int| 0 <= i < crate::user_identity::without_verbatim(p).len() && entry_breaking(
        #[trigger] crate::user_identity::without_verbatim(p)[i],
    ) {
        Some(crate::user_path::unsafe_entry_message())
    } else {
        None
    }
}

/// Reads the answer to the installation-directory prompt: an absolute directory that
/// is not a root and can be written into PATH, normalized by the platform.
pub fn destination_path<F: StateFileSystem>(fs: &F, input: &str, default: &str) -> (r: Result<String>)
    ensures
        destination_failure(chosen_directory(input@, default@)) matches Some(m) ==> (r matches Err(e)
            && e.spec_kind() == ErrorKind::Usage && e.spec_message() == m),
        destination_failure(chosen_directory(input@, default@)) is None ==> normalized_by(
            fs,
            chosen_directory(input@, default@),
            r,
        ),
{
    let cs = chars_of(input);
    let t = trim_chars(cs.as_slice());
    let n = t.len();
    let u = if n >= 2 && t[0] == '"' && t[n - 1] == '"' {
        slice_chars(t.as_slice(), 1, n - 1)
    } else {
        slice_chars(t.as_slice(), 0, n)
    };
    proof {
        assert(t@.subrange(0, n as int) =~= t@);
    }
    let chosen = if u.len() == 0 {
        default.to_string()
    } else {
        string_of(u.as_slice())
    };
    proof {
        assert(chosen@ == chosen_directory(input@, default@));
    }
    let absolute = path_is_absolute(chosen.as_str());
    let parent = path_parent(chosen.as_str());
    if !absolute || parent.is_none() {
        return Err(invalid_input(
            "请输入本地绝对目录，例如 D:\\Python，或直接回车 / Enter an absolute local directory or press Enter",
        ));
    }
    match path_text(chosen.as_str()) {
        Ok(_) => {},
        Err(e) => return Err(e),
    }
    let arg = chosen.as_str();
    let r = fs.normalize_directory(arg);
    proof {
        assert(call_ensures(F::normalize_directory, (fs, arg), r));
    }
    r
}

} // verus!
