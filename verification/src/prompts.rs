//! Decisions taken on a line typed at the installation-directory prompt.
use vstd::prelude::*;

use crate::error::{Error, ErrorKind, Result};
use crate::text::{chars_of, contains_char, has_char, push_str, string_of, trim, trim_chars};

verus! {

/// What one attempt to read a line from the terminal gave.
#[derive(Clone, Debug, PartialEq, Eq)]
pub enum LineRead {
    /// The input ended before any byte was read.
    Eof,
    /// The read was interrupted (Ctrl+C).
    Interrupted,
    /// The read failed; the text describes the failure.
    Failed(String),
    /// The bytes read, up to and including the line terminator when there was one.
    Line(String),
}

pub open spec fn prompt_failure_message(detail: Seq<char>) -> Seq<char> {
    "Cannot read installation prompt / 无法读取安装输入: "@ + detail
}

/// A line that counts as a confirmed answer: it ends with a line feed, which an
/// unfinished line at end of input lacks, and holds no interrupt, end-of-transmission
/// or substitute control character.
pub open spec fn confirmed_line(v: Seq<char>) -> bool {
    &&& v.len() > 0
    &&& v.last() == '\n'
    &&& !has_char(v, '\u{3}')
    &&& !has_char(v, '\u{4}')
    &&& !has_char(v, '\u{1a}')
}

/// Turns one read of the prompt into the typed directory (`Some`, trimmed; empty
/// means "use the default"), a cancellation (`None`), or an error.
pub fn directory_input(read: LineRead) -> (r: Result<Option<String>>)
    ensures
        match read {
            LineRead::Eof => r == Ok::<Option<String>, Error>(None),
            LineRead::Interrupted => r == Ok::<Option<String>, Error>(None),
            LineRead::Failed(detail) => r matches Err(e) && e.spec_kind() == ErrorKind::Usage
                && e.spec_message() == prompt_failure_message(detail@) && e.spec_hint() is None,
            LineRead::Line(v) => if confirmed_line(v@) {
                r matches Ok(Some(t)) && t@ == trim(v@)
            } else {
                r == Ok::<Option<String>, Error>(None)
            },
        },
{
    match read {
        LineRead::Eof => Ok(None),
        LineRead::Interrupted => Ok(None),
        LineRead::Failed(detail) => {
            let mut message = String::new();
            push_str(&mut message, "Cannot read installation prompt / 无法读取安装输入: ");
            push_str(&mut message, detail.as_str());
            Err(Error::from_message(ErrorKind::Usage, message))
        },
        LineRead::Line(v) => {
            let cs = chars_of(v.as_str());
            if cs.len() == 0 || cs[cs.len() - 1] != '\n' {
                return Ok(None);
            }
            if contains_char(cs.as_slice(), '\u{3}') || contains_char(cs.as_slice(), '\u{4}')
                || contains_char(cs.as_slice(), '\u{1a}') {
                return Ok(None);
            }
            let t = trim_chars(cs.as_slice());
            Ok(Some(string_of(t.as_slice())))
        },
    }
}

} // verus!
