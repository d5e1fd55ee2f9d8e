//! The banner shown above the help text when the program runs without a command.
use vstd::prelude::*;

verus! {

/// The program banner: plain ASCII, no trailing blanks, at most 80 columns a line.
pub const BANNER: &'static str = "PyRudder\nPython runtime selection for Windows";

/// Every character is ASCII.
pub open spec fn ascii_only(s: Seq<char>) -> bool {
    forall|i: int| 0 <= i < s.len() ==> (#[trigger] s[i] as u32) < 128
}

/// No line ends in a space or a tab.
pub open spec fn no_trailing_blanks(s: Seq<char>) -> bool {
    forall|i: int|
        0 <= i < s.len() && (i + 1 == s.len() || s[i + 1] == '\n') ==> #[trigger] s[i] != ' ' && s[i] != '\t'
}

/// Each line, counted from column `col` of the current one, has at most `width` characters.
pub open spec fn lines_within(s: Seq<char>, col: nat, width: nat) -> bool
    decreases s.len(),
{
    if s.len() == 0 {
        true
    } else if s[0] == '\n' {
        lines_within(s.drop_first(), 0, width)
    } else {
        col < width && lines_within(s.drop_first(), col + 1, width)
    }
}

/// The banner is ASCII, has no trailing blanks and fits a standard terminal.
pub proof fn banner_is_plain()
    ensures
        ascii_only(BANNER@),
        no_trailing_blanks(BANNER@),
        lines_within(BANNER@, 0, 80),
{
    reveal_strlit("PyRudder\nPython runtime selection for Windows");
    reveal_with_fuel(lines_within, 50);
}

} // verus!
