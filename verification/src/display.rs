//! Terminal presentation of registered paths and runtime health.
use vstd::prelude::*;

use crate::commands::is_control;
use crate::runtime::{RuntimeHealth, RuntimeRecord};
use crate::text::{
    chars_of, chars_eq_str, hex_char, hex_fixed, is_ascii_letter, join_texts, push_char, push_chars,
    push_hex_fixed, push_joined, push_str, starts_with_str,
};

verus! {

/// The verbatim prefix `\\?\`.
pub open spec fn verbatim_prefix() -> Seq<char> {
    seq!['\\', '\\', '?', '\\']
}

/// The verbatim UNC prefix `\\?\UNC\`.
pub open spec fn verbatim_unc_prefix() -> Seq<char> {
    seq!['\\', '\\', '?', '\\', 'U', 'N', 'C', '\\']
}

pub open spec fn has_prefix(s: Seq<char>, p: Seq<char>) -> bool {
    p.len() <= s.len() && s.subrange(0, p.len() as int) == p
}

/// A path that starts with a drive letter, a colon and a backslash.
pub open spec fn drive_rooted(s: Seq<char>) -> bool {
    s.len() >= 3 && is_ascii_letter(s[0]) && s[1] == ':' && s[2] == '\\'
}

/// The path with a verbatim prefix removed where an ordinary spelling names the same
/// place: `\\?\UNC\server\x` becomes `\\server\x` and `\\?\C:\x` becomes `C:\x`;
/// other verbatim namespaces are kept as they are.
pub open spec fn readable_path(p: Seq<char>) -> Seq<char> {
    if has_prefix(p, verbatim_unc_prefix()) {
        seq!['\\', '\\'] + p.skip(8)
    } else if has_prefix(p, verbatim_prefix()) && drive_rooted(p.skip(4)) {
        p.skip(4)
    } else {
        p
    }
}

/// `char::escape_default` of a control character.
pub open spec fn control_escape(c: char) -> Seq<char> {
    if c == '\t' {
        seq!['\\', 't']
    } else if c == '\r' {
        seq!['\\', 'r']
    } else if c == '\n' {
        seq!['\\', 'n']
    } else if (c as u32) < 16 {
        seq!['\\', 'u', '{', hex_char((c as u32) as nat), '}']
    } else {
        seq!['\\', 'u', '{'] + hex_fixed((c as u32) as nat, 2) + seq!['}']
    }
}

/// The text with every control character replaced by its escape, so that it stays on
/// one line and sends nothing to the terminal.
pub open spec fn escape_controls(s: Seq<char>) -> Seq<char>
    decreases s.len(),
{
    if s.len() == 0 {
        s
    } else {
        escape_controls(s.drop_last()) + (if is_control(s.last()) {
            control_escape(s.last())
        } else {
            seq![s.last()]
        })
    }
}

proof fn lemma_hex_char_visible(n: nat)
    requires
        n < 16,
    ensures
        48 <= hex_char(n) as u32 <= 102,
{
    if n < 10 {
        crate::text::lemma_digit_char(n);
    }
}

/// Escaping leaves no control character in the text.
pub proof fn escaped_text_has_no_controls(s: Seq<char>)
    ensures
        forall|i: int| 0 <= i < escape_controls(s).len() ==> !is_control(#[trigger] escape_controls(s)[i]),
    decreases s.len(),
{
    if s.len() > 0 {
        let prev = s.drop_last();
        escaped_text_has_no_controls(prev);
        let c = s.last();
        let piece = if is_control(c) {
            control_escape(c)
        } else {
            seq![c]
        };
        if is_control(c) {
            let n = (c as u32) as nat;
            lemma_hex_char_visible(n % 16);
            lemma_hex_char_visible((n / 16) % 16);
            if n < 16 {
                assert(n % 16 == n);
            } else {
                reveal_with_fuel(hex_fixed, 3);
                assert(hex_fixed(n, 2) =~= seq![hex_char((n / 16) % 16), hex_char(n % 16)]);
            }
        }
        assert forall|i: int| 0 <= i < piece.len() implies !is_control(#[trigger] piece[i]) by {}
        let whole = escape_controls(s);
        assert(whole == escape_controls(prev) + piece);
        assert forall|i: int| 0 <= i < whole.len() implies !is_control(#[trigger] whole[i]) by {
            if i < escape_controls(prev).len() {
                assert(whole[i] == escape_controls(prev)[i]);
            } else {
                assert(whole[i] == piece[i - escape_controls(prev).len()]);
            }
        }
    }
}

pub open spec fn display_text(p: Seq<char>) -> Seq<char> {
    escape_controls(readable_path(p))
}

fn push_control_escape(out: &mut String, c: char)
    requires
        is_control(c),
    ensures
        final(out)@ == old(out)@ + control_escape(c),
{
    if c == '\t' {
        push_char(out, '\\');
        push_char(out, 't');
    } else if c == '\r' {
        push_char(out, '\\');
        push_char(out, 'r');
    } else if c == '\n' {
        push_char(out, '\\');
        push_char(out, 'n');
    } else {
        push_char(out, '\\');
        push_char(out, 'u');
        push_char(out, '{');
        let n = c as u32;
        if n < 16 {
            let d = n as u8;
            let h = if d < 10 {
                (d + 48) as char
            } else {
                (d - 10 + 97) as char
            };
            push_char(out, h);
        } else {
            push_hex_fixed(out, n as u128, 2);
        }
        push_char(out, '}');
        proof {
            if n >= 16 {
                assert(old(out)@ + control_escape(c) =~= old(out)@ + seq!['\\', 'u', '{'] + hex_fixed(
                    (c as u32) as nat,
                    2,
                ) + seq!['}']);
            }
        }
    }
}

/// A registered path as shown in listings: readable and on one line. Stored paths
/// and structured output are unaffected.
pub fn display_path(path: &str) -> (r: String)
    ensures
        r@ == display_text(path@),
        forall|i: int| 0 <= i < r@.len() ==> !is_control(#[trigger] r@[i]),
{
    proof {
        escaped_text_has_no_controls(readable_path(path@));
    }
    let p = chars_of(path);
    let n = p.len();
    let verbatim = n >= 4 && p[0] == '\\' && p[1] == '\\' && p[2] == '?' && p[3] == '\\';
    let unc = verbatim && n >= 8 && p[4] == 'U' && p[5] == 'N' && p[6] == 'C' && p[7] == '\\';
    let start: usize;
    let mut out = String::new();
    proof {
        assert(verbatim == has_prefix(p@, verbatim_prefix())) by {
            if n >= 4 && has_prefix(p@, verbatim_prefix()) {
                assert(p@[0] == p@.subrange(0, 4)[0]);
                assert(p@[1] == p@.subrange(0, 4)[1]);
                assert(p@[2] == p@.subrange(0, 4)[2]);
                assert(p@[3] == p@.subrange(0, 4)[3]);
            }
            if verbatim {
                assert(p@.subrange(0, 4) =~= verbatim_prefix());
            }
        }
        assert(unc == has_prefix(p@, verbatim_unc_prefix())) by {
            if n >= 8 && has_prefix(p@, verbatim_unc_prefix()) {
                assert(p@[0] == p@.subrange(0, 8)[0]);
                assert(p@[1] == p@.subrange(0, 8)[1]);
                assert(p@[2] == p@.subrange(0, 8)[2]);
                assert(p@[3] == p@.subrange(0, 8)[3]);
                assert(p@[4] == p@.subrange(0, 8)[4]);
                assert(p@[5] == p@.subrange(0, 8)[5]);
                assert(p@[6] == p@.subrange(0, 8)[6]);
                assert(p@[7] == p@.subrange(0, 8)[7]);
            }
            if unc {
                assert(p@.subrange(0, 8) =~= verbatim_unc_prefix());
            }
        }
    }
    if unc {
        push_char(&mut out, '\\');
        push_char(&mut out, '\\');
        start = 8;
    } else if verbatim && n >= 7 && (('a' <= p[4] && p[4] <= 'z') || ('A' <= p[4] && p[4] <= 'Z'))
        && p[5] == ':' && p[6] == '\\' {
        start = 4;
    } else {
        start = 0;
    }
    let ghost head = out@;
    proof {
        assert(readable_path(p@) =~= head + p@.skip(start as int));
        assert(head + p@.subrange(start as int, start as int) =~= head);
        if head.len() == 2 {
            assert(head.drop_last().drop_last() =~= Seq::<char>::empty());
            reveal_with_fuel(escape_controls, 3);
            assert(escape_controls(head) =~= head);
        } else {
            assert(head =~= Seq::<char>::empty());
        }
    }
    let mut i: usize = start;
    while i < n
        invariant
            start <= i <= n,
            n == p@.len(),
            out@ == escape_controls(head + p@.subrange(start as int, i as int)),
            head.len() == 0 || (head == seq!['\\', '\\'] && start == 8),
        decreases n - i,
    {
        let c = p[i];
        proof {
            let prev = head + p@.subrange(start as int, i as int);
            let next = head + p@.subrange(start as int, i + 1);
            assert(next.drop_last() =~= prev);
            assert(next.last() == c);
        }
        if ((c as u32) < 0x20) || (0x7f <= (c as u32) && (c as u32) <= 0x9f) {
            push_control_escape(&mut out, c);
        } else {
            push_char(&mut out, c);
        }
        i = i + 1;
    }
    proof {
        assert(p@.subrange(start as int, n as int) =~= p@.skip(start as int));
    }
    out
}


// ---------------------------------------------------------------------------
// Listings
// ---------------------------------------------------------------------------

/// The short status word for a recorded health, given as its debug rendering.
pub open spec fn health_word(health: Seq<char>) -> Seq<char> {
    if health == "Ready"@ {
        "ready"@
    } else if health == "Unchecked"@ {
        "unchecked"@
    } else if health == "PendingRemoval"@ {
        "removing"@
    } else if has_prefix(health, "Broken"@) {
        "broken"@
    } else if has_prefix(health, "Unavailable"@) {
        "unavailable"@
    } else {
        "unknown"@
    }
}

/// Maps a recorded health to the word shown in listings; diagnostics stay out of the row.
pub fn short_health(health: &str) -> (r: &'static str)
    ensures
        r@ == health_word(health@),
{
    let cs = chars_of(health);
    if chars_eq_str(cs.as_slice(), "Ready") {
        "ready"
    } else if chars_eq_str(cs.as_slice(), "Unchecked") {
        "unchecked"
    } else if chars_eq_str(cs.as_slice(), "PendingRemoval") {
        "removing"
    } else if starts_with_str(cs.as_slice(), "Broken") {
        "broken"
    } else if starts_with_str(cs.as_slice(), "Unavailable") {
        "unavailable"
    } else {
        "unknown"
    }
}

pub open spec fn no_releases_message() -> Seq<char> {
    "No available Python versions. / 没有可用的 Python 版本。"@
}

/// The text listing of available releases: a header and one version per line.
pub open spec fn release_list_text(versions: Seq<Seq<char>>) -> Seq<char> {
    if versions.len() == 0 {
        no_releases_message()
    } else {
        "VERSION\n"@ + join_texts(versions, "\n"@)
    }
}

/// Lists available release versions for a terminal.
pub fn release_list(versions: &[String]) -> (r: String)
    ensures
        r@ == release_list_text(versions@.map_values(|v: String| v@)),
{
    if versions.len() == 0 {
        return "No available Python versions. / 没有可用的 Python 版本。".to_string();
    }
    let mut items: Vec<Vec<char>> = Vec::new();
    let mut i: usize = 0;
    while i < versions.len()
        invariant
            i <= versions.len(),
            items@.map_values(|v: Vec<char>| v@) =~= versions@.map_values(|v: String| v@).take(i as int),
        decreases versions.len() - i,
    {
        let ghost prev = items@;
        items.push(chars_of(versions[i].as_str()));
        proof {
            let g = |v: String| v@;
            assert(versions@.map_values(g).take(i + 1) =~= versions@.map_values(g).take(i as int).push(
                versions@[i as int]@,
            ));
            assert(items@ =~= prev.push(items@[i as int]));
            assert(items@.map_values(|v: Vec<char>| v@) =~= prev.map_values(|v: Vec<char>| v@).push(
                versions@[i as int]@,
            ));
        }
        i = i + 1;
    }
    assert(versions@.map_values(|v: String| v@).take(versions@.len() as int) =~= versions@.map_values(
        |v: String| v@,
    ));
    let mut out = String::new();
    push_str(&mut out, "VERSION\n");
    push_joined(&mut out, items.as_slice(), "\n");
    out
}

/// One registered runtime as the listing reads it; absent fields are shown as `-`.
#[derive(Clone, Debug, PartialEq, Eq)]
pub struct ListedRuntime {
    /// Interpreter version.
    pub version: Option<String>,
    /// Aliases, in registration order.
    pub aliases: Vec<String>,
    /// Debug rendering of the recorded health.
    pub health: Option<String>,
    /// Installation root.
    pub root: Option<String>,
}

pub open spec fn dash() -> Seq<char> {
    seq!['-']
}

pub open spec fn or_dash(t: Option<String>) -> Seq<char> {
    match t {
        Some(s) => s@,
        None => dash(),
    }
}

/// The four cells of a runtime's row: version, aliases, status and path.
pub open spec fn row_cells(r: ListedRuntime) -> Seq<Seq<char>> {
    let aliases = join_texts(r.aliases@.map_values(|a: String| a@), ", "@);
    seq![
        or_dash(r.version),
        if aliases.len() == 0 { dash() } else { aliases },
        health_word(match r.health { Some(h) => h@, None => Seq::empty() }),
        display_text(or_dash(r.root)),
    ]
}

pub open spec fn header_cells() -> Seq<Seq<char>> {
    seq!["VERSION"@, "ALIAS"@, "STATUS"@, "PATH"@]
}

/// Bytes of the UTF-8 encoding of a character.
pub open spec fn utf8_width(c: char) -> nat {
    if (c as u32) < 0x80 {
        1
    } else if (c as u32) < 0x800 {
        2
    } else if (c as u32) < 0x10000 {
        3
    } else {
        4
    }
}

/// Bytes of the UTF-8 encoding of a text (`str::len`).
pub open spec fn utf8_len(s: Seq<char>) -> nat
    decreases s.len(),
{
    if s.len() == 0 {
        0
    } else {
        utf8_len(s.drop_last()) + utf8_width(s.last())
    }
}

/// The widest cell of a column, measured in UTF-8 bytes.
pub open spec fn column_width(rows: Seq<Seq<Seq<char>>>, c: int) -> nat
    decreases rows.len(),
{
    if rows.len() == 0 {
        0
    } else {
        let w = utf8_len(rows.last()[c]);
        let rest = column_width(rows.drop_last(), c);
        if w > rest {
            w
        } else {
            rest
        }
    }
}

pub open spec fn spaces(n: nat) -> Seq<char> {
    Seq::new(n, |_i: int| ' ')
}

/// A cell left-aligned in a field of `w` characters (`{:<w$}`).
pub open spec fn padded(s: Seq<char>, w: nat) -> Seq<char> {
    if s.len() < w {
        s + spaces((w - s.len()) as nat)
    } else {
        s
    }
}

pub open spec fn row_text(cells: Seq<Seq<char>>, w0: nat, w1: nat, w2: nat) -> Seq<char> {
    padded(cells[0], w0) + "  "@ + padded(cells[1], w1) + "  "@ + padded(cells[2], w2) + "  "@ + cells[3]
}

pub open spec fn table_rows(runtimes: Seq<ListedRuntime>) -> Seq<Seq<Seq<char>>> {
    seq![header_cells()] + runtimes.map_values(|r: ListedRuntime| row_cells(r))
}

/// Every cell of every row is short enough to measure in a `usize`.
pub open spec fn cells_fit(runtimes: Seq<ListedRuntime>) -> bool {
    forall|i: int, c: int| 0 <= i < runtimes.len() && 0 <= c < 4 ==> (#[trigger] row_cells(runtimes[i])[c]).len()
        <= usize::MAX / 4
}

pub open spec fn no_runtimes_message() -> Seq<char> {
    "No registered Python. / 尚未登记 Python。\npyrudder register <python-path> --alias work"@
}

/// The text listing of registered runtimes: aligned columns, one line per runtime.
pub open spec fn runtime_list_text(runtimes: Seq<ListedRuntime>) -> Seq<char> {
    if runtimes.len() == 0 {
        no_runtimes_message()
    } else {
        let rows = table_rows(runtimes);
        let w0 = column_width(rows, 0);
        let w1 = column_width(rows, 1);
        let w2 = column_width(rows, 2);
        join_texts(rows.map_values(|cells: Seq<Seq<char>>| row_text(cells, w0, w1, w2)), "\n"@)
    }
}

fn utf8_length(s: &[char]) -> (r: usize)
    requires
        s@.len() <= usize::MAX / 4,
    ensures
        r == utf8_len(s@),
{
    let mut n: usize = 0;
    let mut i: usize = 0;
    while i < s.len()
        invariant
            i <= s.len(),
            s@.len() <= usize::MAX / 4,
            n == utf8_len(s@.take(i as int)),
            n <= 4 * i,
        decreases s.len() - i,
    {
        proof {
            assert(s@.take(i + 1).drop_last() =~= s@.take(i as int));
        }
        let c = s[i] as u32;
        let w: usize = if c < 0x80 {
            1
        } else if c < 0x800 {
            2
        } else if c < 0x10000 {
            3
        } else {
            4
        };
        n = n + w;
        i = i + 1;
    }
    assert(s@.take(s@.len() as int) =~= s@);
    n
}

fn cells_of(r: &ListedRuntime) -> (cells: Vec<Vec<char>>)
    ensures
        cells@.map_values(|v: Vec<char>| v@) == row_cells(*r),
{
    let version = match &r.version {
        Some(v) => chars_of(v.as_str()),
        None => vec!['-'],
    };
    let mut aliases: Vec<Vec<char>> = Vec::new();
    let mut i: usize = 0;
    while i < r.aliases.len()
        invariant
            i <= r.aliases.len(),
            aliases@.map_values(|v: Vec<char>| v@) =~= r.aliases@.map_values(|a: String| a@).take(i as int),
        decreases r.aliases.len() - i,
    {
        let ghost prev = aliases@;
        aliases.push(chars_of(r.aliases[i].as_str()));
        proof {
            let g = |a: String| a@;
            assert(r.aliases@.map_values(g).take(i + 1) =~= r.aliases@.map_values(g).take(i as int).push(
                r.aliases@[i as int]@,
            ));
            assert(aliases@ =~= prev.push(aliases@[i as int]));
            assert(aliases@.map_values(|v: Vec<char>| v@) =~= prev.map_values(|v: Vec<char>| v@).push(
                r.aliases@[i as int]@,
            ));
        }
        i = i + 1;
    }
    assert(r.aliases@.map_values(|a: String| a@).take(r.aliases@.len() as int) =~= r.aliases@.map_values(
        |a: String| a@,
    ));
    let mut joined = String::new();
    push_joined(&mut joined, aliases.as_slice(), ", ");
    let alias_cell = if joined.as_str().unicode_len() == 0 {
        vec!['-']
    } else {
        chars_of(joined.as_str())
    };
    let health_text: &str = match &r.health {
        Some(h) => h.as_str(),
        None => "",
    };
    let root_text: &str = match &r.root {
        Some(p) => p.as_str(),
        None => "-",
    };
    proof {
        reveal_strlit("");
        reveal_strlit("-");
        assert(health_text@ == match r.health {
            Some(h) => h@,
            None => Seq::<char>::empty(),
        });
        assert(root_text@ == or_dash(r.root));
    }
    let status = short_health(health_text);
    let path = display_path(root_text);
    let cells = vec![version, alias_cell, chars_of(status), chars_of(path.as_str())];
    proof {
        let want = row_cells(*r);
        assert(version@ == want[0]);
        assert(alias_cell@ == want[1]);
        assert(status@ == want[2]);
        assert(path@ == want[3]);
        assert(cells@.map_values(|v: Vec<char>| v@) =~= want);
    }
    cells
}

fn push_padded(out: &mut String, cell: &[char], w: usize)
    ensures
        final(out)@ == old(out)@ + padded(cell@, w as nat),
{
    push_chars(out, cell);
    let mut k: usize = cell.len();
    let ghost start = out@;
    while k < w
        invariant
            cell@.len() <= k <= w || (w < cell@.len() && k == cell@.len()),
            start == old(out)@ + cell@,
            out@ == start + spaces((k - cell@.len()) as nat),
        decreases w - k,
    {
        push_char(out, ' ');
        proof {
            assert(spaces((k - cell@.len()) as nat).push(' ') =~= spaces((k + 1 - cell@.len()) as nat));
        }
        k = k + 1;
    }
    proof {
        if cell@.len() < w {
            assert(out@ =~= old(out)@ + padded(cell@, w as nat));
        } else {
            assert(spaces(0) =~= Seq::<char>::empty());
            assert(out@ =~= old(out)@ + padded(cell@, w as nat));
        }
    }
}

/// Lists registered runtimes for a terminal: one aligned row per runtime without
/// internal metadata, or a hint on registering one when there is none.
pub fn runtime_list(runtimes: &[ListedRuntime]) -> (r: String)
    requires
        cells_fit(runtimes@),
    ensures
        r@ == runtime_list_text(runtimes@),
{
    if runtimes.len() == 0 {
        return "No registered Python. / 尚未登记 Python。\npyrudder register <python-path> --alias work".to_string();
    }
    let ghost rows = table_rows(runtimes@);
    let mut table: Vec<Vec<Vec<char>>> = Vec::new();
    let header = vec![chars_of("VERSION"), chars_of("ALIAS"), chars_of("STATUS"), chars_of("PATH")];
    proof {
        assert(header@.map_values(|v: Vec<char>| v@) =~= header_cells());
    }
    table.push(header);
    let mut i: usize = 0;
    while i < runtimes.len()
        invariant
            i <= runtimes.len(),
            rows == table_rows(runtimes@),
            table@.len() == i + 1,
            forall|j: int| 0 <= j <= i ==> (#[trigger] table@[j])@.map_values(|v: Vec<char>| v@) == rows[j],
        decreases runtimes.len() - i,
    {
        let cells = cells_of(&runtimes[i]);
        table.push(cells);
        i = i + 1;
    }
    // Column widths, as the widest cell in UTF-8 bytes.
    let mut w0: usize = 0;
    let mut w1: usize = 0;
    let mut w2: usize = 0;
    let mut j: usize = 0;
    while j < table.len()
        invariant
            j <= table.len() == rows.len(),
            rows == table_rows(runtimes@),
            cells_fit(runtimes@),
            forall|k: int| 0 <= k < table@.len() ==> (#[trigger] table@[k])@.map_values(|v: Vec<char>| v@) == rows[k],
            w0 == column_width(rows.take(j as int), 0),
            w1 == column_width(rows.take(j as int), 1),
            w2 == column_width(rows.take(j as int), 2),
        decreases table.len() - j,
    {
        proof {
            assert(rows.take(j + 1).drop_last() =~= rows.take(j as int));
            assert(table@[j as int]@.map_values(|v: Vec<char>| v@) == rows[j as int]);
            lemma_row_cell_bound(runtimes@, j as int);
        }
        let l0 = utf8_length(table[j][0].as_slice());
        let l1 = utf8_length(table[j][1].as_slice());
        let l2 = utf8_length(table[j][2].as_slice());
        if l0 > w0 {
            w0 = l0;
        }
        if l1 > w1 {
            w1 = l1;
        }
        if l2 > w2 {
            w2 = l2;
        }
        j = j + 1;
    }
    proof {
        assert(rows.take(rows.len() as int) =~= rows);
    }
    let ghost texts = rows.map_values(|cells: Seq<Seq<char>>| row_text(cells, w0 as nat, w1 as nat, w2 as nat));
    let mut out = String::new();
    let mut k: usize = 0;
    while k < table.len()
        invariant
            k <= table.len() == rows.len(),
            texts == rows.map_values(|cells: Seq<Seq<char>>| row_text(cells, w0 as nat, w1 as nat, w2 as nat)),
            forall|m: int| 0 <= m < table@.len() ==> (#[trigger] table@[m])@.map_values(|v: Vec<char>| v@) == rows[m],
            forall|m: int| 0 <= m < rows.len() ==> (#[trigger] rows[m]).len() == 4,
            out@ == join_texts(texts.take(k as int), "\n"@),
        decreases table.len() - k,
    {
        let ghost before = out@;
        if k > 0 {
            push_str(&mut out, "\n");
        }
        let row = &table[k];
        proof {
            assert(row@.map_values(|v: Vec<char>| v@) == rows[k as int]);
            assert(row@.len() == 4);
            assert(row@[0]@ == rows[k as int][0]);
            assert(row@[1]@ == rows[k as int][1]);
            assert(row@[2]@ == rows[k as int][2]);
            assert(row@[3]@ == rows[k as int][3]);
        }
        push_padded(&mut out, row[0].as_slice(), w0);
        push_str(&mut out, "  ");
        push_padded(&mut out, row[1].as_slice(), w1);
        push_str(&mut out, "  ");
        push_padded(&mut out, row[2].as_slice(), w2);
        push_str(&mut out, "  ");
        push_chars(&mut out, row[3].as_slice());
        proof {
            let t = texts.take(k + 1);
            assert(t.drop_last() =~= texts.take(k as int));
            assert(t.last() == row_text(rows[k as int], w0 as nat, w1 as nat, w2 as nat));
            if k == 0 {
                assert(t.len() == 1);
                assert(out@ =~= t[0]);
            } else {
                assert(out@ =~= join_texts(t.drop_last(), "\n"@) + "\n"@ + t.last());
            }
        }
        k = k + 1;
    }
    proof {
        assert(texts.take(texts.len() as int) =~= texts);
    }
    out
}

proof fn lemma_row_cell_bound(runtimes: Seq<ListedRuntime>, j: int)
    requires
        0 <= j < table_rows(runtimes).len(),
        cells_fit(runtimes),
    ensures
        table_rows(runtimes)[j].len() == 4,
        forall|c: int| 0 <= c < 4 ==> (#[trigger] table_rows(runtimes)[j][c]).len() <= usize::MAX / 4,
{
    reveal_strlit("VERSION");
    reveal_strlit("ALIAS");
    reveal_strlit("STATUS");
    reveal_strlit("PATH");
    if j > 0 {
        assert(table_rows(runtimes)[j] == row_cells(runtimes[j - 1]));
        assert forall|c: int| 0 <= c < 4 implies (#[trigger] table_rows(runtimes)[j][c]).len() <= usize::MAX / 4 by {
            assert(row_cells(runtimes[j - 1])[c].len() <= usize::MAX / 4);
        }
    }
}


/// The line that offers an official release in the interactive chooser, marked by the
/// state of the registration it would install, if any.
pub open spec fn release_label_text(version: Seq<char>, existing: Option<RuntimeRecord>) -> Seq<char> {
    "Python "@ + version + match existing {
        Some(record) => if record.spec_health() is Ready {
            "  [已安装 / installed]"@
        } else {
            "  [未完成 / pending]"@
        },
        None => Seq::empty(),
    }
}

/// The chooser line for a release whose registration, if any, is `existing`.
pub fn release_label(version: &str, existing: Option<&RuntimeRecord>) -> (r: String)
    ensures
        r@ == release_label_text(version@, match existing {
            Some(record) => Some(*record),
            None => None,
        }),
{
    let mut s = "Python ".to_string();
    push_str(&mut s, version);
    match existing {
        Some(record) => match record.health() {
            RuntimeHealth::Ready => push_str(&mut s, "  [已安装 / installed]"),
            _ => push_str(&mut s, "  [未完成 / pending]"),
        },
        None => {
            assert(s@ + Seq::<char>::empty() =~= s@);
        },
    }
    s
}

} // verus!
