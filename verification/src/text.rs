//! Character-level building blocks shared by every parser and formatter:
//! ASCII classification and case folding, decimal and hexadecimal numerals,
//! and the search primitives used to split textual identifiers.
use vstd::prelude::*;
use vstd::relations::{sorted_by, total_ordering};

verus! {

// ---------------------------------------------------------------------------
// Classification and case folding
// ---------------------------------------------------------------------------

pub open spec fn is_digit(c: char) -> bool {
    '0' <= c && c <= '9'
}

pub open spec fn is_ascii_char(c: char) -> bool {
    (c as u32) < 128
}

pub open spec fn is_ascii_letter(c: char) -> bool {
    ('a' <= c && c <= 'z') || ('A' <= c && c <= 'Z')
}

pub open spec fn is_hex_digit(c: char) -> bool {
    is_digit(c) || ('a' <= c && c <= 'f') || ('A' <= c && c <= 'F')
}

/// ASCII lowercase mapping of one character; every other character is unchanged.
pub open spec fn lower(c: char) -> char {
    if 'A' <= c && c <= 'Z' {
        ((c as u32) + 32) as char
    } else {
        c
    }
}

pub open spec fn lower_seq(s: Seq<char>) -> Seq<char> {
    Seq::new(s.len(), |i: int| lower(s[i]))
}

pub open spec fn all_ascii(s: Seq<char>) -> bool {
    forall|i: int| 0 <= i < s.len() ==> is_ascii_char(#[trigger] s[i])
}

pub open spec fn all_digits(s: Seq<char>) -> bool {
    forall|i: int| 0 <= i < s.len() ==> is_digit(#[trigger] s[i])
}

pub open spec fn all_hex(s: Seq<char>) -> bool {
    forall|i: int| 0 <= i < s.len() ==> is_hex_digit(#[trigger] s[i])
}

pub open spec fn has_char(s: Seq<char>, c: char) -> bool {
    exists|i: int| 0 <= i < s.len() && s[i] == c
}

pub proof fn lemma_lower_idempotent(s: Seq<char>)
    ensures
        lower_seq(lower_seq(s)) == lower_seq(s),
{
    assert(lower_seq(lower_seq(s)) =~= lower_seq(s));
}

pub proof fn lemma_lower_subrange(s: Seq<char>, lo: int, hi: int)
    requires
        0 <= lo <= hi <= s.len(),
    ensures
        lower_seq(s.subrange(lo, hi)) == lower_seq(s).subrange(lo, hi),
{
    assert(lower_seq(s.subrange(lo, hi)) =~= lower_seq(s).subrange(lo, hi));
}

// ---------------------------------------------------------------------------
// Decimal numerals
// ---------------------------------------------------------------------------

pub open spec fn digit_value(c: char) -> nat {
    ((c as u32) - ('0' as u32)) as nat
}

pub open spec fn digit_char(n: nat) -> char {
    ((n + ('0' as u32)) as u32) as char
}

/// The number a sequence of decimal digits denotes, most significant first.
pub open spec fn digits_value(s: Seq<char>) -> nat
    decreases s.len(),
{
    if s.len() == 0 {
        0
    } else {
        digits_value(s.drop_last()) * 10 + digit_value(s.last())
    }
}

/// The canonical decimal spelling of a number: no sign and no leading zero.
pub open spec fn dec(n: nat) -> Seq<char>
    decreases n,
{
    if n < 10 {
        seq![digit_char(n)]
    } else {
        dec(n / 10).push(digit_char(n % 10))
    }
}

/// A decimal component accepted for a version number: one to ten digits, no
/// leading zero, and a value that fits in `u32`.
pub open spec fn is_component(s: Seq<char>) -> bool {
    &&& 1 <= s.len() <= 10
    &&& all_digits(s)
    &&& (s.len() > 1 ==> s[0] != '0')
    &&& digits_value(s) <= u32::MAX
}

/// The value of a component, or `None` when the text is not a component.
pub open spec fn component_value(s: Seq<char>) -> Option<u32> {
    if is_component(s) {
        Some(digits_value(s) as u32)
    } else {
        None
    }
}

/// Length of the run of decimal digits that starts the sequence.
pub open spec fn digit_run(s: Seq<char>) -> nat
    decreases s.len(),
{
    if s.len() == 0 || !is_digit(s[0]) {
        0
    } else {
        1 + digit_run(s.drop_first())
    }
}

pub proof fn lemma_digit_run(s: Seq<char>)
    ensures
        digit_run(s) <= s.len(),
        forall|j: int| 0 <= j < digit_run(s) ==> is_digit(#[trigger] s[j]),
        digit_run(s) < s.len() ==> !is_digit(s[digit_run(s) as int]),
    decreases s.len(),
{
    if s.len() > 0 && is_digit(s[0]) {
        lemma_digit_run(s.drop_first());
        assert forall|j: int| 0 <= j < digit_run(s) implies is_digit(#[trigger] s[j]) by {
            if j > 0 {
                assert(s[j] == s.drop_first()[j - 1]);
            }
        }
    }
}

pub proof fn lemma_digit_run_at(s: Seq<char>, k: int)
    requires
        0 <= k <= s.len(),
        forall|j: int| 0 <= j < k ==> is_digit(#[trigger] s[j]),
        k < s.len() ==> !is_digit(s[k]),
    ensures
        digit_run(s) == k,
{
    lemma_digit_run(s);
    if digit_run(s) < k {
        assert(is_digit(s[digit_run(s) as int]));
    } else if digit_run(s) > k {
        assert(is_digit(s[k]));
    }
}

pub open spec fn pow10(k: nat) -> nat
    decreases k,
{
    if k == 0 {
        1
    } else {
        10 * pow10((k - 1) as nat)
    }
}

pub proof fn lemma_digit_char(n: nat)
    requires
        n < 10,
    ensures
        is_digit(digit_char(n)),
        digit_value(digit_char(n)) == n,
        is_ascii_char(digit_char(n)),
        (digit_char(n) == '0') == (n == 0),
{
}

/// The canonical spelling consists of digits, has no leading zero and denotes `n`.
pub proof fn lemma_dec(n: nat)
    ensures
        dec(n).len() >= 1,
        all_digits(dec(n)),
        all_ascii(dec(n)),
        dec(n).len() > 1 ==> dec(n)[0] != '0',
        digits_value(dec(n)) == n,
        !has_char(dec(n), '.'),
    decreases n,
{
    if n < 10 {
        lemma_digit_char(n);
        assert(dec(n).drop_last() =~= Seq::<char>::empty());
        assert(digits_value(dec(n).drop_last()) == 0);
    } else {
        lemma_dec(n / 10);
        lemma_digit_char(n % 10);
        let d = dec(n);
        assert(d.drop_last() =~= dec(n / 10));
        assert(d[0] == dec(n / 10)[0]);
        assert forall|i: int| 0 <= i < d.len() implies is_digit(#[trigger] d[i]) && is_ascii_char(
            d[i],
        ) by {
            if i < d.len() - 1 {
                assert(d[i] == dec(n / 10)[i]);
            }
        }
        assert(!has_char(d, '.')) by {
            if has_char(d, '.') {
                let i = choose|i: int| 0 <= i < d.len() && d[i] == '.';
                assert(is_digit(d[i]));
            }
        }
        if n / 10 < 10 {
            lemma_digit_char(n / 10);
            assert(dec(n / 10) == seq![digit_char(n / 10)]);
            assert(d[0] == digit_char(n / 10));
        } else {
            lemma_dec(n / 100);
            assert(dec(n / 10).len() == dec(n / 10 / 10).len() + 1);
        }
        assert(d.len() > 1 ==> d[0] != '0');
        assert(n == (n / 10) * 10 + n % 10) by (nonlinear_arith);
        assert(d.last() == digit_char(n % 10));
        assert(digits_value(d) == digits_value(d.drop_last()) * 10 + digit_value(d.last()));
        assert(digits_value(d) == n);
    }
}

pub proof fn lemma_dec_short(n: nat, k: nat)
    requires
        k >= 1,
        n < pow10(k),
    ensures
        dec(n).len() <= k,
    decreases n,
{
    if n >= 10 {
        assert(k >= 2) by {
            if k == 1 {
                assert(pow10(1) == 10) by {
                    reveal_with_fuel(pow10, 2);
                }
            }
        }
        assert(pow10(k) == 10 * pow10((k - 1) as nat));
        assert(n / 10 < pow10((k - 1) as nat)) by (nonlinear_arith)
            requires
                n < 10 * pow10((k - 1) as nat),
        ;
        lemma_dec_short(n / 10, (k - 1) as nat);
    }
}

pub proof fn lemma_pow10_10()
    ensures
        pow10(10) == 10_000_000_000,
{
    reveal_with_fuel(pow10, 11);
}

pub proof fn lemma_digit_roundtrip(c: char)
    requires
        is_digit(c),
    ensures
        digit_char(digit_value(c)) == c,
        digit_value(c) < 10,
{
}

/// Every `u32` has a canonical spelling that is itself a component.
pub proof fn lemma_dec_component(n: nat)
    requires
        n <= u32::MAX,
    ensures
        is_component(dec(n)),
{
    lemma_dec(n);
    lemma_pow10_10();
    lemma_dec_short(n, 10);
}

proof fn lemma_value_positive(s: Seq<char>)
    requires
        s.len() >= 1,
        all_digits(s),
        s[0] != '0',
    ensures
        digits_value(s) >= 1,
    decreases s.len(),
{
    if s.len() > 1 {
        let t = s.drop_last();
        assert(t[0] == s[0]);
        lemma_value_positive(t);
    }
}

/// A digit string without leading zero is the canonical spelling of its value.
pub proof fn lemma_canonical(s: Seq<char>)
    requires
        s.len() >= 1,
        all_digits(s),
        s.len() > 1 ==> s[0] != '0',
    ensures
        dec(digits_value(s)) == s,
    decreases s.len(),
{
    let d = s.last();
    assert(is_digit(d));
    if s.len() == 1 {
        assert(s.drop_last() =~= Seq::<char>::empty());
        lemma_digit_roundtrip(d);
        assert(digits_value(s.drop_last()) == 0);
        assert(digits_value(s) == digits_value(s.drop_last()) * 10 + digit_value(s.last()));
        assert(digits_value(s) == digit_value(d));
        assert(dec(digits_value(s)) =~= s);
    } else {
        let t = s.drop_last();
        assert(t[0] == s[0]);
        assert(t.len() > 1 ==> t[0] != '0');
        lemma_canonical(t);
        lemma_value_positive(t);
        let v = digits_value(t);
        let n = digits_value(s);
        assert(n == v * 10 + digit_value(d));
        assert(n / 10 == v && n % 10 == digit_value(d)) by (nonlinear_arith)
            requires
                n == v * 10 + digit_value(d),
                digit_value(d) < 10,
        ;
        assert(dec(n) =~= s);
    }
}

/// Components and `u32` values correspond one to one through `dec`.
pub proof fn lemma_component_roundtrip(s: Seq<char>)
    requires
        is_component(s),
    ensures
        dec(digits_value(s)) == s,
{
    lemma_canonical(s);
}

// ---------------------------------------------------------------------------
// Hexadecimal numerals (fixed width, used by installation identifiers)
// ---------------------------------------------------------------------------

pub open spec fn hex_digit_value(c: char) -> nat {
    if is_digit(c) {
        digit_value(c)
    } else if 'a' <= c && c <= 'f' {
        ((c as u32) - ('a' as u32) + 10) as nat
    } else {
        ((c as u32) - ('A' as u32) + 10) as nat
    }
}

pub open spec fn hex_char(n: nat) -> char {
    if n < 10 {
        digit_char(n)
    } else {
        ((n - 10 + ('a' as u32)) as u32) as char
    }
}

pub open spec fn hex_value(s: Seq<char>) -> nat
    decreases s.len(),
{
    if s.len() == 0 {
        0
    } else {
        hex_value(s.drop_last()) * 16 + hex_digit_value(s.last())
    }
}

/// The lowercase, zero-padded spelling of `n` with exactly `k` hexadecimal digits.
pub open spec fn hex_fixed(n: nat, k: nat) -> Seq<char>
    decreases k,
{
    if k == 0 {
        Seq::empty()
    } else {
        hex_fixed(n / 16, (k - 1) as nat).push(hex_char(n % 16))
    }
}

pub open spec fn pow16(k: nat) -> nat
    decreases k,
{
    if k == 0 {
        1
    } else {
        16 * pow16((k - 1) as nat)
    }
}

pub proof fn lemma_hex_fixed(n: nat, k: nat)
    requires
        n < pow16(k),
    ensures
        hex_fixed(n, k).len() == k,
        all_hex(hex_fixed(n, k)),
        all_ascii(hex_fixed(n, k)),
        lower_seq(hex_fixed(n, k)) == hex_fixed(n, k),
        hex_value(hex_fixed(n, k)) == n,
    decreases k,
{
    if k > 0 {
        assert(pow16(k) == 16 * pow16((k - 1) as nat));
        assert(n / 16 < pow16((k - 1) as nat)) by (nonlinear_arith)
            requires
                n < 16 * pow16((k - 1) as nat),
        ;
        lemma_hex_fixed(n / 16, (k - 1) as nat);
        let h = hex_fixed(n, k);
        let t = hex_fixed(n / 16, (k - 1) as nat);
        assert(h.drop_last() =~= t);
        assert forall|i: int| 0 <= i < h.len() implies is_hex_digit(#[trigger] h[i])
            && is_ascii_char(h[i]) by {
            if i < h.len() - 1 {
                assert(h[i] == t[i]);
            }
        }
        assert(lower_seq(h) =~= h) by {
            assert forall|i: int| 0 <= i < h.len() implies lower(h[i]) == h[i] by {
                if i < h.len() - 1 {
                    assert(h[i] == t[i]);
                    assert(lower_seq(t)[i] == t[i]);
                }
            }
        }
        assert(n == (n / 16) * 16 + n % 16) by (nonlinear_arith);
    }
}

pub proof fn lemma_hex_canonical(s: Seq<char>)
    requires
        all_hex(s),
    ensures
        hex_fixed(hex_value(s), s.len()) == lower_seq(s),
        hex_value(s) < pow16(s.len()),
    decreases s.len(),
{
    if s.len() == 0 {
        assert(lower_seq(s) =~= Seq::<char>::empty());
    } else {
        let t = s.drop_last();
        assert(all_hex(t)) by {
            assert forall|i: int| 0 <= i < t.len() implies is_hex_digit(#[trigger] t[i]) by {
                assert(t[i] == s[i]);
            }
        }
        lemma_hex_canonical(t);
        let d = s.last();
        assert(is_hex_digit(d));
        let v = hex_value(t);
        let n = hex_value(s);
        assert(hex_digit_value(d) < 16);
        assert(n / 16 == v && n % 16 == hex_digit_value(d)) by (nonlinear_arith)
            requires
                n == v * 16 + hex_digit_value(d),
                hex_digit_value(d) < 16,
        ;
        assert(pow16(s.len()) == 16 * pow16(t.len()));
        assert(n < pow16(s.len())) by (nonlinear_arith)
            requires
                n == v * 16 + hex_digit_value(d),
                hex_digit_value(d) < 16,
                v < pow16(t.len()),
                pow16(s.len()) == 16 * pow16(t.len()),
        ;
        assert(hex_char(hex_digit_value(d)) == lower(d));
        assert(hex_fixed(n, s.len()) =~= lower_seq(s)) by {
            assert(lower_seq(s).drop_last() =~= lower_seq(t));
        }
    }
}

pub proof fn lemma_pow16_32()
    ensures
        pow16(32) == 0x1_0000_0000_0000_0000_0000_0000_0000_0000,
{
    reveal_with_fuel(pow16, 33);
}

// ---------------------------------------------------------------------------
// Searching
// ---------------------------------------------------------------------------

/// Index of the first occurrence of `c` in `s`, or `-1` when `c` does not occur.
pub open spec fn index_of(s: Seq<char>, c: char) -> int
    decreases s.len(),
{
    if s.len() == 0 {
        -1
    } else if s[0] == c {
        0
    } else {
        let r = index_of(s.drop_first(), c);
        if r < 0 {
            -1
        } else {
            r + 1
        }
    }
}

pub proof fn lemma_index_of(s: Seq<char>, c: char)
    ensures
        -1 <= index_of(s, c) < s.len(),
        index_of(s, c) >= 0 ==> s[index_of(s, c)] == c,
        forall|j: int| 0 <= j < s.len() && (index_of(s, c) < 0 || j < index_of(s, c)) ==> s[j]
            != c,
    decreases s.len(),
{
    if s.len() > 0 && s[0] != c {
        lemma_index_of(s.drop_first(), c);
        assert forall|j: int|
            0 <= j < s.len() && (index_of(s, c) < 0 || j < index_of(s, c)) implies s[j] != c by {
            if j > 0 {
                assert(s[j] == s.drop_first()[j - 1]);
            }
        }
    }
}

/// `index_of` is determined by the position of the first occurrence.
pub proof fn lemma_index_of_at(s: Seq<char>, c: char, i: int)
    requires
        -1 <= i < s.len(),
        i >= 0 ==> s[i] == c,
        forall|j: int| 0 <= j < s.len() && (i < 0 || j < i) ==> s[j] != c,
    ensures
        index_of(s, c) == i,
{
    lemma_index_of(s, c);
    let r = index_of(s, c);
    if r >= 0 && i >= 0 {
        if r < i {
            assert(s[r] != c);
        } else if i < r {
            assert(s[i] != c);
        }
    } else if r >= 0 {
        assert(s[r] != c);
    } else if i >= 0 {
        assert(s[i] != c);
    }
}

pub proof fn lemma_index_of_absent(s: Seq<char>, c: char)
    requires
        !has_char(s, c),
    ensures
        index_of(s, c) == -1,
{
    lemma_index_of_at(s, c, -1);
}

pub proof fn lemma_index_of_concat(a: Seq<char>, c: char, b: Seq<char>)
    requires
        !has_char(a, c),
    ensures
        index_of(a + seq![c] + b, c) == a.len(),
{
    let s = a + seq![c] + b;
    assert forall|j: int| 0 <= j < s.len() && j < a.len() implies s[j] != c by {
        assert(s[j] == a[j]);
    }
    lemma_index_of_at(s, c, a.len() as int);
}

// ---------------------------------------------------------------------------
// Executable helpers
// ---------------------------------------------------------------------------

/// The characters of a string slice, in order.
pub fn chars_of(s: &str) -> (v: Vec<char>)
    ensures
        v@ == s@,
{
    let mut v: Vec<char> = Vec::new();
    for c in it: s.chars()
        invariant
            v@ == it.seq().take(it.index() as int),
            it.seq() == s@,
    {
        v.push(c);
    }
    v
}

/// Appends one character to a string (`String::push`).
#[verifier::external_body]
pub(crate) fn push_char(s: &mut String, c: char)
    ensures
        final(s)@ == old(s)@.push(c),
{
    s.push(c);
}

/// Appends a string slice to a string.
pub fn push_str(s: &mut String, t: &str)
    ensures
        final(s)@ == old(s)@ + t@,
{
    let cs = chars_of(t);
    push_chars(s, &cs);
}

pub fn push_chars(s: &mut String, t: &[char])
    ensures
        final(s)@ == old(s)@ + t@,
{
    let ghost start = s@;
    let mut i: usize = 0;
    while i < t.len()
        invariant
            i <= t.len(),
            s@ == start + t@.take(i as int),
        decreases t.len() - i,
    {
        push_char(s, t[i]);
        i = i + 1;
        assert(t@.take(i as int) =~= t@.take((i - 1) as int).push(t@[i - 1]));
    }
    assert(t@.take(i as int) =~= t@);
}

pub fn string_of(t: &[char]) -> (s: String)
    ensures
        s@ == t@,
{
    let mut s = String::new();
    push_chars(&mut s, t);
    s
}

pub fn lower_char(c: char) -> (r: char)
    ensures
        r == lower(c),
{
    if 'A' <= c && c <= 'Z' {
        let b = (c as u8) + 32;
        b as char
    } else {
        c
    }
}

pub fn lower_chars(s: &[char]) -> (r: Vec<char>)
    ensures
        r@ == lower_seq(s@),
{
    let mut r: Vec<char> = Vec::new();
    let mut i: usize = 0;
    while i < s.len()
        invariant
            i <= s.len(),
            r@ == lower_seq(s@).take(i as int),
        decreases s.len() - i,
    {
        let c = lower_char(s[i]);
        r.push(c);
        i = i + 1;
        assert(r@ =~= lower_seq(s@).take(i as int));
    }
    assert(r@ =~= lower_seq(s@));
    r
}

pub fn is_ascii_chars(s: &[char]) -> (r: bool)
    ensures
        r == all_ascii(s@),
{
    let mut i: usize = 0;
    while i < s.len()
        invariant
            i <= s.len(),
            forall|j: int| 0 <= j < i ==> is_ascii_char(#[trigger] s@[j]),
        decreases s.len() - i,
    {
        if s[i] as u32 >= 128 {
            return false;
        }
        i = i + 1;
    }
    true
}

pub fn slice_chars(s: &[char], lo: usize, hi: usize) -> (r: Vec<char>)
    requires
        lo <= hi <= s.len(),
    ensures
        r@ == s@.subrange(lo as int, hi as int),
{
    let mut r: Vec<char> = Vec::new();
    let mut i = lo;
    while i < hi
        invariant
            lo <= i <= hi,
            hi <= s.len(),
            r@ == s@.subrange(lo as int, i as int),
        decreases hi - i,
    {
        r.push(s[i]);
        i = i + 1;
        assert(r@ =~= s@.subrange(lo as int, i as int));
    }
    r
}

pub fn chars_eq(a: &[char], b: &[char]) -> (r: bool)
    ensures
        r == (a@ == b@),
{
    if a.len() != b.len() {
        return false;
    }
    let mut i: usize = 0;
    while i < a.len()
        invariant
            i <= a.len(),
            a.len() == b.len(),
            forall|j: int| 0 <= j < i ==> a@[j] == b@[j],
        decreases a.len() - i,
    {
        if a[i] != b[i] {
            return false;
        }
        i = i + 1;
    }
    assert(a@ =~= b@);
    true
}

/// Whether `s` equals the text of `t`.
pub fn chars_eq_str(s: &[char], t: &str) -> (r: bool)
    ensures
        r == (s@ == t@),
{
    let tc = chars_of(t);
    chars_eq(s, &tc)
}

pub fn starts_with_str(s: &[char], prefix: &str) -> (r: bool)
    ensures
        r == (prefix@.len() <= s@.len() && s@.subrange(0, prefix@.len() as int) == prefix@),
{
    let p = chars_of(prefix);
    if p.len() > s.len() {
        return false;
    }
    let head = slice_chars(s, 0, p.len());
    chars_eq(&head, &p)
}

/// First index of `c` in `s`, as `index_of` defines it.
pub fn find_char(s: &[char], c: char) -> (r: Option<usize>)
    ensures
        match r {
            Some(i) => i as int == index_of(s@, c) && i < s@.len() && s@[i as int] == c,
            None => index_of(s@, c) == -1,
        },
{
    let mut i: usize = 0;
    while i < s.len()
        invariant
            i <= s.len(),
            forall|j: int| 0 <= j < i ==> s@[j] != c,
        decreases s.len() - i,
    {
        if s[i] == c {
            proof {
                lemma_index_of_at(s@, c, i as int);
            }
            return Some(i);
        }
        i = i + 1;
    }
    proof {
        lemma_index_of_at(s@, c, -1);
    }
    None
}

/// Length of the leading run of decimal digits.
pub fn count_digits(s: &[char]) -> (r: usize)
    ensures
        r == digit_run(s@),
        r <= s@.len(),
{
    let mut i: usize = 0;
    while i < s.len() && '0' <= s[i] && s[i] <= '9'
        invariant
            i <= s.len(),
            forall|j: int| 0 <= j < i ==> is_digit(#[trigger] s@[j]),
        decreases s.len() - i,
    {
        i = i + 1;
    }
    proof {
        lemma_digit_run_at(s@, i as int);
    }
    i
}

pub fn contains_char(s: &[char], c: char) -> (r: bool)
    ensures
        r == has_char(s@, c),
{
    let f = find_char(s, c);
    proof {
        lemma_index_of(s@, c);
    }
    f.is_some()
}

/// Parses one version component (see `is_component`).
pub fn parse_component(s: &[char]) -> (r: Option<u32>)
    ensures
        r is Some <==> is_component(s@),
        r matches Some(n) ==> n == digits_value(s@),
        r == component_value(s@),
{
    if s.len() == 0 || s.len() > 10 {
        return None;
    }
    if s.len() > 1 && s[0] == '0' {
        return None;
    }
    let mut acc: u64 = 0;
    let mut i: usize = 0;
    while i < s.len()
        invariant
            i <= s.len() <= 10,
            all_digits(s@.take(i as int)),
            acc == digits_value(s@.take(i as int)),
            acc < pow10(i as nat),
        decreases s.len() - i,
    {
        let c = s[i];
        if !('0' <= c && c <= '9') {
            proof {
                assert(!all_digits(s@)) by {
                    assert(!is_digit(s@[i as int]));
                }
            }
            return None;
        }
        let d = (c as u32 - '0' as u32) as u64;
        proof {
            lemma_pow10_10();
            assert(pow10(i as nat) <= pow10(10)) by {
                lemma_pow10_mono(i as nat, 10);
            }
            assert(s@.take(i + 1).drop_last() =~= s@.take(i as int));
            assert(pow10((i + 1) as nat) == 10 * pow10(i as nat));
            assert(acc * 10 + d < pow10((i + 1) as nat)) by (nonlinear_arith)
                requires
                    acc < pow10(i as nat),
                    d < 10,
                    pow10((i + 1) as nat) == 10 * pow10(i as nat),
            ;
        }
        acc = acc * 10 + d;
        i = i + 1;
        proof {
            assert forall|j: int| 0 <= j < i implies is_digit(#[trigger] s@.take(i as int)[j]) by {
                if j < i - 1 {
                    assert(s@.take(i as int)[j] == s@.take(i - 1)[j]);
                }
            }
        }
    }
    assert(s@.take(i as int) =~= s@);
    if acc > u32::MAX as u64 {
        return None;
    }
    Some(acc as u32)
}

pub proof fn lemma_pow10_mono(i: nat, j: nat)
    requires
        i <= j,
    ensures
        pow10(i) <= pow10(j),
    decreases j,
{
    if i < j {
        lemma_pow10_mono(i, (j - 1) as nat);
    }
}

/// Appends the canonical decimal spelling of `n`.
pub fn push_decimal(s: &mut String, n: u32)
    ensures
        final(s)@ == old(s)@ + dec(n as nat),
    decreases n,
{
    if n >= 10 {
        push_decimal(s, n / 10);
    }
    let d = (n % 10) as u8;
    let c = (d + 48) as char;
    push_char(s, c);
    proof {
        if n >= 10 {
            assert(dec(n as nat) == dec((n / 10) as nat).push(digit_char((n % 10) as nat)));
        }
    }
}

/// Appends the canonical decimal spelling of a `usize`.
pub fn push_decimal_usize(s: &mut String, n: usize)
    ensures
        final(s)@ == old(s)@ + dec(n as nat),
    decreases n,
{
    if n >= 10 {
        push_decimal_usize(s, n / 10);
    }
    let d = (n % 10) as u8;
    let c = (d + 48) as char;
    push_char(s, c);
    proof {
        if n >= 10 {
            assert(dec(n as nat) == dec((n / 10) as nat).push(digit_char((n % 10) as nat)));
        }
    }
}

/// Appends `k` lowercase hexadecimal digits of `n`, zero-padded.
pub fn push_hex_fixed(s: &mut String, n: u128, k: u32)
    ensures
        final(s)@ == old(s)@ + hex_fixed(n as nat, k as nat),
    decreases k,
{
    if k > 0 {
        push_hex_fixed(s, n / 16, k - 1);
        let d = (n % 16) as u8;
        let c = if d < 10 {
            (d + 48) as char
        } else {
            (d - 10 + 97) as char
        };
        push_char(s, c);
    }
}

// ---------------------------------------------------------------------------
// Lexicographic order of texts (the order of `str` and `String`)
// ---------------------------------------------------------------------------

/// Lexicographic order by character code; on UTF-8 strings this is the byte order
/// that `Ord for str` uses.
pub open spec fn text_le(a: Seq<char>, b: Seq<char>) -> bool
    decreases a.len(),
{
    if a.len() == 0 {
        true
    } else if b.len() == 0 {
        false
    } else if a[0] != b[0] {
        a[0] < b[0]
    } else {
        text_le(a.drop_first(), b.drop_first())
    }
}

pub open spec fn text_order() -> spec_fn(Seq<char>, Seq<char>) -> bool {
    |a: Seq<char>, b: Seq<char>| text_le(a, b)
}

proof fn lemma_text_le_reflexive(a: Seq<char>)
    ensures
        text_le(a, a),
    decreases a.len(),
{
    if a.len() > 0 {
        lemma_text_le_reflexive(a.drop_first());
    }
}

proof fn lemma_text_le_antisymmetric(a: Seq<char>, b: Seq<char>)
    requires
        text_le(a, b),
        text_le(b, a),
    ensures
        a == b,
    decreases a.len(),
{
    if a.len() > 0 && b.len() > 0 {
        lemma_text_le_antisymmetric(a.drop_first(), b.drop_first());
        assert(a =~= seq![a[0]] + a.drop_first());
        assert(b =~= seq![b[0]] + b.drop_first());
    } else {
        assert(a =~= b);
    }
}

proof fn lemma_text_le_transitive(a: Seq<char>, b: Seq<char>, c: Seq<char>)
    requires
        text_le(a, b),
        text_le(b, c),
    ensures
        text_le(a, c),
    decreases a.len(),
{
    if a.len() > 0 && b.len() > 0 && c.len() > 0 && a[0] == b[0] && b[0] == c[0] {
        lemma_text_le_transitive(a.drop_first(), b.drop_first(), c.drop_first());
    }
}

proof fn lemma_text_le_connected(a: Seq<char>, b: Seq<char>)
    ensures
        text_le(a, b) || text_le(b, a),
    decreases a.len(),
{
    if a.len() > 0 && b.len() > 0 && a[0] == b[0] {
        lemma_text_le_connected(a.drop_first(), b.drop_first());
    }
}

/// Lexicographic order of texts is a total order.
pub proof fn lemma_text_order_total()
    ensures
        total_ordering(text_order()),
{
    assert forall|a: Seq<char>| #[trigger] text_order()(a, a) by {
        lemma_text_le_reflexive(a);
    }
    assert forall|a: Seq<char>, b: Seq<char>| #[trigger] text_order()(a, b) && #[trigger] text_order()(
        b,
        a,
    ) implies a == b by {
        lemma_text_le_antisymmetric(a, b);
    }
    assert forall|a: Seq<char>, b: Seq<char>, c: Seq<char>| #[trigger] text_order()(a, b)
        && #[trigger] text_order()(b, c) implies text_order()(a, c) by {
        lemma_text_le_transitive(a, b, c);
    }
    assert forall|a: Seq<char>, b: Seq<char>| #[trigger] text_order()(a, b) || #[trigger] text_order()(
        b,
        a,
    ) by {
        lemma_text_le_connected(a, b);
    }
}

/// The facts of a total order for `text_le` on three given texts.
pub proof fn lemma_text_le_facts(a: Seq<char>, b: Seq<char>, c: Seq<char>)
    ensures
        text_le(a, a),
        text_le(a, b) || text_le(b, a),
        text_le(a, b) && text_le(b, a) ==> a == b,
        text_le(a, b) && text_le(b, c) ==> text_le(a, c),
{
    lemma_text_order_total();
    let o = text_order();
    assert(o(a, a));
    assert(o(a, b) || o(b, a));
    if o(a, b) && o(b, a) {
        assert(a == b);
    }
    if o(a, b) && o(b, c) {
        assert(o(a, c));
    }
}

/// Compares two texts lexicographically.
pub fn text_le_chars(a: &[char], b: &[char]) -> (r: bool)
    ensures
        r == text_le(a@, b@),
{
    let mut i: usize = 0;
    assert(a@.skip(0) =~= a@);
    assert(b@.skip(0) =~= b@);
    while i < a.len() && i < b.len()
        invariant
            i <= a@.len(),
            i <= b@.len(),
            text_le(a@, b@) == text_le(a@.skip(i as int), b@.skip(i as int)),
        decreases a.len() - i,
    {
        if a[i] != b[i] {
            return a[i] < b[i];
        }
        assert(a@.skip(i as int).drop_first() =~= a@.skip(i + 1));
        assert(b@.skip(i as int).drop_first() =~= b@.skip(i + 1));
        i = i + 1;
    }
    i == a.len()
}

/// Sorts texts lexicographically; the result is the sorted arrangement of the input.
pub fn sort_texts(items: Vec<Vec<char>>) -> (r: Vec<Vec<char>>)
    ensures
        r@.map_values(|v: Vec<char>| v@) == items@.map_values(|v: Vec<char>| v@).sort_by(
            text_order(),
        ),
{
    let ghost input = items@.map_values(|v: Vec<char>| v@);
    proof {
        lemma_text_order_total();
    }
    let mut out: Vec<Vec<char>> = Vec::new();
    let mut i: usize = 0;
    proof {
        broadcast use vstd::seq_lib::group_to_multiset_ensures;

        assert(input.take(0) =~= Seq::<Seq<char>>::empty());
        assert(out@.map_values(|v: Vec<char>| v@) =~= Seq::<Seq<char>>::empty());
    }
    while i < items.len()
        invariant
            i <= items@.len(),
            input == items@.map_values(|v: Vec<char>| v@),
            total_ordering(text_order()),
            sorted_by(out@.map_values(|v: Vec<char>| v@), text_order()),
            out@.map_values(|v: Vec<char>| v@).to_multiset() == input.take(i as int).to_multiset(),
        decreases items.len() - i,
    {
        let x = items[i].clone();
        let ghost xs = items@[i as int]@;
        assert(x@ == xs);
        let ghost before = out@.map_values(|v: Vec<char>| v@);
        let mut p: usize = 0;
        while p < out.len() && text_le_chars(&out[p], &x)
            invariant
                p <= out@.len(),
                x@ == xs,
                before == out@.map_values(|v: Vec<char>| v@),
                forall|k: int| 0 <= k < p ==> text_le(#[trigger] before[k], xs),
            decreases out.len() - p,
        {
            assert(before[p as int] == out@[p as int]@);
            p = p + 1;
        }
        out.insert(p, x);
        proof {
            let after = out@.map_values(|v: Vec<char>| v@);
            assert(after =~= before.insert(p as int, xs));
            assert forall|a: int, b: int| 0 <= a < b < after.len() implies #[trigger] text_order()(
                after[a],
                after[b],
            ) by {
                if b < p {
                    assert(after[a] == before[a] && after[b] == before[b]);
                } else if b == p {
                    assert(after[a] == before[a]);
                } else if a < p {
                    assert(after[a] == before[a] && after[b] == before[b - 1]);
                    assert(text_le(before[a], xs));
                    assert(!text_le(before[p as int], xs));
                    lemma_text_le_connected(before[p as int], xs);
                    if b - 1 > p {
                        assert(text_order()(before[p as int], before[b - 1]));
                    } else {
                        lemma_text_le_reflexive(before[p as int]);
                    }
                    lemma_text_le_transitive(xs, before[p as int], before[b - 1]);
                    lemma_text_le_transitive(before[a], xs, before[b - 1]);
                } else if a == p {
                    assert(after[b] == before[b - 1]);
                    lemma_text_le_connected(before[p as int], xs);
                    if b - 1 > p {
                        assert(text_order()(before[p as int], before[b - 1]));
                    } else {
                        lemma_text_le_reflexive(before[p as int]);
                    }
                    lemma_text_le_transitive(xs, before[p as int], before[b - 1]);
                } else {
                    assert(after[a] == before[a - 1] && after[b] == before[b - 1]);
                    assert(text_order()(before[a - 1], before[b - 1]));
                }
            }
            broadcast use vstd::seq_lib::group_to_multiset_ensures;
            broadcast use vstd::multiset::group_multiset_axioms;

            before.insert_ensures(p as int, xs);
            assert(before.insert(p as int, xs) =~= before.take(p as int).push(xs) + before.skip(p as int));
            assert(before =~= before.take(p as int) + before.skip(p as int));
            vstd::seq_lib::lemma_multiset_commutative(before.take(p as int).push(xs), before.skip(p as int));
            vstd::seq_lib::lemma_multiset_commutative(before.take(p as int), before.skip(p as int));
            assert(input.take(i + 1) =~= input.take(i as int).push(xs));
        }
        i = i + 1;
    }
    proof {
        assert(input.take(items@.len() as int) =~= input);
        input.lemma_sort_by_ensures(text_order());
        vstd::seq_lib::lemma_sorted_unique(
            out@.map_values(|v: Vec<char>| v@),
            input.sort_by(text_order()),
            text_order(),
        );
    }
    out
}

/// The texts in order, separated by `sep`.
pub open spec fn join_texts(items: Seq<Seq<char>>, sep: Seq<char>) -> Seq<char>
    decreases items.len(),
{
    if items.len() == 0 {
        Seq::empty()
    } else if items.len() == 1 {
        items[0]
    } else {
        join_texts(items.drop_last(), sep) + sep + items.last()
    }
}

/// Appends the texts in order, separated by `sep`.
pub fn push_joined(s: &mut String, items: &[Vec<char>], sep: &str)
    ensures
        final(s)@ == old(s)@ + join_texts(items@.map_values(|v: Vec<char>| v@), sep@),
{
    let ghost start = s@;
    let ghost all = items@.map_values(|v: Vec<char>| v@);
    let mut i: usize = 0;
    while i < items.len()
        invariant
            i <= items@.len(),
            all == items@.map_values(|v: Vec<char>| v@),
            s@ == start + join_texts(all.take(i as int), sep@),
        decreases items.len() - i,
    {
        if i > 0 {
            push_str(s, sep);
        }
        push_chars(s, items[i].as_slice());
        proof {
            let next = all.take(i + 1);
            assert(next.drop_last() =~= all.take(i as int));
            assert(next.last() == items@[i as int]@);
            if i == 0 {
                assert(join_texts(next, sep@) == next[0]);
            }
            assert(s@ =~= start + join_texts(next, sep@));
        }
        i = i + 1;
    }
    assert(all.take(items@.len() as int) =~= all);
}

/// The pieces of a text between occurrences of `sep` (`str::split`): a text with
/// `n` separators has `n + 1` pieces, some possibly empty.
pub open spec fn split_on(t: Seq<char>, sep: char) -> Seq<Seq<char>>
    decreases t.len(),
{
    if t.len() == 0 {
        seq![Seq::empty()]
    } else {
        let rest = split_on(t.drop_last(), sep);
        if t.last() == sep {
            rest.push(Seq::empty())
        } else {
            rest.update(rest.len() - 1, rest.last().push(t.last()))
        }
    }
}

pub proof fn lemma_split_on_shape(t: Seq<char>, sep: char)
    ensures
        split_on(t, sep).len() >= 1,
        forall|i: int| 0 <= i < split_on(t, sep).len() ==> !has_char(#[trigger] split_on(t, sep)[i], sep),
    decreases t.len(),
{
    if t.len() > 0 {
        lemma_split_on_shape(t.drop_last(), sep);
        let rest = split_on(t.drop_last(), sep);
        if t.last() != sep {
            let last = rest.last().push(t.last());
            assert(!has_char(last, sep)) by {
                if has_char(last, sep) {
                    let k = choose|k: int| 0 <= k < last.len() && last[k] == sep;
                    if k < last.len() - 1 {
                        assert(rest.last()[k] == sep);
                        assert(has_char(rest[rest.len() - 1], sep));
                    }
                }
            }
        }
        assert forall|i: int| 0 <= i < split_on(t, sep).len() implies !has_char(#[trigger] split_on(t, sep)[i], sep) by {
            if i < rest.len() - 1 || (i == rest.len() - 1 && t.last() == sep) {
                assert(split_on(t, sep)[i] == rest[i]);
            } else if i == rest.len() {
                assert(split_on(t, sep)[i] =~= Seq::<char>::empty());
            }
        }
    }
}

/// Joining the pieces of a text with its separator gives the text back.
pub proof fn lemma_join_split(t: Seq<char>, sep: char)
    ensures
        join_texts(split_on(t, sep), seq![sep]) == t,
    decreases t.len(),
{
    if t.len() > 0 {
        let u = t.drop_last();
        lemma_join_split(u, sep);
        lemma_split_on_shape(u, sep);
        let rest = split_on(u, sep);
        if t.last() == sep {
            let s = rest.push(Seq::<char>::empty());
            assert(s.drop_last() =~= rest);
            assert(join_texts(s, seq![sep]) =~= t);
        } else {
            let s = rest.update(rest.len() - 1, rest.last().push(t.last()));
            lemma_join_update_last(rest, seq![sep], t.last());
            assert(join_texts(s, seq![sep]) =~= t);
        }
    }
}

proof fn lemma_join_update_last(items: Seq<Seq<char>>, sep: Seq<char>, c: char)
    requires
        items.len() >= 1,
    ensures
        join_texts(items.update(items.len() - 1, items.last().push(c)), sep) == join_texts(items, sep).push(c),
{
    let s = items.update(items.len() - 1, items.last().push(c));
    if items.len() == 1 {
        assert(s[0] == items[0].push(c));
    } else {
        assert(s.drop_last() =~= items.drop_last());
        assert(s.last() == items.last().push(c));
        assert(join_texts(s, sep) =~= join_texts(items, sep).push(c));
    }
}

/// Splitting a join of separator-free pieces gives the pieces back.
pub proof fn lemma_split_join(items: Seq<Seq<char>>, sep: char)
    requires
        items.len() >= 1,
        forall|i: int| 0 <= i < items.len() ==> !has_char(#[trigger] items[i], sep),
    ensures
        split_on(join_texts(items, seq![sep]), sep) == items,
    decreases items.len(),
{
    if items.len() == 1 {
        lemma_split_plain(items[0], sep);
        assert(split_on(items[0], sep) =~= items);
    } else {
        let init = items.drop_last();
        assert forall|i: int| 0 <= i < init.len() implies !has_char(#[trigger] init[i], sep) by {
            assert(init[i] == items[i]);
        }
        lemma_split_join(init, sep);
        let j = join_texts(init, seq![sep]);
        assert(!has_char(items.last(), sep));
        lemma_split_append(j + seq![sep], items.last(), sep);
        assert((j + seq![sep]).drop_last() =~= j);
        assert(split_on(j + seq![sep], sep) =~= init.push(Seq::<char>::empty()));
        assert(join_texts(items, seq![sep]) =~= j + seq![sep] + items.last());
        assert(items =~= init.push(items.last()));
    }
}

proof fn lemma_split_plain(t: Seq<char>, sep: char)
    requires
        !has_char(t, sep),
    ensures
        split_on(t, sep) == seq![t],
    decreases t.len(),
{
    if t.len() > 0 {
        let u = t.drop_last();
        assert(!has_char(u, sep)) by {
            if has_char(u, sep) {
                let k = choose|k: int| 0 <= k < u.len() && u[k] == sep;
                assert(t[k] == sep);
            }
        }
        lemma_split_plain(u, sep);
        assert(t.last() != sep) by {
            assert(t[t.len() - 1] == t.last());
        }
        assert(u.push(t.last()) =~= t);
        assert(t.drop_last() == u);
        let rest = split_on(u, sep);
        assert(rest == seq![u]);
        assert(split_on(t, sep) == rest.update(0, rest.last().push(t.last())));
        assert(split_on(t, sep) =~= seq![t]);
    } else {
        assert(t =~= Seq::<char>::empty());
        assert(split_on(t, sep) =~= seq![t]);
    }
}

/// Appending separator-free text to a text extends its last piece.
proof fn lemma_split_append(a: Seq<char>, b: Seq<char>, sep: char)
    requires
        !has_char(b, sep),
    ensures
        split_on(a + b, sep) == split_on(a, sep).update(
            split_on(a, sep).len() - 1,
            split_on(a, sep).last() + b,
        ),
    decreases b.len(),
{
    lemma_split_on_shape(a, sep);
    if b.len() == 0 {
        assert(a + b =~= a);
        assert(split_on(a, sep).last() + b =~= split_on(a, sep).last());
        assert(split_on(a, sep).update(split_on(a, sep).len() - 1, split_on(a, sep).last()) =~= split_on(a, sep));
    } else {
        let b0 = b.drop_last();
        assert(!has_char(b0, sep)) by {
            if has_char(b0, sep) {
                let k = choose|k: int| 0 <= k < b0.len() && b0[k] == sep;
                assert(b[k] == sep);
            }
        }
        lemma_split_append(a, b0, sep);
        assert((a + b).drop_last() =~= a + b0);
        assert((a + b).last() == b.last());
        assert(b.last() != sep) by {
            assert(b[b.len() - 1] == b.last());
        }
        let r0 = split_on(a, sep);
        let rest = split_on(a + b0, sep);
        assert(rest == r0.update(r0.len() - 1, r0.last() + b0));
        assert(rest.len() == r0.len());
        assert(rest.last() == r0.last() + b0);
        assert(split_on(a + b, sep) == rest.update(rest.len() - 1, rest.last().push(b.last())));
        assert((r0.last() + b0).push(b.last()) =~= r0.last() + b);
        assert(split_on(a + b, sep) =~= r0.update(r0.len() - 1, r0.last() + b));
    }
}

/// Splits a text at every occurrence of `sep`.
pub fn split_chars(s: &[char], sep: char) -> (r: Vec<Vec<char>>)
    ensures
        r@.map_values(|v: Vec<char>| v@) == split_on(s@, sep),
{
    let mut out: Vec<Vec<char>> = Vec::new();
    let mut cur: Vec<char> = Vec::new();
    let mut i: usize = 0;
    while i < s.len()
        invariant
            i <= s@.len(),
            out@.map_values(|v: Vec<char>| v@).push(cur@) == split_on(s@.take(i as int), sep),
        decreases s.len() - i,
    {
        let ghost prev = out@.map_values(|v: Vec<char>| v@).push(cur@);
        proof {
            assert(s@.take(i + 1).drop_last() =~= s@.take(i as int));
            assert(s@.take(i + 1).last() == s@[i as int]);
        }
        if s[i] == sep {
            let done = cur;
            out.push(done);
            cur = Vec::new();
            proof {
                assert(out@.map_values(|v: Vec<char>| v@).push(cur@) =~= prev.push(Seq::<char>::empty()));
            }
        } else {
            cur.push(s[i]);
            proof {
                assert(out@.map_values(|v: Vec<char>| v@).push(cur@) =~= prev.update(prev.len() - 1, prev.last().push(s@[i as int])));
            }
        }
        i = i + 1;
    }
    out.push(cur);
    assert(s@.take(s@.len() as int) =~= s@);
    out
}


// ---------------------------------------------------------------------------
// Whitespace trimming
// ---------------------------------------------------------------------------

/// Unicode `White_Space`, as `char::is_whitespace` uses it.
pub open spec fn is_white(c: char) -> bool {
    ||| ('\u{9}' <= c && c <= '\u{d}')
    ||| c == ' '
    ||| c == '\u{85}'
    ||| c == '\u{a0}'
    ||| c == '\u{1680}'
    ||| ('\u{2000}' <= c && c <= '\u{200a}')
    ||| c == '\u{2028}'
    ||| c == '\u{2029}'
    ||| c == '\u{202f}'
    ||| c == '\u{205f}'
    ||| c == '\u{3000}'
}

pub open spec fn trim_start(s: Seq<char>) -> Seq<char>
    decreases s.len(),
{
    if s.len() > 0 && is_white(s[0]) {
        trim_start(s.drop_first())
    } else {
        s
    }
}

pub open spec fn trim_end(s: Seq<char>) -> Seq<char>
    decreases s.len(),
{
    if s.len() > 0 && is_white(s.last()) {
        trim_end(s.drop_last())
    } else {
        s
    }
}

/// A text without its leading and trailing whitespace (`str::trim`).
pub open spec fn trim(s: Seq<char>) -> Seq<char> {
    trim_end(trim_start(s))
}

pub fn is_white_char(c: char) -> (r: bool)
    ensures
        r == is_white(c),
{
    ('\u{9}' <= c && c <= '\u{d}') || c == ' ' || c == '\u{85}' || c == '\u{a0}' || c == '\u{1680}'
        || ('\u{2000}' <= c && c <= '\u{200a}') || c == '\u{2028}' || c == '\u{2029}' || c
        == '\u{202f}' || c == '\u{205f}' || c == '\u{3000}'
}

proof fn lemma_trim_start(s: Seq<char>, k: int)
    requires
        0 <= k <= s.len(),
        forall|j: int| 0 <= j < k ==> is_white(#[trigger] s[j]),
        k == s.len() || !is_white(s[k]),
    ensures
        trim_start(s) == s.subrange(k, s.len() as int),
    decreases k,
{
    if k == 0 {
        assert(s.subrange(0, s.len() as int) =~= s);
    } else {
        let t = s.drop_first();
        assert forall|j: int| 0 <= j < k - 1 implies is_white(#[trigger] t[j]) by {
            assert(t[j] == s[j + 1]);
        }
        assert(is_white(s[0]));
        if k < s.len() {
            assert(t[k - 1] == s[k]);
        }
        lemma_trim_start(t, k - 1);
        assert(t.subrange(k - 1, t.len() as int) =~= s.subrange(k, s.len() as int));
    }
}

proof fn lemma_trim_end(s: Seq<char>, k: int)
    requires
        0 <= k <= s.len(),
        forall|j: int| k <= j < s.len() ==> is_white(#[trigger] s[j]),
        k == 0 || !is_white(s[k - 1]),
    ensures
        trim_end(s) == s.subrange(0, k),
    decreases s.len() - k,
{
    if k == s.len() {
        assert(s.subrange(0, k) =~= s);
    } else {
        let t = s.drop_last();
        assert(is_white(s[s.len() - 1]));
        assert forall|j: int| k <= j < t.len() implies is_white(#[trigger] t[j]) by {
            assert(t[j] == s[j]);
        }
        if k > 0 {
            assert(t[k - 1] == s[k - 1]);
        }
        lemma_trim_end(t, k);
        assert(t.subrange(0, k) =~= s.subrange(0, k));
    }
}

/// Removes leading and trailing whitespace.
pub fn trim_chars(s: &[char]) -> (r: Vec<char>)
    ensures
        r@ == trim(s@),
{
    let mut lo: usize = 0;
    while lo < s.len() && is_white_char(s[lo])
        invariant
            lo <= s.len(),
            forall|j: int| 0 <= j < lo ==> is_white(#[trigger] s@[j]),
        decreases s.len() - lo,
    {
        lo = lo + 1;
    }
    proof {
        lemma_trim_start(s@, lo as int);
    }
    let ghost mid = s@.subrange(lo as int, s@.len() as int);
    let mut hi: usize = s.len();
    while hi > lo && is_white_char(s[hi - 1])
        invariant
            lo <= hi <= s.len(),
            mid == s@.subrange(lo as int, s@.len() as int),
            forall|j: int| hi <= j < s.len() ==> is_white(#[trigger] s@[j]),
        decreases hi - lo,
    {
        hi = hi - 1;
    }
    proof {
        assert forall|j: int| hi - lo <= j < mid.len() implies is_white(#[trigger] mid[j]) by {
            assert(mid[j] == s@[j + lo]);
        }
        if hi > lo {
            assert(mid[hi - lo - 1] == s@[hi - 1]);
        }
        lemma_trim_end(mid, hi - lo);
        assert(mid.subrange(0, hi - lo) =~= s@.subrange(lo as int, hi as int));
    }
    slice_chars(s, lo, hi)
}

} // verus!
