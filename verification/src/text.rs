//! Characters and lines: the character classes that the stack grammar is
//! written in, trimming, and the split of a text into lines.

use vstd::prelude::*;

verus! {

/// White space in the sense of Unicode's `White_Space` property.
pub open spec fn is_space(c: char) -> bool {
    let u = c as u32;
    (0x09 <= u && u <= 0x0d) || u == 0x20 || u == 0x85 || u == 0xa0 || u == 0x1680 || (0x2000 <= u
        && u <= 0x200a) || u == 0x2028 || u == 0x2029 || u == 0x202f || u == 0x205f || u == 0x3000
}

/// Whether `c` is white space.
pub fn char_is_space(c: char) -> (b: bool)
    ensures
        b == is_space(c),
{
    let u: u32 = c as u32;
    (0x09 <= u && u <= 0x0d) || u == 0x20 || u == 0x85 || u == 0xa0 || u == 0x1680 || (0x2000 <= u
        && u <= 0x200a) || u == 0x2028 || u == 0x2029 || u == 0x202f || u == 0x205f || u == 0x3000
}

/// The decimal digit code points below U+1000.
pub open spec fn digit_block_low(u: u32) -> bool {
    (0x0030 <= u && u <= 0x0039)
    || (0x0660 <= u && u <= 0x0669)
    || (0x06f0 <= u && u <= 0x06f9)
    || (0x07c0 <= u && u <= 0x07c9)
    || (0x0966 <= u && u <= 0x096f)
    || (0x09e6 <= u && u <= 0x09ef)
    || (0x0a66 <= u && u <= 0x0a6f)
    || (0x0ae6 <= u && u <= 0x0aef)
    || (0x0b66 <= u && u <= 0x0b6f)
    || (0x0be6 <= u && u <= 0x0bef)
    || (0x0c66 <= u && u <= 0x0c6f)
    || (0x0ce6 <= u && u <= 0x0cef)
    || (0x0d66 <= u && u <= 0x0d6f)
    || (0x0de6 <= u && u <= 0x0def)
    || (0x0e50 <= u && u <= 0x0e59)
    || (0x0ed0 <= u && u <= 0x0ed9)
    || (0x0f20 <= u && u <= 0x0f29)
}

/// Whether `u` is a decimal digit below U+1000.
fn in_digit_block_low(u: u32) -> (b: bool)
    ensures
        b == digit_block_low(u),
{
    (0x0030 <= u && u <= 0x0039)
    || (0x0660 <= u && u <= 0x0669)
    || (0x06f0 <= u && u <= 0x06f9)
    || (0x07c0 <= u && u <= 0x07c9)
    || (0x0966 <= u && u <= 0x096f)
    || (0x09e6 <= u && u <= 0x09ef)
    || (0x0a66 <= u && u <= 0x0a6f)
    || (0x0ae6 <= u && u <= 0x0aef)
    || (0x0b66 <= u && u <= 0x0b6f)
    || (0x0be6 <= u && u <= 0x0bef)
    || (0x0c66 <= u && u <= 0x0c6f)
    || (0x0ce6 <= u && u <= 0x0cef)
    || (0x0d66 <= u && u <= 0x0d6f)
    || (0x0de6 <= u && u <= 0x0def)
    || (0x0e50 <= u && u <= 0x0e59)
    || (0x0ed0 <= u && u <= 0x0ed9)
    || (0x0f20 <= u && u <= 0x0f29)
}

/// The decimal digit code points from U+1000 to the end of the basic plane.
pub open spec fn digit_block_mid(u: u32) -> bool {
    (0x1040 <= u && u <= 0x1049)
    || (0x1090 <= u && u <= 0x1099)
    || (0x17e0 <= u && u <= 0x17e9)
    || (0x1810 <= u && u <= 0x1819)
    || (0x1946 <= u && u <= 0x194f)
    || (0x19d0 <= u && u <= 0x19d9)
    || (0x1a80 <= u && u <= 0x1a89)
    || (0x1a90 <= u && u <= 0x1a99)
    || (0x1b50 <= u && u <= 0x1b59)
    || (0x1bb0 <= u && u <= 0x1bb9)
    || (0x1c40 <= u && u <= 0x1c49)
    || (0x1c50 <= u && u <= 0x1c59)
    || (0xa620 <= u && u <= 0xa629)
    || (0xa8d0 <= u && u <= 0xa8d9)
    || (0xa900 <= u && u <= 0xa909)
    || (0xa9d0 <= u && u <= 0xa9d9)
    || (0xa9f0 <= u && u <= 0xa9f9)
    || (0xaa50 <= u && u <= 0xaa59)
    || (0xabf0 <= u && u <= 0xabf9)
    || (0xff10 <= u && u <= 0xff19)
}

/// Whether `u` is a decimal digit from U+1000 to the end of the basic
/// plane.
fn in_digit_block_mid(u: u32) -> (b: bool)
    ensures
        b == digit_block_mid(u),
{
    (0x1040 <= u && u <= 0x1049)
    || (0x1090 <= u && u <= 0x1099)
    || (0x17e0 <= u && u <= 0x17e9)
    || (0x1810 <= u && u <= 0x1819)
    || (0x1946 <= u && u <= 0x194f)
    || (0x19d0 <= u && u <= 0x19d9)
    || (0x1a80 <= u && u <= 0x1a89)
    || (0x1a90 <= u && u <= 0x1a99)
    || (0x1b50 <= u && u <= 0x1b59)
    || (0x1bb0 <= u && u <= 0x1bb9)
    || (0x1c40 <= u && u <= 0x1c49)
    || (0x1c50 <= u && u <= 0x1c59)
    || (0xa620 <= u && u <= 0xa629)
    || (0xa8d0 <= u && u <= 0xa8d9)
    || (0xa900 <= u && u <= 0xa909)
    || (0xa9d0 <= u && u <= 0xa9d9)
    || (0xa9f0 <= u && u <= 0xa9f9)
    || (0xaa50 <= u && u <= 0xaa59)
    || (0xabf0 <= u && u <= 0xabf9)
    || (0xff10 <= u && u <= 0xff19)
}

/// The decimal digit code points from U+10000 to U+117FF.
pub open spec fn digit_block_high(u: u32) -> bool {
    (0x104a0 <= u && u <= 0x104a9)
    || (0x10d30 <= u && u <= 0x10d39)
    || (0x10d40 <= u && u <= 0x10d49)
    || (0x11066 <= u && u <= 0x1106f)
    || (0x110f0 <= u && u <= 0x110f9)
    || (0x11136 <= u && u <= 0x1113f)
    || (0x111d0 <= u && u <= 0x111d9)
    || (0x112f0 <= u && u <= 0x112f9)
    || (0x11450 <= u && u <= 0x11459)
    || (0x114d0 <= u && u <= 0x114d9)
    || (0x11650 <= u && u <= 0x11659)
    || (0x116c0 <= u && u <= 0x116c9)
    || (0x116d0 <= u && u <= 0x116e3)
    || (0x11730 <= u && u <= 0x11739)
}

/// Whether `u` is a decimal digit from U+10000 to U+117FF.
fn in_digit_block_high(u: u32) -> (b: bool)
    ensures
        b == digit_block_high(u),
{
    (0x104a0 <= u && u <= 0x104a9)
    || (0x10d30 <= u && u <= 0x10d39)
    || (0x10d40 <= u && u <= 0x10d49)
    || (0x11066 <= u && u <= 0x1106f)
    || (0x110f0 <= u && u <= 0x110f9)
    || (0x11136 <= u && u <= 0x1113f)
    || (0x111d0 <= u && u <= 0x111d9)
    || (0x112f0 <= u && u <= 0x112f9)
    || (0x11450 <= u && u <= 0x11459)
    || (0x114d0 <= u && u <= 0x114d9)
    || (0x11650 <= u && u <= 0x11659)
    || (0x116c0 <= u && u <= 0x116c9)
    || (0x116d0 <= u && u <= 0x116e3)
    || (0x11730 <= u && u <= 0x11739)
}

/// The decimal digit code points from U+11800 on.
pub open spec fn digit_block_top(u: u32) -> bool {
    (0x118e0 <= u && u <= 0x118e9)
    || (0x11950 <= u && u <= 0x11959)
    || (0x11bf0 <= u && u <= 0x11bf9)
    || (0x11c50 <= u && u <= 0x11c59)
    || (0x11d50 <= u && u <= 0x11d59)
    || (0x11da0 <= u && u <= 0x11da9)
    || (0x11f50 <= u && u <= 0x11f59)
    || (0x16130 <= u && u <= 0x16139)
    || (0x16a60 <= u && u <= 0x16a69)
    || (0x16ac0 <= u && u <= 0x16ac9)
    || (0x16b50 <= u && u <= 0x16b59)
    || (0x16d70 <= u && u <= 0x16d79)
    || (0x1ccf0 <= u && u <= 0x1ccf9)
    || (0x1d7ce <= u && u <= 0x1d7ff)
    || (0x1e140 <= u && u <= 0x1e149)
    || (0x1e2f0 <= u && u <= 0x1e2f9)
    || (0x1e4f0 <= u && u <= 0x1e4f9)
    || (0x1e5f1 <= u && u <= 0x1e5fa)
    || (0x1e950 <= u && u <= 0x1e959)
    || (0x1fbf0 <= u && u <= 0x1fbf9)
}

/// Whether `u` is a decimal digit from U+11800 on.
fn in_digit_block_top(u: u32) -> (b: bool)
    ensures
        b == digit_block_top(u),
{
    (0x118e0 <= u && u <= 0x118e9)
    || (0x11950 <= u && u <= 0x11959)
    || (0x11bf0 <= u && u <= 0x11bf9)
    || (0x11c50 <= u && u <= 0x11c59)
    || (0x11d50 <= u && u <= 0x11d59)
    || (0x11da0 <= u && u <= 0x11da9)
    || (0x11f50 <= u && u <= 0x11f59)
    || (0x16130 <= u && u <= 0x16139)
    || (0x16a60 <= u && u <= 0x16a69)
    || (0x16ac0 <= u && u <= 0x16ac9)
    || (0x16b50 <= u && u <= 0x16b59)
    || (0x16d70 <= u && u <= 0x16d79)
    || (0x1ccf0 <= u && u <= 0x1ccf9)
    || (0x1d7ce <= u && u <= 0x1d7ff)
    || (0x1e140 <= u && u <= 0x1e149)
    || (0x1e2f0 <= u && u <= 0x1e2f9)
    || (0x1e4f0 <= u && u <= 0x1e4f9)
    || (0x1e5f1 <= u && u <= 0x1e5fa)
    || (0x1e950 <= u && u <= 0x1e959)
    || (0x1fbf0 <= u && u <= 0x1fbf9)
}

/// A decimal digit in the sense of Unicode's general category `Nd`
/// (Unicode 16.0): the ASCII digits and the digits of other scripts.
pub open spec fn is_decimal_digit(c: char) -> bool {
    let u = c as u32;
    digit_block_low(u) || digit_block_mid(u) || digit_block_high(u) || digit_block_top(u)
}

/// Whether `c` is a decimal digit.
pub fn char_is_decimal_digit(c: char) -> (b: bool)
    ensures
        b == is_decimal_digit(c),
{
    let u: u32 = c as u32;
    in_digit_block_low(u) || in_digit_block_mid(u) || in_digit_block_high(u) || in_digit_block_top(
        u,
    )
}

/// One of the ten ASCII digits.
pub open spec fn is_ascii_digit(c: char) -> bool {
    0x30 <= c as u32 && c as u32 <= 0x39
}

/// The characters of `s`, in order.
pub fn chars_of(s: &str) -> (v: Vec<char>)
    ensures
        v@ == s@,
{
    let mut v: Vec<char> = Vec::new();
    for c in it: s.chars()
        invariant
            it.seq() == s@,
            v@ == it.seq().take(it.index()),
    {
        v.push(c);
    }
    v
}

/// The classes of characters that the scans below run over.
#[derive(Clone, Copy, Debug)]
pub enum CharClass {
    /// White space.
    Space,
    /// A decimal digit.
    Digit,
    /// Any character but a line feed.
    Inline,
    /// Any character but `@`.
    Name,
}

impl CharClass {
    /// Whether `c` belongs to the class.
    pub open spec fn has(self, c: char) -> bool {
        match self {
            CharClass::Space => is_space(c),
            CharClass::Digit => is_decimal_digit(c),
            CharClass::Inline => c != '\n',
            CharClass::Name => c != '@',
        }
    }

    /// Whether `c` belongs to the class.
    pub fn contains(self, c: char) -> (b: bool)
        ensures
            b == self.has(c),
    {
        match self {
            CharClass::Space => char_is_space(c),
            CharClass::Digit => char_is_decimal_digit(c),
            CharClass::Inline => c != '\n',
            CharClass::Name => c != '@',
        }
    }
}

/// Where the run of `class` characters that starts at `i` ends: the first
/// index at or after `i` whose character is outside the class, or the
/// length of `s`.
pub open spec fn run_end(s: Seq<char>, i: int, class: CharClass) -> int
    decreases s.len() - i,
{
    if 0 <= i < s.len() && class.has(s[i]) {
        run_end(s, i + 1, class)
    } else {
        i
    }
}

/// Where the run of `class` characters that ends before `j` starts.
pub open spec fn run_start(s: Seq<char>, j: int, class: CharClass) -> int
    decreases j,
{
    if 0 < j <= s.len() && class.has(s[j - 1]) {
        run_start(s, j - 1, class)
    } else {
        j
    }
}

/// `run_end` is the end of the longest run from `i`.
pub proof fn lemma_run_end(s: Seq<char>, i: int, class: CharClass)
    requires
        0 <= i <= s.len(),
    ensures
        i <= run_end(s, i, class) <= s.len(),
        forall|k: int| i <= k < run_end(s, i, class) ==> class.has(#[trigger] s[k]),
        run_end(s, i, class) < s.len() ==> !class.has(s[run_end(s, i, class)]),
    decreases s.len() - i,
{
    if i < s.len() && class.has(s[i]) {
        lemma_run_end(s, i + 1, class);
    }
}

/// A stretch of `class` characters that stops at a character outside the
/// class, or at the end, is the run from its start.
pub proof fn lemma_run_end_is(s: Seq<char>, i: int, e: int, class: CharClass)
    requires
        0 <= i <= e <= s.len(),
        forall|k: int| i <= k < e ==> class.has(#[trigger] s[k]),
        e < s.len() ==> !class.has(s[e]),
    ensures
        run_end(s, i, class) == e,
    decreases e - i,
{
    if i < e {
        lemma_run_end_is(s, i + 1, e, class);
    }
}

/// A run from `i` reaches at least as far as the class holds from `i`.
pub proof fn lemma_run_end_reaches(s: Seq<char>, i: int, e: int, class: CharClass)
    requires
        0 <= i <= e <= s.len(),
        forall|k: int| i <= k < e ==> class.has(#[trigger] s[k]),
    ensures
        run_end(s, i, class) >= e,
    decreases e - i,
{
    if i < e {
        assert(class.has(s[i]));
        lemma_run_end_reaches(s, i + 1, e, class);
    } else {
        lemma_run_end(s, i, class);
    }
}

/// A run from `i` stops at the latest at a character outside the class.
pub proof fn lemma_run_end_stops(s: Seq<char>, i: int, stop: int, class: CharClass)
    requires
        0 <= i <= stop < s.len(),
        !class.has(s[stop]),
    ensures
        i <= run_end(s, i, class) <= stop,
    decreases stop - i,
{
    if i < stop && class.has(s[i]) {
        lemma_run_end_stops(s, i + 1, stop, class);
    }
}

/// A stretch of `class` characters that starts after a character outside
/// the class, or at the start, is the run before its end.
pub proof fn lemma_run_start_is(s: Seq<char>, b: int, j: int, class: CharClass)
    requires
        0 <= b <= j <= s.len(),
        forall|k: int| b <= k < j ==> class.has(#[trigger] s[k]),
        b > 0 ==> !class.has(s[b - 1]),
    ensures
        run_start(s, j, class) == b,
    decreases j - b,
{
    if b < j {
        lemma_run_start_is(s, b, j - 1, class);
    }
}

/// `run_start` is the start of the longest run before `j`.
pub proof fn lemma_run_start(s: Seq<char>, j: int, class: CharClass)
    requires
        0 <= j <= s.len(),
    ensures
        0 <= run_start(s, j, class) <= j,
        forall|k: int| run_start(s, j, class) <= k < j ==> class.has(#[trigger] s[k]),
        run_start(s, j, class) > 0 ==> !class.has(s[run_start(s, j, class) - 1]),
    decreases j,
{
    if 0 < j && class.has(s[j - 1]) {
        lemma_run_start(s, j - 1, class);
    }
}

/// Finds where the run of `class` characters that starts at `i` ends.
pub fn scan_forward(s: &Vec<char>, i: usize, class: CharClass) -> (e: usize)
    requires
        i <= s.len(),
    ensures
        e == run_end(s@, i as int, class),
        i <= e <= s.len(),
{
    let mut e: usize = i;
    while e < s.len() && class.contains(s[e])
        invariant
            i <= e <= s.len(),
            forall|k: int| i <= k < e ==> class.has(#[trigger] s@[k]),
        decreases s.len() - e,
    {
        e = e + 1;
    }
    proof {
        lemma_run_end_is(s@, i as int, e as int, class);
    }
    e
}

/// Finds where the run of `class` characters that ends before `j` starts.
pub fn scan_backward(s: &Vec<char>, j: usize, class: CharClass) -> (b: usize)
    requires
        j <= s.len(),
    ensures
        b == run_start(s@, j as int, class),
        b <= j,
{
    let mut b: usize = j;
    while b > 0 && class.contains(s[b - 1])
        invariant
            b <= j <= s.len(),
            run_start(s@, j as int, class) == run_start(s@, b as int, class),
        decreases b,
    {
        b = b - 1;
    }
    b
}

/// The bounds of `s` without the white space at its two ends.
pub open spec fn trim_bounds(s: Seq<char>) -> (int, int) {
    let a = run_end(s, 0, CharClass::Space);
    if a == s.len() {
        (a, a)
    } else {
        (a, run_start(s, s.len() as int, CharClass::Space))
    }
}

/// `s` without the white space at its two ends.
pub open spec fn trimmed(s: Seq<char>) -> Seq<char> {
    s.subrange(trim_bounds(s).0, trim_bounds(s).1)
}

/// The bounds of a trimmed text lie in the text, in order.
pub proof fn lemma_trim_bounds(s: Seq<char>)
    ensures
        0 <= trim_bounds(s).0 <= trim_bounds(s).1 <= s.len(),
{
    let a = run_end(s, 0, CharClass::Space);
    lemma_run_end(s, 0, CharClass::Space);
    if a < s.len() {
        lemma_run_start(s, s.len() as int, CharClass::Space);
    }
}

/// `s` without the white space at its two ends.
pub fn trim<'a>(s: &'a str) -> (t: &'a str)
    ensures
        t@ == trimmed(s@),
{
    let chars = chars_of(s);
    let a = scan_forward(&chars, 0, CharClass::Space);
    let b = if a == chars.len() {
        a
    } else {
        scan_backward(&chars, chars.len(), CharClass::Space)
    };
    proof {
        lemma_trim_bounds(s@);
    }
    s.substring_char(a, b)
}

/// The bounds of the lines of `s` from index `i` on. A line ends at a line
/// feed, which is not part of it, nor is a carriage return just before
/// that line feed. The last line may end with the text.
pub open spec fn line_bounds(s: Seq<char>, i: int) -> Seq<(int, int)>
    decreases s.len() + 1 - i,
{
    if 0 <= i < s.len() {
        let e = run_end(s, i, CharClass::Inline);
        if i <= e <= s.len() {
            seq![(i, line_end(s, i, e))] + line_bounds(s, e + 1)
        } else {
            Seq::empty()
        }
    } else {
        Seq::empty()
    }
}

/// Where the line that starts at `i` and runs up to the index `e` ends.
pub open spec fn line_end(s: Seq<char>, i: int, e: int) -> int {
    if e < s.len() && i < e && s[e - 1] == '\r' {
        e - 1
    } else {
        e
    }
}

/// The lines of `s`.
pub open spec fn lines_of(s: Seq<char>) -> Seq<Seq<char>> {
    line_bounds(s, 0).map_values(|r: (int, int)| s.subrange(r.0, r.1))
}

/// Every line lies in the text, and the lines follow each other.
pub proof fn lemma_line_bounds(s: Seq<char>, i: int)
    requires
        0 <= i,
    ensures
        forall|k: int|
            0 <= k < line_bounds(s, i).len() ==> i <= (#[trigger] line_bounds(s, i)[k]).0
                <= line_bounds(s, i)[k].1 <= s.len(),
    decreases s.len() + 1 - i,
{
    if i < s.len() {
        let e = run_end(s, i, CharClass::Inline);
        lemma_run_end(s, i, CharClass::Inline);
        lemma_line_bounds(s, e + 1);
        let rest = line_bounds(s, e + 1);
        let all = line_bounds(s, i);
        assert(all == seq![(i, line_end(s, i, e))] + rest);
        assert forall|k: int| 0 <= k < all.len() implies i <= (#[trigger] all[k]).0 <= all[k].1
            <= s.len() by {
            if k > 0 {
                assert(all[k] == rest[k - 1]);
            }
        }
    }
}

/// The bounds of the lines of a text.
pub fn split_lines(s: &Vec<char>) -> (v: Vec<(usize, usize)>)
    ensures
        v@.len() == line_bounds(s@, 0).len(),
        forall|k: int|
            0 <= k < v@.len() ==> (#[trigger] v@[k]).0 == line_bounds(s@, 0)[k].0 && v@[k].1
                == line_bounds(s@, 0)[k].1,
        forall|k: int| 0 <= k < v@.len() ==> (#[trigger] v@[k]).0 <= v@[k].1 <= s.len(),
{
    let mut v: Vec<(usize, usize)> = Vec::new();
    let mut i: usize = 0;
    let ghost all = line_bounds(s@, 0);
    proof {
        lemma_line_bounds(s@, 0);
    }
    while i < s.len()
        invariant
            i <= s.len(),
            v@.len() <= all.len(),
            all == line_bounds(s@, 0),
            forall|k: int| 0 <= k < all.len() ==> 0 <= (#[trigger] all[k]).0 <= all[k].1 <= s.len(),
            forall|k: int|
                0 <= k < v@.len() ==> (#[trigger] v@[k]).0 == all[k].0 && v@[k].1 == all[k].1,
            all.skip(v@.len() as int) == line_bounds(s@, i as int),
        decreases s.len() - i,
    {
        let e = scan_forward(s, i, CharClass::Inline);
        let end: usize = if e < s.len() && i < e && s[e - 1] == '\r' {
            e - 1
        } else {
            e
        };
        proof {
            let rest = line_bounds(s@, i as int);
            assert(rest == seq![(i as int, end as int)] + line_bounds(s@, e + 1));
            assert(rest[0] == (i as int, end as int));
            assert(all.skip(v@.len() as int)[0] == all[v@.len() as int]);
            assert(all.skip(v@.len() as int + 1) == all.skip(v@.len() as int).skip(1));
            assert(rest.skip(1) == line_bounds(s@, e + 1));
        }
        v.push((i, end));
        i = if e < s.len() {
            e + 1
        } else {
            e
        };
    }
    proof {
        assert(line_bounds(s@, i as int).len() == 0);
        assert(all.skip(v@.len() as int).len() == 0);
    }
    v
}

/// The number that the ASCII digit `c` stands for.
pub open spec fn digit_value(c: char) -> nat {
    (c as u32 - 0x30) as nat
}

/// The number that a sequence of ASCII digits writes in base ten.
pub open spec fn decimal_value(d: Seq<char>) -> nat
    decreases d.len(),
{
    if d.len() == 0 {
        0
    } else {
        decimal_value(d.drop_last()) * 10 + digit_value(d.last())
    }
}

/// Whether every character of `d` is an ASCII digit.
pub open spec fn all_ascii_digits(d: Seq<char>) -> bool {
    forall|k: int| 0 <= k < d.len() ==> is_ascii_digit(#[trigger] d[k])
}

/// The value of a numeric field: the number that `d` writes, where `d` is
/// made of ASCII digits and the number fits 32 bits, and 0 otherwise.
pub open spec fn number_field(d: Seq<char>) -> u32 {
    if d.len() > 0 && all_ascii_digits(d) && decimal_value(d) <= u32::MAX {
        decimal_value(d) as u32
    } else {
        0
    }
}

/// A number is at least as large as the number that any of its leading
/// digits write.
pub proof fn lemma_decimal_value_grows(d: Seq<char>, k: int)
    requires
        0 <= k <= d.len(),
        all_ascii_digits(d),
    ensures
        decimal_value(d.take(k)) <= decimal_value(d),
    decreases d.len(),
{
    if k < d.len() {
        let front = d.drop_last();
        assert(front.take(k) == d.take(k));
        lemma_decimal_value_grows(front, k);
    } else {
        assert(d.take(k) == d);
    }
}

/// The value of the numeric field that `s` holds from `a` up to `b`.
pub fn parse_number(s: &Vec<char>, a: usize, b: usize) -> (n: u32)
    requires
        a <= b <= s.len(),
    ensures
        n == number_field(s@.subrange(a as int, b as int)),
{
    let ghost d = s@.subrange(a as int, b as int);
    let mut acc: u64 = 0;
    let mut i: usize = a;
    while i < b
        invariant
            a <= i <= b <= s.len(),
            d == s@.subrange(a as int, b as int),
            all_ascii_digits(d.take(i - a)),
            acc == decimal_value(d.take(i - a)),
            acc <= u32::MAX,
        decreases b - i,
    {
        let c = s[i];
        let u: u32 = c as u32;
        if !(0x30 <= u && u <= 0x39) {
            assert(!is_ascii_digit(d[i - a]));
            return 0;
        }
        let next: u64 = acc * 10 + (u - 0x30) as u64;
        proof {
            let longer = d.take(i - a + 1);
            assert(longer.drop_last() == d.take(i - a));
            assert(longer.last() == c);
            assert(next == decimal_value(longer));
            assert forall|k: int| 0 <= k < longer.len() implies is_ascii_digit(
                #[trigger] longer[k],
            ) by {
                if k < i - a {
                    assert(longer[k] == d.take(i - a)[k]);
                }
            }
            if next > u32::MAX && all_ascii_digits(d) {
                lemma_decimal_value_grows(d, i - a + 1);
            }
        }
        if next > 0xffff_ffff {
            return 0;
        }
        acc = next;
        i = i + 1;
    }
    proof {
        assert(d.take(b - a) == d);
    }
    acc as u32
}

/// A run in the back part of a text is the run in that part alone, moved
/// by the length of the front part.
pub proof fn lemma_run_end_of_back(front: Seq<char>, back: Seq<char>, i: int, class: CharClass)
    requires
        0 <= i <= back.len(),
    ensures
        run_end(front + back, front.len() + i, class) == front.len() + run_end(back, i, class),
    decreases back.len() - i,
{
    if i < back.len() {
        assert((front + back)[front.len() + i] == back[i]);
        if class.has(back[i]) {
            lemma_run_end_of_back(front, back, i + 1, class);
        }
    }
}

/// The bounds `r`, moved by `by`.
pub open spec fn moved(r: (int, int), by: int) -> (int, int) {
    (r.0 + by, r.1 + by)
}

/// The lines in the back part of a text are the lines of that part alone,
/// moved by the length of the front part.
pub proof fn lemma_line_bounds_of_back(front: Seq<char>, back: Seq<char>, i: int)
    requires
        0 <= i <= back.len(),
    ensures
        line_bounds(front + back, front.len() + i) == line_bounds(back, i).map_values(
            |r: (int, int)| moved(r, front.len() as int),
        ),
    decreases back.len() - i,
{
    let t = front + back;
    let by = front.len() as int;
    let shift = |r: (int, int)| moved(r, by);
    if i < back.len() {
        let e = run_end(back, i, CharClass::Inline);
        lemma_run_end(back, i, CharClass::Inline);
        lemma_run_end_of_back(front, back, i, CharClass::Inline);
        assert(run_end(t, by + i, CharClass::Inline) == by + e);
        if i < e {
            assert(t[by + e - 1] == back[e - 1]);
        }
        assert(line_end(t, by + i, by + e) == by + line_end(back, i, e));
        let rest_back = line_bounds(back, e + 1);
        let rest_whole = line_bounds(t, by + e + 1);
        if e < back.len() {
            lemma_line_bounds_of_back(front, back, e + 1);
        } else {
            assert(rest_back =~= Seq::<(int, int)>::empty());
            assert(rest_whole =~= Seq::<(int, int)>::empty());
        }
        assert(rest_whole =~= rest_back.map_values(shift));
        let head_back = seq![(i, line_end(back, i, e))];
        assert(line_bounds(back, i) == head_back + rest_back);
        assert(line_bounds(t, by + i) == seq![(by + i, by + line_end(back, i, e))] + rest_whole);
        assert(line_bounds(t, by + i) =~= (head_back + rest_back).map_values(shift));
    } else {
        assert(line_bounds(back, i) =~= Seq::<(int, int)>::empty());
        assert(line_bounds(t, by + i) =~= line_bounds(back, i).map_values(shift));
    }
}

/// A text that is a first line, a line feed and more has that first line,
/// and after it the lines of what follows the line feed. The first line
/// holds no line feed and does not end with a carriage return.
pub proof fn lemma_lines_after_the_first(first: Seq<char>, rest: Seq<char>)
    requires
        forall|k: int| 0 <= k < first.len() ==> #[trigger] first[k] != '\n',
        first.len() > 0 ==> first.last() != '\r',
    ensures
        lines_of(first + seq!['\n'] + rest) == seq![first] + lines_of(rest),
{
    let front = first + seq!['\n'];
    let t = front + rest;
    let by = front.len() as int;
    let n = first.len() as int;
    assert forall|k: int| 0 <= k < n implies CharClass::Inline.has(#[trigger] t[k]) by {
        assert(t[k] == first[k]);
    }
    assert(t[n] == '\n');
    lemma_run_end_is(t, 0, n, CharClass::Inline);
    if n > 0 {
        assert(t[n - 1] == first.last());
    }
    assert(line_end(t, 0, n) == n);
    lemma_line_bounds_of_back(front, rest, 0);
    let back_bounds = line_bounds(rest, 0);
    let shift = |r: (int, int)| moved(r, by);
    assert(line_bounds(t, 0) == seq![(0int, n)] + line_bounds(t, n + 1));
    assert(line_bounds(t, n + 1) == back_bounds.map_values(shift));
    lemma_line_bounds(rest, 0);
    let whole = lines_of(t);
    let wanted = seq![first] + lines_of(rest);
    assert(whole.len() == wanted.len());
    assert forall|k: int| 0 <= k < whole.len() implies whole[k] == wanted[k] by {
        if k == 0 {
            assert(line_bounds(t, 0)[0] == (0int, n));
            assert(t.subrange(0, n) =~= first);
        } else {
            let r = back_bounds[k - 1];
            assert(line_bounds(t, 0)[k] == back_bounds.map_values(shift)[k - 1]);
            assert(line_bounds(t, 0)[k] == moved(r, by));
            assert(t.subrange(r.0 + by, r.1 + by) =~= rest.subrange(r.0, r.1));
        }
    }
    assert(whole =~= wanted);
}


/// A text that is not empty and holds no line feed is one line.
pub proof fn lemma_one_line(s: Seq<char>)
    requires
        s.len() > 0,
        forall|k: int| 0 <= k < s.len() ==> #[trigger] s[k] != '\n',
    ensures
        lines_of(s) == seq![s],
{
    let n = s.len() as int;
    assert forall|k: int| 0 <= k < n implies CharClass::Inline.has(#[trigger] s[k]) by {
        assert(s[k] != '\n');
    }
    lemma_run_end_is(s, 0, n, CharClass::Inline);
    assert(line_bounds(s, n + 1) =~= Seq::<(int, int)>::empty());
    assert(line_bounds(s, 0) =~= seq![(0int, n)]);
    assert(s.subrange(0, n) =~= s);
    assert(lines_of(s) =~= seq![s]);
}

/// White space around a text that itself starts and ends with characters
/// that are no white space is trimmed away, and nothing else.
pub proof fn lemma_trimmed_of_padded(before: Seq<char>, core: Seq<char>, after: Seq<char>)
    requires
        forall|k: int| 0 <= k < before.len() ==> is_space(#[trigger] before[k]),
        forall|k: int| 0 <= k < after.len() ==> is_space(#[trigger] after[k]),
        core.len() > 0,
        !is_space(core[0]),
        !is_space(core.last()),
    ensures
        trimmed(before + core + after) == core,
{
    let t = before + core + after;
    let a = before.len() as int;
    let b = a + core.len();
    assert forall|k: int| 0 <= k < a implies CharClass::Space.has(#[trigger] t[k]) by {
        assert(t[k] == before[k]);
    }
    assert(t[a] == core[0]);
    lemma_run_end_is(t, 0, a, CharClass::Space);
    assert forall|k: int| b <= k < t.len() implies CharClass::Space.has(#[trigger] t[k]) by {
        assert(t[k] == after[k - b]);
    }
    assert(t[b - 1] == core.last());
    lemma_run_start_is(t, b, t.len() as int, CharClass::Space);
    assert(t.subrange(a, b) =~= core);
}


/// One digit more: the number that digits write with one more digit after
/// them is ten times their number and the digit.
pub proof fn lemma_decimal_value_of_more(digits: Seq<char>, digit: char)
    ensures
        decimal_value(digits.push(digit)) == decimal_value(digits) * 10 + digit_value(digit),
{
    assert(digits.push(digit).drop_last() =~= digits);
}

/// A number that does not fit 32 bits, or is not written in ASCII digits
/// alone, counts as 0.
pub proof fn number_that_cannot_be_read_is_zero(digits: Seq<char>)
    requires
        decimal_value(digits) > u32::MAX || !all_ascii_digits(digits) || digits.len() == 0,
    ensures
        number_field(digits) == 0,
{
}

} // verus!
