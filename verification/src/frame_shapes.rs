//! The shapes of a stack frame line.
//!
//! A frame line names a place in generated code as `URL:LINE:COL`, after an
//! optional function name. Four strict shapes cover a whole line:
//!
//! 1. `at NAME (URL:LINE:COL)`
//! 2. `at URL:LINE:COL`
//! 3. `[async ]NAME@URL:LINE:COL`
//! 4. `@URL:LINE:COL`
//!
//! and a looser one finds `at [NAME] (URL:LINE:COL)` or `at URL:LINE:COL`
//! anywhere in a line. Each shape is stated here as a spec function from
//! the text of a line to the bounds of its fields. Where a text can be cut
//! into fields in more than one way, the cut is chosen as a backtracking
//! matcher would choose it: white space after a keyword is taken as long as
//! possible, a name and a URL as short as possible, a run of digits whole.

use crate::text::{lemma_run_end, run_end, run_start, scan_backward, scan_forward, CharClass};
use vstd::prelude::*;

verus! {

/// The bounds of the fields of a frame in the text of its line. A field
/// runs from its first bound up to its second, which is not part of it.
pub struct FieldBounds {
    pub name: (int, int),
    pub url: (int, int),
    pub line: (int, int),
    pub column: (int, int),
}

/// The least index in `lo..hi` that satisfies `p`.
pub open spec fn least_in(lo: int, hi: int, p: spec_fn(int) -> bool) -> Option<int>
    decreases hi - lo,
{
    if lo >= hi {
        None
    } else if p(lo) {
        Some(lo)
    } else {
        least_in(lo + 1, hi, p)
    }
}

/// The greatest index in `lo..hi` that satisfies `p`.
pub open spec fn greatest_in(lo: int, hi: int, p: spec_fn(int) -> bool) -> Option<int>
    decreases hi - lo,
{
    if lo >= hi {
        None
    } else if p(hi - 1) {
        Some(hi - 1)
    } else {
        greatest_in(lo, hi - 1, p)
    }
}

/// Whether `t` holds the characters of `word` from index `i` on.
pub open spec fn has_word(t: Seq<char>, i: int, word: Seq<char>) -> bool {
    0 <= i && i + word.len() <= t.len() && t.subrange(i, i + word.len()) == word
}

/// The keyword `at`.
pub open spec fn word_at() -> Seq<char> {
    seq!['a', 't']
}

/// The keyword `async`.
pub open spec fn word_async() -> Seq<char> {
    seq!['a', 's', 'y', 'n', 'c']
}

/// Whether no line feed stands in `t` from `from` up to `to`.
pub open spec fn on_one_line(t: Seq<char>, from: int, to: int) -> bool {
    run_end(t, from, CharClass::Inline) >= to
}

/// `:LINE:COL` read backwards from `end`: the indices of the two colons,
/// where a run of digits ends at `end`, a colon stands before it, and a run
/// of digits and a colon before that.
pub open spec fn numbers_before(t: Seq<char>, end: int) -> Option<(int, int)> {
    let second = run_start(t, end, CharClass::Digit) - 1;
    let first = run_start(t, second, CharClass::Digit) - 1;
    if 0 <= end <= t.len() && second + 1 < end && 0 <= second && t[second] == ':' && first + 1
        < second && 0 <= first && t[first] == ':' {
        Some((first, second))
    } else {
        None
    }
}

/// `:LINE:COL` read forwards from the colon at `first`: the index of the
/// second colon and the index after the last digit.
pub open spec fn numbers_at(t: Seq<char>, first: int) -> Option<(int, int)> {
    let second = run_end(t, first + 1, CharClass::Digit);
    let end = run_end(t, second + 1, CharClass::Digit);
    if 0 <= first < t.len() && t[first] == ':' && first + 1 < second && second < t.len()
        && t[second] == ':' && second + 1 < end {
        Some((second, end))
    } else {
        None
    }
}

/// Whether a name that starts at `from` and ends at `to` opens a call: the
/// name is not empty and holds no line feed, white space may follow it,
/// then comes `(`, and after it a URL that is not empty and runs up to
/// `stop` on one line.
pub open spec fn call_opens(t: Seq<char>, from: int, to: int, stop: int) -> bool {
    let paren = run_end(t, to, CharClass::Space);
    &&& from < to <= t.len()
    &&& on_one_line(t, from, to)
    &&& paren < t.len()
    &&& t[paren] == '('
    &&& paren + 1 < stop
    &&& on_one_line(t, paren + 1, stop)
}

/// The end of the shortest name from `from` that opens a call whose URL
/// runs up to `stop`.
pub open spec fn call_name_end(t: Seq<char>, from: int, stop: int) -> Option<int> {
    least_in(from + 1, t.len() as int, |to: int| call_opens(t, from, to, stop))
}

/// Shape 1: `at NAME (URL:LINE:COL)`, the whole of `t`.
pub open spec fn shape_call(t: Seq<char>) -> Option<FieldBounds> {
    let close = t.len() - 1;
    let spaces = run_end(t, 2, CharClass::Space);
    if has_word(t, 0, word_at()) && 0 <= close && t[close] == ')' {
        match numbers_before(t, close) {
            Some((first, second)) => {
                match greatest_in(
                    3,
                    spaces + 1,
                    |from: int| call_name_end(t, from, first) is Some,
                ) {
                    Some(from) => {
                        let to = call_name_end(t, from, first)->0;
                        Some(
                            FieldBounds {
                                name: (from, to),
                                url: (run_end(t, to, CharClass::Space) + 1, first),
                                line: (first + 1, second),
                                column: (second + 1, close),
                            },
                        )
                    },
                    None => None,
                }
            },
            None => None,
        }
    } else {
        None
    }
}

/// Shape 2: `at URL:LINE:COL`, the whole of `t`.
pub open spec fn shape_bare(t: Seq<char>) -> Option<FieldBounds> {
    let spaces = run_end(t, 2, CharClass::Space);
    if has_word(t, 0, word_at()) {
        match numbers_before(t, t.len() as int) {
            Some((first, second)) => {
                match greatest_in(
                    3,
                    spaces + 1,
                    |from: int| from < first && on_one_line(t, from, first),
                ) {
                    Some(from) => Some(
                        FieldBounds {
                            name: (0, 0),
                            url: (from, first),
                            line: (first + 1, second),
                            column: (second + 1, t.len() as int),
                        },
                    ),
                    None => None,
                }
            },
            None => None,
        }
    } else {
        None
    }
}

/// Whether a name that starts at `from` runs up to an `@`, with a URL after
/// it that runs up to `stop` on one line.
pub open spec fn named_at(t: Seq<char>, from: int, stop: int) -> bool {
    let at = run_end(t, from, CharClass::Name);
    0 <= from < at && at + 1 < stop && on_one_line(t, at + 1, stop)
}

/// Shape 3: `NAME@URL:LINE:COL`, the whole of `t`, with `async` and white
/// space before the name where the text allows it.
pub open spec fn shape_named(t: Seq<char>) -> Option<FieldBounds> {
    let spaces = run_end(t, 5, CharClass::Space);
    match numbers_before(t, t.len() as int) {
        Some((first, second)) => {
            let after_async = if has_word(t, 0, word_async()) {
                greatest_in(6, spaces + 1, |from: int| named_at(t, from, first))
            } else {
                None
            };
            let start = if after_async is Some {
                after_async
            } else if named_at(t, 0, first) {
                Some(0int)
            } else {
                None
            };
            match start {
                Some(from) => Some(
                    FieldBounds {
                        name: (from, run_end(t, from, CharClass::Name)),
                        url: (run_end(t, from, CharClass::Name) + 1, first),
                        line: (first + 1, second),
                        column: (second + 1, t.len() as int),
                    },
                ),
                None => None,
            }
        },
        None => None,
    }
}

/// Shape 4: `@URL:LINE:COL`, the whole of `t`.
pub open spec fn shape_anonymous(t: Seq<char>) -> Option<FieldBounds> {
    match numbers_before(t, t.len() as int) {
        Some((first, second)) => {
            if t[0] == '@' && 1 < first && on_one_line(t, 1, first) {
                Some(
                    FieldBounds {
                        name: (0, 0),
                        url: (1, first),
                        line: (first + 1, second),
                        column: (second + 1, t.len() as int),
                    },
                )
            } else {
                None
            }
        },
        None => None,
    }
}

/// Whether a line is tried against the strict shapes at all: it starts
/// with `at` and a space, or it ends in `:LINE:COL` with an `@` and a
/// non-empty stretch of the same line before that.
pub open spec fn looks_like_frame(t: Seq<char>) -> bool {
    ||| has_word(t, 0, seq!['a', 't', ' '])
    ||| match numbers_before(t, t.len() as int) {
        Some((first, second)) => exists|at: int|
            0 <= at && at + 1 < first && #[trigger] t[at] == '@' && on_one_line(t, at + 1, first),
        None => false,
    }
}

/// The first of the four strict shapes that `t` has.
pub open spec fn strict_shape(t: Seq<char>) -> Option<FieldBounds> {
    if shape_call(t) is Some {
        shape_call(t)
    } else if shape_bare(t) is Some {
        shape_bare(t)
    } else if shape_named(t) is Some {
        shape_named(t)
    } else {
        shape_anonymous(t)
    }
}

/// Whether a URL that starts at `from` and ends at `to` is followed by
/// `:LINE:COL` and, where `closed`, by `)`.
pub open spec fn url_ends(t: Seq<char>, from: int, to: int, closed: bool) -> bool {
    &&& from < to
    &&& on_one_line(t, from, to)
    &&& match numbers_at(t, to) {
        Some((second, end)) => !closed || (end < t.len() && t[end] == ')'),
        None => false,
    }
}

/// The end of the shortest URL from `from` that `:LINE:COL` follows.
pub open spec fn url_end(t: Seq<char>, from: int, closed: bool) -> Option<int> {
    least_in(from + 1, t.len() as int, |to: int| url_ends(t, from, to, closed))
}

/// Whether a name from `from` up to `to` is followed, after white space,
/// by `(` and a URL with its numbers and `)`.
pub open spec fn loose_call_opens(t: Seq<char>, from: int, to: int) -> bool {
    let paren = run_end(t, to, CharClass::Space);
    &&& from <= to <= t.len()
    &&& on_one_line(t, from, to)
    &&& paren < t.len()
    &&& t[paren] == '('
    &&& url_end(t, paren + 1, true) is Some
}

/// The fields of a call whose name runs from `from` up to `to`.
pub open spec fn loose_call_fields(t: Seq<char>, from: int, to: int) -> FieldBounds {
    let open = run_end(t, to, CharClass::Space);
    let first = url_end(t, open + 1, true)->0;
    let numbers = numbers_at(t, first)->0;
    FieldBounds {
        name: (from, to),
        url: (open + 1, first),
        line: (first + 1, numbers.0),
        column: (numbers.0 + 1, numbers.1),
    }
}

/// The loose shape `at [NAME] (URL:LINE:COL)` from index `i` of `t` on. The
/// name is the shortest that fits, and is left out only where none fits.
pub open spec fn loose_call_at(t: Seq<char>, i: int) -> Option<FieldBounds> {
    let from = run_end(t, i + 2, CharClass::Space);
    if has_word(t, i, word_at()) && i + 2 < from {
        match least_in(from + 1, t.len() as int, |to: int| loose_call_opens(t, from, to)) {
            Some(to) => Some(loose_call_fields(t, from, to)),
            None => {
                if loose_call_opens(t, from, from) {
                    Some(loose_call_fields(t, from, from))
                } else {
                    None
                }
            },
        }
    } else {
        None
    }
}

/// The loose shape `at URL:LINE:COL` from index `i` of `t` on.
pub open spec fn loose_bare_at(t: Seq<char>, i: int) -> Option<FieldBounds> {
    let spaces = run_end(t, i + 2, CharClass::Space);
    if has_word(t, i, word_at()) {
        match greatest_in(i + 3, spaces + 1, |from: int| url_end(t, from, false) is Some) {
            Some(from) => {
                let first = url_end(t, from, false)->0;
                let numbers = numbers_at(t, first)->0;
                Some(
                    FieldBounds {
                        name: (0, 0),
                        url: (from, first),
                        line: (first + 1, numbers.0),
                        column: (numbers.0 + 1, numbers.1),
                    },
                )
            },
            None => None,
        }
    } else {
        None
    }
}

/// The loose shape from index `i` of `t` on: a call where there is one,
/// else a bare URL.
pub open spec fn loose_at(t: Seq<char>, i: int) -> Option<FieldBounds> {
    if loose_call_at(t, i) is Some {
        loose_call_at(t, i)
    } else {
        loose_bare_at(t, i)
    }
}

/// The loose shape at the first index of `t` that has it.
pub open spec fn loose_shape(t: Seq<char>) -> Option<FieldBounds> {
    match least_in(0, t.len() as int, |i: int| loose_at(t, i) is Some) {
        Some(i) => loose_at(t, i),
        None => None,
    }
}

/// How many colons `t` holds.
pub open spec fn colon_count(t: Seq<char>) -> nat
    decreases t.len(),
{
    if t.len() == 0 {
        0
    } else {
        colon_count(t.drop_last()) + if t.last() == ':' {
            1nat
        } else {
            0nat
        }
    }
}

/// The fields of the frame that the line `t` holds: none where `t` has
/// fewer than two colons; else those of the first strict shape that `t`
/// has, where it looks like a frame; else those of the loose shape.
pub open spec fn frame_fields(t: Seq<char>) -> Option<FieldBounds> {
    if colon_count(t) < 2 {
        None
    } else if looks_like_frame(t) && strict_shape(t) is Some {
        strict_shape(t)
    } else {
        loose_shape(t)
    }
}

/// The least index that satisfies `p` is the one that does and has none
/// before it that does.
pub proof fn lemma_least_in_found(lo: int, hi: int, p: spec_fn(int) -> bool, k: int)
    requires
        lo <= k < hi,
        p(k),
        forall|j: int| lo <= j < k ==> !#[trigger] p(j),
    ensures
        least_in(lo, hi, p) == Some(k),
    decreases k - lo,
{
    if lo < k {
        lemma_least_in_found(lo + 1, hi, p, k);
    }
}

/// No index is least where none satisfies `p`.
pub proof fn lemma_least_in_none(lo: int, hi: int, p: spec_fn(int) -> bool)
    requires
        forall|j: int| lo <= j < hi ==> !#[trigger] p(j),
    ensures
        least_in(lo, hi, p) is None,
    decreases hi - lo,
{
    if lo < hi {
        lemma_least_in_none(lo + 1, hi, p);
    }
}

/// What the least index is.
pub proof fn lemma_least_in(lo: int, hi: int, p: spec_fn(int) -> bool)
    ensures
        match least_in(lo, hi, p) {
            Some(k) => lo <= k < hi && p(k) && forall|j: int| lo <= j < k ==> !#[trigger] p(j),
            None => forall|j: int| lo <= j < hi ==> !#[trigger] p(j),
        },
    decreases hi - lo,
{
    if lo < hi && !p(lo) {
        lemma_least_in(lo + 1, hi, p);
    }
}

/// The greatest index that satisfies `p` is the one that does and has none
/// after it that does.
pub proof fn lemma_greatest_in_found(lo: int, hi: int, p: spec_fn(int) -> bool, k: int)
    requires
        lo <= k < hi,
        p(k),
        forall|j: int| k < j < hi ==> !#[trigger] p(j),
    ensures
        greatest_in(lo, hi, p) == Some(k),
    decreases hi - k,
{
    if k < hi - 1 {
        lemma_greatest_in_found(lo, hi - 1, p, k);
    }
}

/// No index is greatest where none satisfies `p`.
pub proof fn lemma_greatest_in_none(lo: int, hi: int, p: spec_fn(int) -> bool)
    requires
        forall|j: int| lo <= j < hi ==> !#[trigger] p(j),
    ensures
        greatest_in(lo, hi, p) is None,
    decreases hi - lo,
{
    if lo < hi {
        lemma_greatest_in_none(lo, hi - 1, p);
    }
}

/// What the greatest index is.
pub proof fn lemma_greatest_in(lo: int, hi: int, p: spec_fn(int) -> bool)
    ensures
        match greatest_in(lo, hi, p) {
            Some(k) => lo <= k < hi && p(k) && forall|j: int| k < j < hi ==> !#[trigger] p(j),
            None => forall|j: int| lo <= j < hi ==> !#[trigger] p(j),
        },
    decreases hi - lo,
{
    if lo < hi && !p(hi - 1) {
        lemma_greatest_in(lo, hi - 1, p);
    }
}

/// The bounds of the fields of a frame, as indices into the characters of
/// its line.
#[derive(Clone, Copy, Debug)]
pub struct Fields {
    pub name: (usize, usize),
    pub url: (usize, usize),
    pub line: (usize, usize),
    pub column: (usize, usize),
}

impl View for Fields {
    type V = FieldBounds;

    open spec fn view(&self) -> FieldBounds {
        FieldBounds {
            name: (self.name.0 as int, self.name.1 as int),
            url: (self.url.0 as int, self.url.1 as int),
            line: (self.line.0 as int, self.line.1 as int),
            column: (self.column.0 as int, self.column.1 as int),
        }
    }
}

/// Whether `found` holds the bounds `wanted`, or both hold none.
pub open spec fn same_fields(found: Option<Fields>, wanted: Option<FieldBounds>) -> bool {
    match found {
        Some(f) => wanted == Some(f@),
        None => wanted is None,
    }
}

/// Whether `found` holds the pair `wanted`, or both hold none.
pub open spec fn same_pair(found: Option<(usize, usize)>, wanted: Option<(int, int)>) -> bool {
    match found {
        Some(f) => wanted == Some((f.0 as int, f.1 as int)),
        None => wanted is None,
    }
}

/// Whether `found` holds the index `wanted`, or both hold none.
pub open spec fn same_index(found: Option<usize>, wanted: Option<int>) -> bool {
    match found {
        Some(f) => wanted == Some(f as int),
        None => wanted is None,
    }
}

/// Finds `:LINE:COL` backwards from `end`: the indices of the two colons.
pub fn find_numbers_before(t: &Vec<char>, end: usize) -> (r: Option<(usize, usize)>)
    requires
        end <= t.len(),
    ensures
        same_pair(r, numbers_before(t@, end as int)),
        r matches Some(p) ==> p.0 + 1 < p.1 && p.1 + 1 < end,
{
    let digits = scan_backward(t, end, CharClass::Digit);
    if digits == end || digits == 0 || t[digits - 1] != ':' {
        return None;
    }
    let second: usize = digits - 1;
    let digits = scan_backward(t, second, CharClass::Digit);
    if digits == second || digits == 0 || t[digits - 1] != ':' {
        return None;
    }
    Some((digits - 1, second))
}

/// Finds `:LINE:COL` forwards from the colon at `first`: the index of the
/// second colon and the index after the last digit.
pub fn find_numbers_at(t: &Vec<char>, first: usize) -> (r: Option<(usize, usize)>)
    requires
        first <= t.len(),
    ensures
        same_pair(r, numbers_at(t@, first as int)),
        r matches Some(p) ==> first + 1 < p.0 && p.0 + 1 < p.1 <= t.len(),
{
    if first >= t.len() || t[first] != ':' {
        return None;
    }
    let second = scan_forward(t, first + 1, CharClass::Digit);
    if second == first + 1 || second >= t.len() || t[second] != ':' {
        return None;
    }
    let end = scan_forward(t, second + 1, CharClass::Digit);
    if end == second + 1 {
        return None;
    }
    Some((second, end))
}

/// Whether `at` stands in `t` at index `i`.
pub fn has_at(t: &Vec<char>, i: usize) -> (b: bool)
    requires
        i <= t.len(),
    ensures
        b == has_word(t@, i as int, word_at()),
{
    if t.len() - i < 2 {
        return false;
    }
    let b = t[i] == 'a' && t[i + 1] == 't';
    proof {
        let w = t@.subrange(i as int, i + 2);
        assert(w[0] == t@[i as int] && w[1] == t@[i + 1]);
        if b {
            assert(w =~= word_at());
        }
    }
    b
}

/// Whether no line feed stands in `t` from `from` up to `to`.
pub fn is_on_one_line(t: &Vec<char>, from: usize, to: usize) -> (b: bool)
    requires
        from <= t.len(),
    ensures
        b == on_one_line(t@, from as int, to as int),
{
    scan_forward(t, from, CharClass::Inline) >= to
}

/// Finds the end of the shortest name from `from` that opens a call whose
/// URL runs up to `stop`.
#[verifier::loop_isolation(false)]
pub fn find_call_name_end(t: &Vec<char>, from: usize, stop: usize) -> (r: Option<usize>)
    requires
        from <= t.len(),
        stop <= t.len(),
    ensures
        same_index(r, call_name_end(t@, from as int, stop as int)),
        r matches Some(to) ==> call_opens(t@, from as int, to as int, stop as int),
{
    let ghost p = |to: int| call_opens(t@, from as int, to, stop as int);
    let line_end = scan_forward(t, from, CharClass::Inline);
    let mut to: usize = from;
    while to < t.len() && to < line_end
        invariant
            from <= to <= t.len(),
            forall|j: int| from + 1 <= j <= to ==> !#[trigger] p(j),
        decreases t.len() - to,
    {
        to = to + 1;
        let paren = scan_forward(t, to, CharClass::Space);
        if paren < t.len() && t[paren] == '(' && paren + 1 < stop && is_on_one_line(t, paren + 1, stop) {
            proof {
                assert(p(to as int));
                lemma_least_in_found(from + 1, t@.len() as int, p, to as int);
            }
            return Some(to);
        }
    }
    proof {
        assert forall|j: int| from + 1 <= j < t@.len() implies !#[trigger] p(j) by {
            if j > to {
                assert(!on_one_line(t@, from as int, j));
            }
        }
        lemma_least_in_none(from + 1, t@.len() as int, p);
    }
    None
}

impl FieldBounds {
    /// Whether every field lies in a text of `len` characters.
    pub open spec fn within(self, len: int) -> bool {
        &&& 0 <= self.name.0 <= self.name.1 <= len
        &&& 0 <= self.url.0 <= self.url.1 <= len
        &&& 0 <= self.line.0 <= self.line.1 <= len
        &&& 0 <= self.column.0 <= self.column.1 <= len
    }
}

/// Matches shape 1, `at NAME (URL:LINE:COL)`.
#[verifier::loop_isolation(false)]
pub fn match_call(t: &Vec<char>) -> (r: Option<Fields>)
    ensures
        same_fields(r, shape_call(t@)),
        r matches Some(f) ==> f@.within(t@.len() as int),
{
    if !has_at(t, 0) {
        return None;
    }
    let close: usize = t.len() - 1;
    if t[close] != ')' {
        return None;
    }
    let (first, second) = match find_numbers_before(t, close) {
        Some(pair) => pair,
        None => { return None; },
    };
    let spaces = scan_forward(t, 2, CharClass::Space);
    let ghost p = |from: int| call_name_end(t@, from, first as int) is Some;
    let mut from: usize = spaces;
    while from >= 3
        invariant
            2 <= from <= spaces,
            forall|j: int| from < j <= spaces ==> !#[trigger] p(j),
        decreases from,
    {
        match find_call_name_end(t, from, first) {
            Some(to) => {
                let paren = scan_forward(t, to, CharClass::Space);
                proof {
                    assert(p(from as int));
                    lemma_greatest_in_found(3, spaces + 1, p, from as int);
                }
                return Some(
                    Fields {
                        name: (from, to),
                        url: (paren + 1, first),
                        line: (first + 1, second),
                        column: (second + 1, close),
                    },
                );
            },
            None => {
                assert(!p(from as int));
            },
        }
        from = from - 1;
    }
    proof {
        lemma_greatest_in_none(3, spaces + 1, p);
    }
    None
}

/// Matches shape 2, `at URL:LINE:COL`.
#[verifier::loop_isolation(false)]
pub fn match_bare(t: &Vec<char>) -> (r: Option<Fields>)
    ensures
        same_fields(r, shape_bare(t@)),
        r matches Some(f) ==> f@.within(t@.len() as int),
{
    if !has_at(t, 0) {
        return None;
    }
    let (first, second) = match find_numbers_before(t, t.len()) {
        Some(pair) => pair,
        None => { return None; },
    };
    let spaces = scan_forward(t, 2, CharClass::Space);
    let ghost p = |from: int| from < first && on_one_line(t@, from, first as int);
    let mut from: usize = spaces;
    while from >= 3
        invariant
            2 <= from <= spaces,
            forall|j: int| from < j <= spaces ==> !#[trigger] p(j),
        decreases from,
    {
        if from < first && is_on_one_line(t, from, first) {
            proof {
                assert(p(from as int));
                lemma_greatest_in_found(3, spaces + 1, p, from as int);
            }
            return Some(
                Fields {
                    name: (0, 0),
                    url: (from, first),
                    line: (first + 1, second),
                    column: (second + 1, t.len()),
                },
            );
        }
        assert(!p(from as int));
        from = from - 1;
    }
    proof {
        lemma_greatest_in_none(3, spaces + 1, p);
    }
    None
}

/// Whether `async` stands at the start of `t`.
pub fn has_async(t: &Vec<char>) -> (b: bool)
    ensures
        b == has_word(t@, 0, word_async()),
{
    if t.len() < 5 {
        return false;
    }
    let b = t[0] == 'a' && t[1] == 's' && t[2] == 'y' && t[3] == 'n' && t[4] == 'c';
    proof {
        let w = t@.subrange(0, 5);
        assert(w[0] == t@[0] && w[1] == t@[1] && w[2] == t@[2] && w[3] == t@[3] && w[4] == t@[4]);
        if b {
            assert(w =~= word_async());
        }
    }
    b
}

/// Whether a name that starts at `from` runs up to an `@`, with a URL after
/// it that runs up to `stop` on one line.
pub fn is_named_at(t: &Vec<char>, from: usize, stop: usize) -> (b: bool)
    requires
        from <= t.len(),
        stop <= t.len(),
    ensures
        b == named_at(t@, from as int, stop as int),
{
    let at = scan_forward(t, from, CharClass::Name);
    from < at && at < stop && at + 1 < stop && is_on_one_line(t, at + 1, stop)
}

/// Where the name of shape 3 starts in a text that begins with `async`.
#[verifier::loop_isolation(false)]
pub fn find_name_after_async(t: &Vec<char>, stop: usize) -> (r: Option<usize>)
    requires
        stop <= t.len(),
    ensures
        same_index(
            r,
            greatest_in(
                6,
                run_end(t@, 5, CharClass::Space) + 1,
                |from: int| named_at(t@, from, stop as int),
            ),
        ),
        r matches Some(from) ==> named_at(t@, from as int, stop as int),
{
    if t.len() < 5 {
        proof {
            lemma_greatest_in_none(
                6,
                run_end(t@, 5, CharClass::Space) + 1,
                |from: int| named_at(t@, from, stop as int),
            );
        }
        return None;
    }
    let spaces = scan_forward(t, 5, CharClass::Space);
    let ghost p = |from: int| named_at(t@, from, stop as int);
    let mut from: usize = spaces;
    while from >= 6
        invariant
            5 <= from <= spaces,
            forall|j: int| from < j <= spaces ==> !#[trigger] p(j),
        decreases from,
    {
        if is_named_at(t, from, stop) {
            proof {
                assert(p(from as int));
                lemma_greatest_in_found(6, spaces + 1, p, from as int);
            }
            return Some(from);
        }
        assert(!p(from as int));
        from = from - 1;
    }
    proof {
        lemma_greatest_in_none(6, spaces + 1, p);
    }
    None
}

/// Matches shape 3, `[async ]NAME@URL:LINE:COL`.
pub fn match_named(t: &Vec<char>) -> (r: Option<Fields>)
    ensures
        same_fields(r, shape_named(t@)),
        r matches Some(f) ==> f@.within(t@.len() as int),
{
    let (first, second) = match find_numbers_before(t, t.len()) {
        Some(pair) => pair,
        None => { return None; },
    };
    let after_async = if has_async(t) {
        find_name_after_async(t, first)
    } else {
        None
    };
    let start = if after_async.is_some() {
        after_async
    } else if is_named_at(t, 0, first) {
        Some(0)
    } else {
        None
    };
    match start {
        Some(from) => {
            let at = scan_forward(t, from, CharClass::Name);
            Some(
                Fields {
                    name: (from, at),
                    url: (at + 1, first),
                    line: (first + 1, second),
                    column: (second + 1, t.len()),
                },
            )
        },
        None => None,
    }
}

/// Matches shape 4, `@URL:LINE:COL`.
pub fn match_anonymous(t: &Vec<char>) -> (r: Option<Fields>)
    ensures
        same_fields(r, shape_anonymous(t@)),
        r matches Some(f) ==> f@.within(t@.len() as int),
{
    let (first, second) = match find_numbers_before(t, t.len()) {
        Some(pair) => pair,
        None => { return None; },
    };
    if t[0] == '@' && 1 < first && is_on_one_line(t, 1, first) {
        Some(
            Fields {
                name: (0, 0),
                url: (1, first),
                line: (first + 1, second),
                column: (second + 1, t.len()),
            },
        )
    } else {
        None
    }
}

/// The first of the four strict shapes that `t` has.
pub fn match_strict(t: &Vec<char>) -> (r: Option<Fields>)
    ensures
        same_fields(r, strict_shape(t@)),
        r matches Some(f) ==> f@.within(t@.len() as int),
{
    let call = match_call(t);
    if call.is_some() {
        return call;
    }
    let bare = match_bare(t);
    if bare.is_some() {
        return bare;
    }
    let named = match_named(t);
    if named.is_some() {
        return named;
    }
    match_anonymous(t)
}

/// Whether a line is tried against the strict shapes at all.
#[verifier::loop_isolation(false)]
pub fn check_looks_like_frame(t: &Vec<char>) -> (b: bool)
    ensures
        b == looks_like_frame(t@),
{
    if t.len() >= 3 && t[0] == 'a' && t[1] == 't' && t[2] == ' ' {
        proof {
            assert(t@.subrange(0, 3) =~= seq!['a', 't', ' ']);
        }
        return true;
    }
    proof {
        if t.len() >= 3 {
            let w = t@.subrange(0, 3);
            assert(w[0] == t@[0] && w[1] == t@[1] && w[2] == t@[2]);
        }
    }
    let (first, second) = match find_numbers_before(t, t.len()) {
        Some(pair) => pair,
        None => { return false; },
    };
    let mut at: usize = 0;
    while at + 1 < first
        invariant
            at <= first,
            forall|j: int|
                0 <= j < at ==> !(#[trigger] t@[j] == '@' && on_one_line(t@, j + 1, first as int)),
        decreases first - at,
    {
        if t[at] == '@' && is_on_one_line(t, at + 1, first) {
            return true;
        }
        at = at + 1;
    }
    false
}

/// Finds the end of the shortest URL from `from` that `:LINE:COL` follows
/// and, where `closed`, `)` after that. Returns the index of the first
/// colon, that of the second, and the index after the last digit.
#[verifier::loop_isolation(false)]
pub fn find_url_end(t: &Vec<char>, from: usize, closed: bool) -> (r: Option<(usize, usize, usize)>)
    requires
        from <= t.len(),
    ensures
        match r {
            Some((to, second, end)) => url_end(t@, from as int, closed) == Some(to as int)
                && numbers_at(t@, to as int) == Some((second as int, end as int)) && from < to
                && to + 1 < second && second + 1 < end <= t.len(),
            None => url_end(t@, from as int, closed) is None,
        },
{
    let ghost p = |to: int| url_ends(t@, from as int, to, closed);
    let line_end = scan_forward(t, from, CharClass::Inline);
    let mut to: usize = from;
    while to < t.len() && to < line_end
        invariant
            from <= to <= t.len(),
            forall|j: int| from + 1 <= j <= to ==> !#[trigger] p(j),
        decreases t.len() - to,
    {
        to = to + 1;
        match find_numbers_at(t, to) {
            Some((second, end)) => {
                if !closed || (end < t.len() && t[end] == ')') {
                    proof {
                        assert(p(to as int));
                        lemma_least_in_found(from + 1, t@.len() as int, p, to as int);
                    }
                    return Some((to, second, end));
                }
            },
            None => {},
        }
    }
    proof {
        assert forall|j: int| from + 1 <= j < t@.len() implies !#[trigger] p(j) by {
            if j > to {
                assert(!on_one_line(t@, from as int, j));
            }
        }
        lemma_least_in_none(from + 1, t@.len() as int, p);
    }
    None
}

/// The fields of a loose call whose name runs from `from` up to `to`.
fn loose_call_from(t: &Vec<char>, from: usize, to: usize) -> (r: Option<Fields>)
    requires
        from <= to <= t.len(),
        on_one_line(t@, from as int, to as int),
    ensures
        r is Some == loose_call_opens(t@, from as int, to as int),
        r matches Some(f) ==> f@ == loose_call_fields(t@, from as int, to as int) && f@.within(
            t@.len() as int,
        ),
{
    let paren = scan_forward(t, to, CharClass::Space);
    if paren >= t.len() || t[paren] != '(' {
        return None;
    }
    match find_url_end(t, paren + 1, true) {
        Some((first, second, end)) => Some(
            Fields {
                name: (from, to),
                url: (paren + 1, first),
                line: (first + 1, second),
                column: (second + 1, end),
            },
        ),
        None => None,
    }
}

/// Matches the loose shape `at [NAME] (URL:LINE:COL)` from index `i` on.
#[verifier::loop_isolation(false)]
pub fn match_loose_call_at(t: &Vec<char>, i: usize) -> (r: Option<Fields>)
    requires
        i <= t.len(),
    ensures
        same_fields(r, loose_call_at(t@, i as int)),
        r matches Some(f) ==> f@.within(t@.len() as int),
{
    if !has_at(t, i) {
        return None;
    }
    let from = scan_forward(t, i + 2, CharClass::Space);
    if from == i + 2 {
        return None;
    }
    let ghost p = |to: int| loose_call_opens(t@, from as int, to);
    let line_end = scan_forward(t, from, CharClass::Inline);
    let mut to: usize = from;
    while to < t.len() && to < line_end
        invariant
            from <= to <= t.len(),
            forall|j: int| from + 1 <= j <= to ==> !#[trigger] p(j),
        decreases t.len() - to,
    {
        to = to + 1;
        let found = loose_call_from(t, from, to);
        if found.is_some() {
            proof {
                assert(p(to as int));
                assert(to < t@.len()) by {
                    lemma_run_end(t@, to as int, CharClass::Space);
                }
                lemma_least_in_found(from + 1, t@.len() as int, p, to as int);
            }
            return found;
        }
        assert(!p(to as int));
    }
    proof {
        assert forall|j: int| from + 1 <= j < t@.len() implies !#[trigger] p(j) by {
            if j > to {
                assert(!on_one_line(t@, from as int, j));
            }
        }
        lemma_least_in_none(from + 1, t@.len() as int, p);
    }
    loose_call_from(t, from, from)
}

/// Matches the loose shape `at URL:LINE:COL` from index `i` on.
#[verifier::loop_isolation(false)]
pub fn match_loose_bare_at(t: &Vec<char>, i: usize) -> (r: Option<Fields>)
    requires
        i <= t.len(),
    ensures
        same_fields(r, loose_bare_at(t@, i as int)),
        r matches Some(f) ==> f@.within(t@.len() as int),
{
    if !has_at(t, i) {
        return None;
    }
    let spaces = scan_forward(t, i + 2, CharClass::Space);
    let ghost p = |from: int| url_end(t@, from, false) is Some;
    let mut from: usize = spaces;
    while from > i + 2
        invariant
            i + 2 <= from <= spaces,
            forall|j: int| from < j <= spaces ==> !#[trigger] p(j),
        decreases from,
    {
        match find_url_end(t, from, false) {
            Some((first, second, end)) => {
                proof {
                    assert(p(from as int));
                    lemma_greatest_in_found(i + 3, spaces + 1, p, from as int);
                }
                return Some(
                    Fields {
                        name: (0, 0),
                        url: (from, first),
                        line: (first + 1, second),
                        column: (second + 1, end),
                    },
                );
            },
            None => {
                assert(!p(from as int));
            },
        }
        from = from - 1;
    }
    proof {
        lemma_greatest_in_none(i + 3, spaces + 1, p);
    }
    None
}

/// Whether `:LINE:COL` stands anywhere in `t`.
pub open spec fn holds_numbers(t: Seq<char>) -> bool {
    exists|first: int| 0 <= first < t.len() && #[trigger] numbers_at(t, first) is Some
}

/// Whether `:LINE:COL` stands anywhere in `t`.
pub fn check_holds_numbers(t: &Vec<char>) -> (b: bool)
    ensures
        b == holds_numbers(t@),
{
    let mut first: usize = 0;
    while first < t.len()
        invariant
            first <= t.len(),
            forall|j: int| 0 <= j < first ==> #[trigger] numbers_at(t@, j) is None,
        decreases t.len() - first,
    {
        if find_numbers_at(t, first).is_some() {
            return true;
        }
        first = first + 1;
    }
    false
}

/// No URL ends in a text that holds no `:LINE:COL`.
pub proof fn lemma_no_numbers_no_url(t: Seq<char>, from: int, closed: bool)
    requires
        !holds_numbers(t),
        0 <= from,
    ensures
        url_end(t, from, closed) is None,
{
    let ends = |to: int| url_ends(t, from, to, closed);
    assert forall|to: int| from + 1 <= to < t.len() implies !#[trigger] ends(to) by {
        assert(numbers_at(t, to) is None);
    }
    lemma_least_in_none(from + 1, t.len() as int, ends);
}

/// A text that holds no `:LINE:COL` has the loose shape nowhere.
pub proof fn lemma_no_numbers_no_loose_shape(t: Seq<char>)
    requires
        !holds_numbers(t),
    ensures
        loose_shape(t) is None,
{
    let found = |i: int| loose_at(t, i) is Some;
    assert forall|i: int| 0 <= i < t.len() implies !#[trigger] found(i) by {
        if has_word(t, i, word_at()) {
            let from = run_end(t, i + 2, CharClass::Space);
            lemma_run_end(t, i + 2, CharClass::Space);
            let opens = |to: int| loose_call_opens(t, from, to);
            assert forall|to: int| from <= to < t.len() implies !#[trigger] opens(to) by {
                let paren = run_end(t, to, CharClass::Space);
                lemma_run_end(t, to, CharClass::Space);
                lemma_no_numbers_no_url(t, paren + 1, true);
            }
            lemma_least_in_none(from + 1, t.len() as int, opens);
            if from < t.len() {
                assert(!opens(from));
            }
            assert(loose_call_at(t, i) is None);
            let starts = |from: int| url_end(t, from, false) is Some;
            assert forall|k: int| i + 3 <= k < from + 1 implies !#[trigger] starts(k) by {
                lemma_no_numbers_no_url(t, k, false);
            }
            lemma_greatest_in_none(i + 3, from + 1, starts);
            assert(loose_bare_at(t, i) is None);
        }
    }
    lemma_least_in_none(0, t.len() as int, found);
}

/// The loose shape at the first index of `t` that has it. A text that
/// holds no `:LINE:COL` at all is not searched.
pub fn match_loose(t: &Vec<char>) -> (r: Option<Fields>)
    ensures
        same_fields(r, loose_shape(t@)),
        r matches Some(f) ==> f@.within(t@.len() as int),
{
    if !check_holds_numbers(t) {
        proof {
            lemma_no_numbers_no_loose_shape(t@);
        }
        return None;
    }
    let ghost p = |i: int| loose_at(t@, i) is Some;
    let mut i: usize = 0;
    while i < t.len()
        invariant
            i <= t.len(),
            p == (|i: int| loose_at(t@, i) is Some),
            forall|j: int| 0 <= j < i ==> !#[trigger] p(j),
        decreases t.len() - i,
    {
        let call = match_loose_call_at(t, i);
        if call.is_some() {
            proof {
                assert(p(i as int));
                lemma_least_in_found(0, t@.len() as int, p, i as int);
            }
            return call;
        }
        let bare = match_loose_bare_at(t, i);
        if bare.is_some() {
            proof {
                assert(p(i as int));
                lemma_least_in_found(0, t@.len() as int, p, i as int);
            }
            return bare;
        }
        assert(!p(i as int));
        i = i + 1;
    }
    proof {
        lemma_least_in_none(0, t@.len() as int, p);
    }
    None
}

/// Whether `t` holds two colons or more.
pub fn has_two_colons(t: &Vec<char>) -> (b: bool)
    ensures
        b == (colon_count(t@) >= 2),
{
    let mut count: usize = 0;
    let mut i: usize = 0;
    while i < t.len()
        invariant
            i <= t.len(),
            count == colon_count(t@.take(i as int)),
            count <= i,
        decreases t.len() - i,
    {
        proof {
            assert(t@.take(i + 1).drop_last() == t@.take(i as int));
        }
        if t[i] == ':' {
            count = count + 1;
        }
        i = i + 1;
    }
    proof {
        assert(t@.take(i as int) == t@);
    }
    count >= 2
}

/// The fields of the frame that the line `t` holds.
pub fn match_frame(t: &Vec<char>) -> (r: Option<Fields>)
    ensures
        same_fields(r, frame_fields(t@)),
        r matches Some(f) ==> f@.within(t@.len() as int),
{
    if !has_two_colons(t) {
        return None;
    }
    if check_looks_like_frame(t) {
        let strict = match_strict(t);
        if strict.is_some() {
            return strict;
        }
    }
    match_loose(t)
}

} // verus!
