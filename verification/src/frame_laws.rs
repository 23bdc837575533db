//! What the grammar of frame lines promises: a line written in one of the
//! four strict shapes is read back field by field.

use crate::frame_shapes::{
    call_name_end, call_opens, colon_count, frame_fields, has_word, lemma_greatest_in,
    lemma_greatest_in_found, lemma_least_in, lemma_least_in_found, looks_like_frame, loose_at,
    loose_bare_at, loose_call_at, loose_call_opens, named_at, numbers_at,
    numbers_before, on_one_line, shape_anonymous, shape_bare, shape_call, shape_named,
    strict_shape, url_end, url_ends, word_async, word_at, FieldBounds,
};
use crate::stack_transform::{
    block_is_message_and_trace, first_line, frames_of, frames_of_line, later_lines, parse_line,
    FrameView,
};
use crate::text::{
    all_ascii_digits, is_ascii_digit, is_decimal_digit, is_space, lemma_one_line, lemma_run_end,
    lemma_run_end_is, lemma_run_end_reaches, lemma_run_end_stops, lemma_run_start,
    lemma_run_start_is, lemma_trimmed_of_padded, lines_of, number_field, run_end, trimmed,
    CharClass,
};
use vstd::prelude::*;

verus! {

/// A text that starts and ends with characters that are no white space is
/// its own trimmed text.
pub proof fn lemma_trimmed_already(t: Seq<char>)
    requires
        t.len() > 0,
        !is_space(t[0]),
        !is_space(t.last()),
    ensures
        trimmed(t) == t,
{
    lemma_run_end_is(t, 0, 0, CharClass::Space);
    lemma_run_start_is(t, t.len() as int, t.len() as int, CharClass::Space);
    assert(t.subrange(0, t.len() as int) =~= t);
}

/// A text with a colon at `i` has at least one colon more than its part
/// before `i`.
pub proof fn lemma_colons_upto(t: Seq<char>, i: int)
    requires
        0 <= i <= t.len(),
    ensures
        colon_count(t.take(i)) <= colon_count(t),
        i < t.len() && t[i] == ':' ==> colon_count(t.take(i)) < colon_count(t),
    decreases t.len() - i,
{
    if i < t.len() {
        let front = t.drop_last();
        if i < front.len() {
            assert(front.take(i) == t.take(i));
            lemma_colons_upto(front, i);
        } else {
            assert(t.take(i) == front);
        }
    } else {
        assert(t.take(i) == t);
    }
}

/// A text with colons at two indices has two colons or more.
pub proof fn lemma_two_colons(t: Seq<char>, i: int, j: int)
    requires
        0 <= i < j < t.len(),
        t[i] == ':',
        t[j] == ':',
    ensures
        colon_count(t) >= 2,
{
    lemma_colons_upto(t, j);
    lemma_colons_upto(t.take(j), i);
    assert(t.take(j).take(i) == t.take(i));
}

/// Whether `t` holds `:LINE:COL` in ASCII digits from the colon at
/// `first` up to `end`, with the second colon at `second`.
pub open spec fn numbers_written(t: Seq<char>, first: int, second: int, end: int) -> bool {
    &&& 0 <= first
    &&& first + 1 < second
    &&& second + 1 < end <= t.len()
    &&& t[first] == ':'
    &&& t[second] == ':'
    &&& forall|k: int| first < k < second ==> is_ascii_digit(#[trigger] t[k])
    &&& forall|k: int| second < k < end ==> is_ascii_digit(#[trigger] t[k])
}

/// Numbers written in ASCII digits are found from their end.
pub proof fn lemma_numbers_found(t: Seq<char>, first: int, second: int, end: int)
    requires
        numbers_written(t, first, second, end),
    ensures
        numbers_before(t, end) == Some((first, second)),
        all_ascii_digits(t.subrange(first + 1, second)),
        all_ascii_digits(t.subrange(second + 1, end)),
{
    assert forall|k: int| second + 1 <= k < end implies CharClass::Digit.has(#[trigger] t[k]) by {
        assert(is_ascii_digit(t[k]));
    }
    lemma_run_start_is(t, second + 1, end, CharClass::Digit);
    assert forall|k: int| first + 1 <= k < second implies CharClass::Digit.has(
        #[trigger] t[k],
    ) by {
        assert(is_ascii_digit(t[k]));
    }
    lemma_run_start_is(t, first + 1, second, CharClass::Digit);
}

/// Whether no line feed stands in `t` from `from` up to `to`.
pub open spec fn no_line_feed(t: Seq<char>, from: int, to: int) -> bool {
    forall|k: int| from <= k < to ==> #[trigger] t[k] != '\n'
}

/// A stretch without a line feed is on one line.
pub proof fn lemma_on_one_line(t: Seq<char>, from: int, to: int)
    requires
        0 <= from <= to <= t.len(),
        no_line_feed(t, from, to),
    ensures
        on_one_line(t, from, to),
{
    assert forall|k: int| from <= k < to implies CharClass::Inline.has(#[trigger] t[k]) by {
        assert(t[k] != '\n');
    }
    lemma_run_end_reaches(t, from, to, CharClass::Inline);
}

/// A text that starts with `at` and a space looks like a frame, and its
/// white space after `at` starts at index 2.
pub proof fn lemma_starts_with_at(t: Seq<char>)
    requires
        has_word(t, 0, seq!['a', 't', ' ']),
    ensures
        looks_like_frame(t),
        has_word(t, 0, word_at()),
        t[0] == 'a',
        t[1] == 't',
        t[2] == ' ',
        !is_space(t[0]),
{
    let head = t.subrange(0, 3);
    assert(head[0] == t[0] && head[1] == t[1] && head[2] == t[2]);
    assert(t.subrange(0, 2) =~= word_at());
}

/// One space between two characters that are no white space is a run of
/// white space of its own.
pub proof fn lemma_single_space(t: Seq<char>, i: int)
    requires
        0 <= i,
        i + 1 < t.len(),
        t[i] == ' ',
        !is_space(t[i + 1]),
    ensures
        run_end(t, i, CharClass::Space) == i + 1,
{
    assert(is_space(t[i]));
    lemma_run_end_is(t, i, i + 1, CharClass::Space);
}

/// The name of shape 1 ends where it was written: see `lemma_call_fields`.
pub proof fn lemma_call_name(t: Seq<char>, name_end: int, first: int)
    requires
        3 < name_end,
        name_end + 2 < first < t.len(),
        t[name_end] == ' ',
        t[name_end + 1] == '(',
        !is_space(t[name_end - 1]),
        forall|k: int| 3 <= k < name_end ==> #[trigger] t[k] != '(',
        no_line_feed(t, 3, name_end),
        no_line_feed(t, name_end + 2, first),
    ensures
        call_name_end(t, 3, first) == Some(name_end),
        run_end(t, name_end, CharClass::Space) == name_end + 1,
{
    let n = t.len() as int;
    let opens = |to: int| call_opens(t, 3, to, first);
    assert(!is_space('('));
    lemma_single_space(t, name_end);
    lemma_on_one_line(t, 3, name_end);
    lemma_on_one_line(t, name_end + 2, first);
    assert(opens(name_end));
    assert forall|j: int| 4 <= j < name_end implies !#[trigger] opens(j) by {
        lemma_run_end_stops(t, j, name_end - 1, CharClass::Space);
        let paren = run_end(t, j, CharClass::Space);
        assert(t[paren] != '(');
    }
    lemma_least_in_found(4, n, opens, name_end);
}

/// Shape 1, by its indices. In a text that reads `at`, a space, a name up
/// to `name_end`, a space, `(`, a URL up to `first`, `:LINE:COL` and `)`,
/// where the name holds neither `(` nor a line feed and neither starts nor
/// ends with white space, and the URL is not empty and holds no line feed,
/// the fields are found where they were written.
pub proof fn lemma_call_fields(t: Seq<char>, name_end: int, first: int, second: int)
    requires
        has_word(t, 0, seq!['a', 't', ' ']),
        3 < name_end,
        name_end + 2 < first,
        numbers_written(t, first, second, t.len() - 1),
        t.last() == ')',
        t[name_end] == ' ',
        t[name_end + 1] == '(',
        !is_space(t[3]),
        !is_space(t[name_end - 1]),
        forall|k: int| 3 <= k < name_end ==> #[trigger] t[k] != '(',
        no_line_feed(t, 3, name_end),
        no_line_feed(t, name_end + 2, first),
    ensures
        trimmed(t) == t,
        frame_fields(t) == Some(
            FieldBounds {
                name: (3, name_end),
                url: (name_end + 2, first),
                line: (first + 1, second),
                column: (second + 1, t.len() - 1),
            },
        ),
{
    let n = t.len() as int;
    lemma_starts_with_at(t);
    assert(!is_space(')'));
    lemma_trimmed_already(t);
    lemma_two_colons(t, first, second);
    lemma_numbers_found(t, first, second, n - 1);
    lemma_single_space(t, 2);
    lemma_call_name(t, name_end, first);
    let starts = |from: int| call_name_end(t, from, first) is Some;
    assert(starts(3));
    lemma_greatest_in_found(3, 4, starts, 3);
    assert(shape_call(t) is Some);
}

/// A text that ends in `:LINE:COL`, written in ASCII digits, is no call:
/// it does not end with `)`. Nor does it end with white space.
pub proof fn lemma_ends_with_a_digit(t: Seq<char>, first: int, second: int)
    requires
        numbers_written(t, first, second, t.len() as int),
    ensures
        shape_call(t) is None,
        !is_space(t.last()),
        t.len() > 0,
{
    assert(is_ascii_digit(t[t.len() - 1]));
}

/// Shape 2, by its indices. In a text that reads `at`, a space, a URL up
/// to `first` and `:LINE:COL`, where the URL is not empty, does not start
/// with white space and holds no line feed, the fields are found where
/// they were written, and the name is empty.
pub proof fn lemma_bare_fields(t: Seq<char>, first: int, second: int)
    requires
        has_word(t, 0, seq!['a', 't', ' ']),
        3 < first,
        numbers_written(t, first, second, t.len() as int),
        !is_space(t[3]),
        no_line_feed(t, 3, first),
    ensures
        trimmed(t) == t,
        frame_fields(t) == Some(
            FieldBounds {
                name: (0, 0),
                url: (3, first),
                line: (first + 1, second),
                column: (second + 1, t.len() as int),
            },
        ),
{
    let n = t.len() as int;
    lemma_starts_with_at(t);
    lemma_ends_with_a_digit(t, first, second);
    lemma_trimmed_already(t);
    lemma_two_colons(t, first, second);
    lemma_numbers_found(t, first, second, n);
    lemma_single_space(t, 2);
    lemma_on_one_line(t, 3, first);
    let starts = |from: int| from < first && on_one_line(t, from, first);
    assert(starts(3));
    lemma_greatest_in_found(3, 4, starts, 3);
    assert(shape_bare(t) is Some);
}

/// A text with an `@` at `at`, a stretch of one line after it and
/// `:LINE:COL` at its end looks like a frame.
pub proof fn lemma_looks_like_frame(t: Seq<char>, at: int, first: int, second: int)
    requires
        0 <= at,
        at + 1 < first,
        t[at] == '@',
        no_line_feed(t, at + 1, first),
        numbers_written(t, first, second, t.len() as int),
    ensures
        looks_like_frame(t),
        on_one_line(t, at + 1, first),
        numbers_before(t, t.len() as int) == Some((first, second)),
{
    lemma_numbers_found(t, first, second, t.len() as int);
    lemma_on_one_line(t, at + 1, first);
}

/// The first `@` at or after `from` is where the name from `from` ends.
pub proof fn lemma_name_runs_to_at(t: Seq<char>, from: int, at: int)
    requires
        0 <= from <= at < t.len(),
        t[at] == '@',
        forall|k: int| from <= k < at ==> #[trigger] t[k] != '@',
    ensures
        run_end(t, from, CharClass::Name) == at,
{
    assert forall|k: int| from <= k < at implies CharClass::Name.has(#[trigger] t[k]) by {
        assert(t[k] != '@');
    }
    lemma_run_end_is(t, from, at, CharClass::Name);
}

/// Shape 3, by its indices. In a text that reads a name up to the `@` at
/// `at`, a URL up to `first` and `:LINE:COL`, where the name is not empty,
/// holds no `@`, and starts neither with white space nor with `at` or
/// `async`, and the URL is not empty and holds no line feed, the fields
/// are found where they were written.
pub proof fn lemma_named_fields(t: Seq<char>, at: int, first: int, second: int)
    requires
        0 < at,
        at + 1 < first,
        t[at] == '@',
        forall|k: int| 0 <= k < at ==> #[trigger] t[k] != '@',
        !is_space(t[0]),
        !has_word(t, 0, word_at()),
        !has_word(t, 0, word_async()),
        no_line_feed(t, at + 1, first),
        numbers_written(t, first, second, t.len() as int),
    ensures
        trimmed(t) == t,
        frame_fields(t) == Some(
            FieldBounds {
                name: (0, at),
                url: (at + 1, first),
                line: (first + 1, second),
                column: (second + 1, t.len() as int),
            },
        ),
{
    lemma_ends_with_a_digit(t, first, second);
    lemma_trimmed_already(t);
    lemma_two_colons(t, first, second);
    lemma_looks_like_frame(t, at, first, second);
    lemma_name_runs_to_at(t, 0, at);
    assert(named_at(t, 0, first));
    assert(shape_bare(t) is None);
    assert(shape_named(t) is Some);
}

/// Shape 3 with `async`, by its indices. In a text that reads `async`, a
/// space, a name up to the `@` at `at`, a URL up to `first` and
/// `:LINE:COL`, where the name is not empty, holds no `@` and does not
/// start with white space, and the URL is not empty and holds no line
/// feed, the fields are found where they were written: `async` is no part
/// of the name.
pub proof fn lemma_async_fields(t: Seq<char>, at: int, first: int, second: int)
    requires
        has_word(t, 0, seq!['a', 's', 'y', 'n', 'c', ' ']),
        6 < at,
        at + 1 < first,
        t[at] == '@',
        forall|k: int| 6 <= k < at ==> #[trigger] t[k] != '@',
        !is_space(t[6]),
        no_line_feed(t, at + 1, first),
        numbers_written(t, first, second, t.len() as int),
    ensures
        trimmed(t) == t,
        frame_fields(t) == Some(
            FieldBounds {
                name: (6, at),
                url: (at + 1, first),
                line: (first + 1, second),
                column: (second + 1, t.len() as int),
            },
        ),
{
    let head = t.subrange(0, 6);
    assert(head[0] == t[0] && head[1] == t[1] && head[2] == t[2] && head[3] == t[3] && head[4]
        == t[4] && head[5] == t[5]);
    assert(t.subrange(0, 5) =~= word_async());
    let two = t.subrange(0, 2);
    assert(two[1] == t[1]);
    assert(!has_word(t, 0, word_at()));
    assert(!is_space(t[0]));
    lemma_ends_with_a_digit(t, first, second);
    lemma_trimmed_already(t);
    lemma_two_colons(t, first, second);
    lemma_looks_like_frame(t, at, first, second);
    lemma_single_space(t, 5);
    lemma_name_runs_to_at(t, 6, at);
    let starts = |from: int| named_at(t, from, first);
    assert(starts(6));
    lemma_greatest_in_found(6, 7, starts, 6);
    assert(shape_bare(t) is None);
    assert(shape_named(t) is Some);
}

/// A text that does not start with `a` starts with neither keyword.
pub proof fn lemma_no_keyword(t: Seq<char>)
    requires
        t.len() > 0,
        t[0] != 'a',
    ensures
        !has_word(t, 0, word_at()),
        !has_word(t, 0, word_async()),
{
    if t.len() >= 2 {
        let two = t.subrange(0, 2);
        assert(two[0] == t[0]);
    }
    if t.len() >= 5 {
        let five = t.subrange(0, 5);
        assert(five[0] == t[0]);
    }
}

/// A text that starts with `@` and ends in `:LINE:COL` has none of the
/// first three shapes.
pub proof fn lemma_anonymous_only(t: Seq<char>, first: int, second: int)
    requires
        t[0] == '@',
        numbers_written(t, first, second, t.len() as int),
    ensures
        shape_call(t) is None,
        shape_bare(t) is None,
        shape_named(t) is None,
{
    lemma_ends_with_a_digit(t, first, second);
    lemma_no_keyword(t);
    lemma_run_end_is(t, 0, 0, CharClass::Name);
    assert(!named_at(t, 0, first));
}

/// Shape 4, by its indices. In a text that reads `@`, a URL up to `first`
/// and `:LINE:COL`, where the URL is not empty and holds no line feed, the
/// fields are found where they were written, and the name is empty.
pub proof fn lemma_anonymous_fields(t: Seq<char>, first: int, second: int)
    requires
        1 < first,
        t[0] == '@',
        no_line_feed(t, 1, first),
        numbers_written(t, first, second, t.len() as int),
    ensures
        trimmed(t) == t,
        frame_fields(t) == Some(
            FieldBounds {
                name: (0, 0),
                url: (1, first),
                line: (first + 1, second),
                column: (second + 1, t.len() as int),
            },
        ),
{
    assert(!is_space('@'));
    lemma_ends_with_a_digit(t, first, second);
    lemma_trimmed_already(t);
    lemma_two_colons(t, first, second);
    lemma_looks_like_frame(t, 0, first, second);
    lemma_anonymous_only(t, first, second);
    assert(shape_anonymous(t) is Some);
}

/// `URL:LINE:COL`.
pub open spec fn place_text(url: Seq<char>, line: Seq<char>, column: Seq<char>) -> Seq<char> {
    url + seq![':'] + line + seq![':'] + column
}

/// `at NAME (URL:LINE:COL)`.
pub open spec fn call_line(name: Seq<char>, url: Seq<char>, line: Seq<char>, column: Seq<char>)
    -> Seq<char> {
    seq!['a', 't', ' '] + name + seq![' ', '('] + place_text(url, line, column) + seq![')']
}

/// `at URL:LINE:COL`.
pub open spec fn bare_line(url: Seq<char>, line: Seq<char>, column: Seq<char>) -> Seq<char> {
    seq!['a', 't', ' '] + place_text(url, line, column)
}

/// `NAME@URL:LINE:COL`.
pub open spec fn named_line(name: Seq<char>, url: Seq<char>, line: Seq<char>, column: Seq<char>)
    -> Seq<char> {
    name + seq!['@'] + place_text(url, line, column)
}

/// `async NAME@URL:LINE:COL`.
pub open spec fn async_line(name: Seq<char>, url: Seq<char>, line: Seq<char>, column: Seq<char>)
    -> Seq<char> {
    seq!['a', 's', 'y', 'n', 'c', ' '] + name + seq!['@'] + place_text(url, line, column)
}

/// `@URL:LINE:COL`.
pub open spec fn anonymous_line(url: Seq<char>, line: Seq<char>, column: Seq<char>) -> Seq<char> {
    seq!['@'] + place_text(url, line, column)
}

/// A number as a frame writes it: one ASCII digit or more.
pub open spec fn written_number(digits: Seq<char>) -> bool {
    digits.len() > 0 && all_ascii_digits(digits)
}

/// A URL as a frame writes it: not empty, and on one line.
pub open spec fn written_url(url: Seq<char>) -> bool {
    url.len() > 0 && forall|k: int| 0 <= k < url.len() ==> #[trigger] url[k] != '\n'
}

/// A name as shape 1 writes it: not empty, on one line, without `(`, and
/// with no white space at its ends.
pub open spec fn call_name(name: Seq<char>) -> bool {
    &&& name.len() > 0
    &&& !is_space(name[0])
    &&& !is_space(name.last())
    &&& forall|k: int| 0 <= k < name.len() ==> #[trigger] name[k] != '(' && name[k] != '\n'
}

/// A name as shape 3 writes it: not empty, without `@`, and not starting
/// with white space.
pub open spec fn plain_name(name: Seq<char>) -> bool {
    &&& name.len() > 0
    &&& !is_space(name[0])
    &&& forall|k: int| 0 <= k < name.len() ==> #[trigger] name[k] != '@'
}

/// Whether `name` starts with `word`.
pub open spec fn starts_with(name: Seq<char>, word: Seq<char>) -> bool {
    has_word(name, 0, word)
}

/// The frame with the fields as they were written. A number that does not
/// fit 32 bits counts as 0.
pub open spec fn frame_written(
    name: Seq<char>,
    url: Seq<char>,
    line: Seq<char>,
    column: Seq<char>,
    text: Seq<char>,
) -> FrameView {
    FrameView {
        name,
        line: number_field(line),
        column: number_field(column),
        source_file: url,
        original_raw: text,
    }
}

/// Where the parts of `URL:LINE:COL` lie in a text that holds it from
/// `from` up to its end or up to one character before its end.
pub proof fn lemma_place_in(
    t: Seq<char>,
    from: int,
    url: Seq<char>,
    line: Seq<char>,
    column: Seq<char>,
    end: int,
)
    requires
        0 <= from,
        end == from + place_text(url, line, column).len() <= t.len(),
        t.subrange(from, end) == place_text(url, line, column),
        written_url(url),
        written_number(line),
        written_number(column),
    ensures
        numbers_written(t, from + url.len(), from + url.len() + 1 + line.len(), end),
        no_line_feed(t, from, from + url.len()),
        t.subrange(from, from + url.len()) == url,
        t.subrange(from + url.len() + 1, from + url.len() + 1 + line.len()) == line,
        t.subrange(from + url.len() + 1 + line.len() + 1, end) == column,
        end == from + url.len() + 1 + line.len() + 1 + column.len(),
{
    let place = place_text(url, line, column);
    let first = url.len() as int;
    let second = first + 1 + line.len();
    assert forall|k: int| 0 <= k < place.len() implies t[from + k] == #[trigger] place[k] by {
        assert(t.subrange(from, end)[k] == t[from + k]);
    }
    assert(place[first] == ':');
    assert(place[second] == ':');
    assert forall|k: int| from + first < k < from + second implies is_ascii_digit(
        #[trigger] t[k],
    ) by {
        assert(t[k] == place[k - from]);
        assert(place[k - from] == line[k - from - first - 1]);
    }
    assert forall|k: int| from + second < k < end implies is_ascii_digit(#[trigger] t[k]) by {
        assert(t[k] == place[k - from]);
        assert(place[k - from] == column[k - from - second - 1]);
    }
    assert forall|k: int| from <= k < from + first implies #[trigger] t[k] != '\n' by {
        assert(t[k] == place[k - from]);
        assert(place[k - from] == url[k - from]);
    }
    assert(t.subrange(from, from + first) =~= url) by {
        assert forall|k: int| 0 <= k < first implies t.subrange(from, from + first)[k] == url[k] by {
            assert(t[from + k] == place[k]);
        }
    }
    assert(t.subrange(from + first + 1, from + second) =~= line) by {
        assert forall|k: int| 0 <= k < line.len() implies t.subrange(
            from + first + 1,
            from + second,
        )[k] == line[k] by {
            assert(t[from + first + 1 + k] == place[first + 1 + k]);
        }
    }
    assert(t.subrange(from + second + 1, end) =~= column) by {
        assert forall|k: int| 0 <= k < column.len() implies t.subrange(from + second + 1, end)[k]
            == column[k] by {
            assert(t[from + second + 1 + k] == place[second + 1 + k]);
        }
    }
}

/// A part of a text lies where the parts before it end.
pub proof fn lemma_part_of(front: Seq<char>, part: Seq<char>, back: Seq<char>)
    ensures
        (front + part + back).len() == front.len() + part.len() + back.len(),
        (front + part + back).subrange(front.len() as int, (front.len() + part.len()) as int) == part,
        forall|k: int|
            0 <= k < part.len() ==> #[trigger] (front + part + back)[front.len() + k] == part[k],
{
    assert((front + part + back).subrange(front.len() as int, (front.len() + part.len()) as int) =~= part);
}

/// Where the parts of a line written in shape 1 lie.
pub proof fn lemma_call_layout(
    name: Seq<char>,
    url: Seq<char>,
    line: Seq<char>,
    column: Seq<char>,
)
    ensures
        ({
            let t = call_line(name, url, line, column);
            let place = place_text(url, line, column);
            let name_end = 3 + name.len() as int;
            &&& t.len() == name_end + 2 + place.len() + 1
            &&& t.subrange(0, 3) == seq!['a', 't', ' ']
            &&& t.subrange(3, name_end) == name
            &&& t.subrange(name_end, name_end + 2) == seq![' ', '(']
            &&& t.subrange(name_end + 2, name_end + 2 + place.len()) == place
            &&& t.last() == ')'
        }),
{
    let t = call_line(name, url, line, column);
    let place = place_text(url, line, column);
    let head = seq!['a', 't', ' '];
    let join = seq![' ', '('];
    let tail = seq![')'];
    lemma_part_of(Seq::empty(), head, name + join + place + tail);
    assert(t =~= Seq::<char>::empty() + head + (name + join + place + tail));
    lemma_part_of(head, name, join + place + tail);
    assert(t =~= head + name + (join + place + tail));
    lemma_part_of(head + name, join, place + tail);
    assert(t =~= head + name + join + (place + tail));
    lemma_part_of(head + name + join, place, tail);
}

/// A line written in shape 1 is read back field by field: the name, the
/// URL, and the two numbers as integers exactly as written.
pub proof fn call_line_reads_back(
    name: Seq<char>,
    url: Seq<char>,
    line: Seq<char>,
    column: Seq<char>,
)
    requires
        call_name(name),
        written_url(url),
        written_number(line),
        written_number(column),
    ensures
        parse_line(call_line(name, url, line, column)) == Some(
            frame_written(name, url, line, column, call_line(name, url, line, column)),
        ),
{
    let t = call_line(name, url, line, column);
    let place = place_text(url, line, column);
    let name_end: int = 3 + name.len() as int;
    let from: int = name_end + 2;
    let end: int = from + place.len();
    lemma_call_layout(name, url, line, column);
    assert forall|k: int| 3 <= k < name_end implies #[trigger] t[k] != '(' && t[k] != '\n' by {
        assert(t.subrange(3, name_end)[k - 3] == t[k]);
    }
    assert(t[3] == name[0]) by {
        assert(t.subrange(3, name_end)[0] == t[3]);
    }
    assert(t[name_end - 1] == name.last()) by {
        assert(t.subrange(3, name_end)[name_end - 4] == t[name_end - 1]);
    }
    assert(t[name_end] == ' ' && t[name_end + 1] == '(') by {
        let join = t.subrange(name_end, name_end + 2);
        assert(join[0] == t[name_end] && join[1] == t[name_end + 1]);
    }
    lemma_place_in(t, from, url, line, column, end);
    let first: int = from + url.len();
    let second: int = first + 1 + line.len();
    lemma_call_fields(t, name_end, first, second);
}

/// Where the parts of a line lie that is a head and `URL:LINE:COL`.
pub proof fn lemma_headed_layout(head: Seq<char>, place: Seq<char>)
    ensures
        (head + place).len() == head.len() + place.len(),
        (head + place).subrange(0, head.len() as int) == head,
        (head + place).subrange(head.len() as int, (head.len() + place.len()) as int) == place,
{
    assert((head + place).subrange(0, head.len() as int) =~= head);
    assert((head + place).subrange(head.len() as int, (head.len() + place.len()) as int) =~= place);
}

/// A line written in shape 2 is read back field by field, with an empty
/// name.
pub proof fn bare_line_reads_back(url: Seq<char>, line: Seq<char>, column: Seq<char>)
    requires
        written_url(url),
        !is_space(url[0]),
        written_number(line),
        written_number(column),
    ensures
        parse_line(bare_line(url, line, column)) == Some(
            frame_written(Seq::empty(), url, line, column, bare_line(url, line, column)),
        ),
{
    let t = bare_line(url, line, column);
    let place = place_text(url, line, column);
    let end: int = 3 + place.len() as int;
    lemma_headed_layout(seq!['a', 't', ' '], place);
    lemma_place_in(t, 3, url, line, column, end);
    let first: int = 3 + url.len() as int;
    let second: int = first + 1 + line.len();
    assert(t[3] == url[0]) by {
        assert(t.subrange(3, first)[0] == t[3]);
    }
    lemma_bare_fields(t, first, second);
    assert(t.subrange(0, 0) =~= Seq::<char>::empty());
}

/// Where the parts of a line lie that is a head, a name, `@` and
/// `URL:LINE:COL`.
pub proof fn lemma_named_layout(head: Seq<char>, name: Seq<char>, place: Seq<char>)
    ensures
        ({
            let t = head + name + seq!['@'] + place;
            let at = (head.len() + name.len()) as int;
            &&& t.len() == at + 1 + place.len()
            &&& t.subrange(0, head.len() as int) == head
            &&& t.subrange(head.len() as int, at as int) == name
            &&& t[at as int] == '@'
            &&& t.subrange(at + 1, at + 1 + place.len()) == place
        }),
{
    let t = head + name + seq!['@'] + place;
    let mark = seq!['@'];
    lemma_part_of(Seq::empty(), head, name + mark + place);
    assert(t =~= Seq::<char>::empty() + head + (name + mark + place));
    lemma_part_of(head, name, mark + place);
    assert(t =~= head + name + (mark + place));
    lemma_part_of(head + name, mark, place);
    lemma_headed_layout(head + name + mark, place);
}

/// A text that starts with a name of shape 3 which itself starts with
/// neither keyword, and goes on with `@`, starts with neither keyword.
pub proof fn lemma_name_is_no_keyword(t: Seq<char>, name: Seq<char>)
    requires
        plain_name(name),
        !starts_with(name, word_at()),
        !starts_with(name, word_async()),
        name.len() < t.len(),
        t.subrange(0, name.len() as int) == name,
        t[name.len() as int] == '@',
    ensures
        !has_word(t, 0, word_at()),
        !has_word(t, 0, word_async()),
{
    let at = name.len() as int;
    if has_word(t, 0, word_at()) {
        let two = t.subrange(0, 2);
        assert(two[0] == t[0] && two[1] == t[1]);
        if at >= 2 {
            assert(name.subrange(0, 2) =~= two) by {
                assert(t.subrange(0, at)[0] == t[0] && t.subrange(0, at)[1] == t[1]);
            }
        }
    }
    if has_word(t, 0, word_async()) {
        let five = t.subrange(0, 5);
        assert(five[0] == t[0] && five[1] == t[1] && five[2] == t[2] && five[3] == t[3] && five[4]
            == t[4]);
        if at >= 5 {
            assert(name.subrange(0, 5) =~= five) by {
                let part = t.subrange(0, at);
                assert(part[0] == t[0] && part[1] == t[1] && part[2] == t[2] && part[3] == t[3]
                    && part[4] == t[4]);
            }
        }
    }
}

/// A line written in shape 3 is read back field by field, where the name
/// does not itself start with `at` or `async`.
pub proof fn named_line_reads_back(
    name: Seq<char>,
    url: Seq<char>,
    line: Seq<char>,
    column: Seq<char>,
)
    requires
        plain_name(name),
        !starts_with(name, word_at()),
        !starts_with(name, word_async()),
        written_url(url),
        written_number(line),
        written_number(column),
    ensures
        parse_line(named_line(name, url, line, column)) == Some(
            frame_written(name, url, line, column, named_line(name, url, line, column)),
        ),
{
    let t = named_line(name, url, line, column);
    let place = place_text(url, line, column);
    let at: int = name.len() as int;
    let from: int = at + 1;
    let end: int = from + place.len();
    lemma_named_layout(Seq::empty(), name, place);
    assert(t =~= Seq::<char>::empty() + name + seq!['@'] + place);
    assert forall|k: int| 0 <= k < at implies #[trigger] t[k] != '@' by {
        assert(t.subrange(0, at)[k] == t[k]);
    }
    assert(t[0] == name[0]) by {
        assert(t.subrange(0, at)[0] == t[0]);
    }
    lemma_name_is_no_keyword(t, name);
    lemma_place_in(t, from, url, line, column, end);
    let first: int = from + url.len();
    let second: int = first + 1 + line.len();
    lemma_named_fields(t, at, first, second);
}

/// A line written in shape 3 after `async` is read back field by field:
/// `async` is no part of the name.
pub proof fn async_line_reads_back(
    name: Seq<char>,
    url: Seq<char>,
    line: Seq<char>,
    column: Seq<char>,
)
    requires
        plain_name(name),
        written_url(url),
        written_number(line),
        written_number(column),
    ensures
        parse_line(async_line(name, url, line, column)) == Some(
            frame_written(name, url, line, column, async_line(name, url, line, column)),
        ),
{
    let t = async_line(name, url, line, column);
    let place = place_text(url, line, column);
    let at: int = 6 + name.len() as int;
    let from: int = at + 1;
    let end: int = from + place.len();
    lemma_named_layout(seq!['a', 's', 'y', 'n', 'c', ' '], name, place);
    assert forall|k: int| 6 <= k < at implies #[trigger] t[k] != '@' by {
        assert(t.subrange(6, at)[k - 6] == t[k]);
    }
    assert(t[6] == name[0]) by {
        assert(t.subrange(6, at)[0] == t[6]);
    }
    lemma_place_in(t, from, url, line, column, end);
    let first: int = from + url.len();
    let second: int = first + 1 + line.len();
    lemma_async_fields(t, at, first, second);
}

/// A line written in shape 4 is read back field by field, with an empty
/// name.
pub proof fn anonymous_line_reads_back(url: Seq<char>, line: Seq<char>, column: Seq<char>)
    requires
        written_url(url),
        written_number(line),
        written_number(column),
    ensures
        parse_line(anonymous_line(url, line, column)) == Some(
            frame_written(Seq::empty(), url, line, column, anonymous_line(url, line, column)),
        ),
{
    let t = anonymous_line(url, line, column);
    let place = place_text(url, line, column);
    let end: int = 1 + place.len() as int;
    lemma_headed_layout(seq!['@'], place);
    assert(t[0] == '@');
    lemma_place_in(t, 1, url, line, column, end);
    let first: int = 1 + url.len() as int;
    let second: int = first + 1 + line.len();
    lemma_anonymous_fields(t, first, second);
    assert(t.subrange(0, 0) =~= Seq::<char>::empty());
}

/// A number written in ASCII digits that fits 32 bits is read as the
/// integer that it writes in base ten.
pub proof fn written_number_is_its_value(digits: Seq<char>)
    requires
        written_number(digits),
        crate::text::decimal_value(digits) <= u32::MAX,
    ensures
        number_field(digits) == crate::text::decimal_value(digits),
{
}

/// Whether the fields `f` lie in `t` as a frame writes them: a URL that is
/// not empty, then a colon, the digits of the line, a colon and the digits
/// of the column, each run of digits not empty and whole.
pub open spec fn numbers_lie(t: Seq<char>, f: FieldBounds) -> bool {
    &&& f.within(t.len() as int)
    &&& f.url.0 < f.url.1
    &&& f.url.1 + 1 == f.line.0
    &&& f.line.0 < f.line.1
    &&& f.line.1 + 1 == f.column.0
    &&& f.column.0 < f.column.1
    &&& t[f.url.1] == ':'
    &&& t[f.line.1] == ':'
    &&& forall|k: int| f.line.0 <= k < f.line.1 ==> is_decimal_digit(#[trigger] t[k])
    &&& forall|k: int| f.column.0 <= k < f.column.1 ==> is_decimal_digit(#[trigger] t[k])
    &&& f.column.1 < t.len() ==> !is_decimal_digit(t[f.column.1])
}

/// What `numbers_before` finds.
pub proof fn lemma_numbers_before(t: Seq<char>, end: int)
    requires
        numbers_before(t, end) is Some,
    ensures
        ({
            let found = numbers_before(t, end)->0;
            let first = found.0;
            let second = found.1;
            &&& 0 <= first
            &&& first + 1 < second
            &&& second + 1 < end <= t.len()
            &&& t[first] == ':'
            &&& t[second] == ':'
            &&& forall|k: int| first < k < second ==> is_decimal_digit(#[trigger] t[k])
            &&& forall|k: int| second < k < end ==> is_decimal_digit(#[trigger] t[k])
        }),
{
    let found = numbers_before(t, end)->0;
    let second = found.1;
    lemma_run_start(t, end, CharClass::Digit);
    lemma_run_start(t, second, CharClass::Digit);
    assert forall|k: int| second < k < end implies is_decimal_digit(#[trigger] t[k]) by {
        assert(CharClass::Digit.has(t[k]));
    }
    let first = found.0;
    assert forall|k: int| first < k < second implies is_decimal_digit(#[trigger] t[k]) by {
        assert(CharClass::Digit.has(t[k]));
    }
}

/// What `numbers_at` finds.
pub proof fn lemma_numbers_at(t: Seq<char>, first: int)
    requires
        numbers_at(t, first) is Some,
    ensures
        ({
            let found = numbers_at(t, first)->0;
            let second = found.0;
            let end = found.1;
            &&& 0 <= first
            &&& first + 1 < second
            &&& second + 1 < end <= t.len()
            &&& t[first] == ':'
            &&& t[second] == ':'
            &&& forall|k: int| first < k < second ==> is_decimal_digit(#[trigger] t[k])
            &&& forall|k: int| second < k < end ==> is_decimal_digit(#[trigger] t[k])
            &&& end < t.len() ==> !is_decimal_digit(t[end])
        }),
{
    let found = numbers_at(t, first)->0;
    let second = found.0;
    let end = found.1;
    lemma_run_end(t, first + 1, CharClass::Digit);
    lemma_run_end(t, second + 1, CharClass::Digit);
    assert forall|k: int| first < k < second implies is_decimal_digit(#[trigger] t[k]) by {
        assert(CharClass::Digit.has(t[k]));
    }
    assert forall|k: int| second < k < end implies is_decimal_digit(#[trigger] t[k]) by {
        assert(CharClass::Digit.has(t[k]));
    }
    if end < t.len() {
        assert(!CharClass::Digit.has(t[end]));
    }
}

/// The numbers of shape 1 lie where a frame writes them.
pub proof fn lemma_call_numbers(t: Seq<char>)
    requires
        shape_call(t) is Some,
    ensures
        numbers_lie(t, shape_call(t)->0),
{
    let close = t.len() - 1;
    let found = numbers_before(t, close)->0;
    let first = found.0;
    let spaces = run_end(t, 2, CharClass::Space);
    lemma_numbers_before(t, close);
    lemma_greatest_in(3, spaces + 1, |from: int| call_name_end(t, from, first) is Some);
    let from = shape_call(t)->0.name.0;
    lemma_least_in(from + 1, t.len() as int, |to: int| call_opens(t, from, to, first));
    let to = call_name_end(t, from, first)->0;
    lemma_run_end(t, to, CharClass::Space);
    assert(!is_decimal_digit(')'));
}

/// The numbers of shape 2 lie where a frame writes them.
pub proof fn lemma_bare_numbers(t: Seq<char>)
    requires
        shape_bare(t) is Some,
    ensures
        numbers_lie(t, shape_bare(t)->0),
{
    let found = numbers_before(t, t.len() as int)->0;
    let first = found.0;
    let spaces = run_end(t, 2, CharClass::Space);
    lemma_numbers_before(t, t.len() as int);
    lemma_greatest_in(3, spaces + 1, |from: int| from < first && on_one_line(t, from, first));
}

/// The numbers of shape 3 lie where a frame writes them.
pub proof fn lemma_named_numbers(t: Seq<char>)
    requires
        shape_named(t) is Some,
    ensures
        numbers_lie(t, shape_named(t)->0),
{
    let found = numbers_before(t, t.len() as int)->0;
    let first = found.0;
    let spaces = run_end(t, 5, CharClass::Space);
    lemma_numbers_before(t, t.len() as int);
    lemma_greatest_in(6, spaces + 1, |from: int| named_at(t, from, first));
    let from = shape_named(t)->0.name.0;
    assert(named_at(t, from, first));
    lemma_run_end(t, from, CharClass::Name);
}

/// The numbers of shape 4 lie where a frame writes them.
pub proof fn lemma_anonymous_numbers(t: Seq<char>)
    requires
        shape_anonymous(t) is Some,
    ensures
        numbers_lie(t, shape_anonymous(t)->0),
{
    lemma_numbers_before(t, t.len() as int);
}

/// What `url_end` finds.
pub proof fn lemma_url_end(t: Seq<char>, from: int, closed: bool)
    requires
        0 <= from,
        url_end(t, from, closed) is Some,
    ensures
        from < url_end(t, from, closed)->0 < t.len(),
        numbers_at(t, url_end(t, from, closed)->0) is Some,
{
    lemma_least_in(from + 1, t.len() as int, |to: int| url_ends(t, from, to, closed));
}

/// The numbers of the loose shape lie where a frame writes them.
pub proof fn lemma_loose_numbers(t: Seq<char>, i: int)
    requires
        0 <= i,
        loose_at(t, i) is Some,
    ensures
        numbers_lie(t, loose_at(t, i)->0),
{
    let spaces = run_end(t, i + 2, CharClass::Space);
    lemma_run_end(t, i + 2, CharClass::Space);
    if loose_call_at(t, i) is Some {
        let f = loose_call_at(t, i)->0;
        lemma_least_in(spaces + 1, t.len() as int, |to: int| loose_call_opens(t, spaces, to));
        let to = f.name.1;
        assert(loose_call_opens(t, spaces, to));
        lemma_run_end(t, to, CharClass::Space);
        let open = run_end(t, to, CharClass::Space);
        lemma_url_end(t, open + 1, true);
        lemma_numbers_at(t, url_end(t, open + 1, true)->0);
    } else {
        lemma_greatest_in(i + 3, spaces + 1, |from: int| url_end(t, from, false) is Some);
        let from = loose_bare_at(t, i)->0.url.0;
        lemma_url_end(t, from, false);
        lemma_numbers_at(t, url_end(t, from, false)->0);
    }
}

/// Whatever shape a line has, the fields of its frame end with a URL that
/// is not empty, a colon, the digits of the line, a colon and the digits of
/// the column, and each of the two numbers is a whole run of digits.
pub proof fn lemma_frame_numbers(t: Seq<char>)
    requires
        frame_fields(t) is Some,
    ensures
        numbers_lie(t, frame_fields(t)->0),
{
    if looks_like_frame(t) && strict_shape(t) is Some {
        if shape_call(t) is Some {
            lemma_call_numbers(t);
        } else if shape_bare(t) is Some {
            lemma_bare_numbers(t);
        } else if shape_named(t) is Some {
            lemma_named_numbers(t);
        } else {
            lemma_anonymous_numbers(t);
        }
    } else {
        lemma_least_in(0, t.len() as int, |i: int| loose_at(t, i) is Some);
        let i = least_in_index(t);
        lemma_loose_numbers(t, i);
    }
}

/// The first index of `t` that has the loose shape.
pub open spec fn least_in_index(t: Seq<char>) -> int {
    crate::frame_shapes::least_in(0, t.len() as int, |i: int| loose_at(t, i) is Some)->0
}

/// Whatever shape a line has, its numbers are read where they are written:
/// the frame of a line holds the trimmed line, and its line and column are
/// the values of the two runs of digits that follow the URL, each after a
/// colon.
pub proof fn numbers_are_read_where_written(raw: Seq<char>)
    requires
        parse_line(raw) is Some,
    ensures
        ({
            let t = trimmed(raw);
            let f = frame_fields(t)->0;
            let frame = parse_line(raw)->0;
            &&& numbers_lie(t, f)
            &&& frame.original_raw == t
            &&& frame.source_file == t.subrange(f.url.0, f.url.1)
            &&& frame.line == number_field(t.subrange(f.line.0, f.line.1))
            &&& frame.column == number_field(t.subrange(f.column.0, f.column.1))
        }),
{
    lemma_frame_numbers(trimmed(raw));
}


/// White space as it may stand around a frame on its line: white space
/// without a line feed.
pub open spec fn padding(pad: Seq<char>) -> bool {
    forall|k: int| 0 <= k < pad.len() ==> is_space(#[trigger] pad[k]) && pad[k] != '\n'
}

/// A line written in shape 1 with white space around it is one line, and
/// trimmed it is the frame as written.
pub proof fn lemma_padded_frame(
    before: Seq<char>,
    name: Seq<char>,
    url: Seq<char>,
    line: Seq<char>,
    column: Seq<char>,
    after: Seq<char>,
)
    requires
        padding(before),
        padding(after),
        call_name(name),
        written_url(url),
        written_number(line),
        written_number(column),
    ensures
        ({
            let frame = call_line(name, url, line, column);
            let padded = before + frame + after;
            &&& padded.len() > 0
            &&& forall|k: int| 0 <= k < padded.len() ==> #[trigger] padded[k] != '\n'
            &&& trimmed(padded) == frame
        }),
{
    let frame = call_line(name, url, line, column);
    let padded = before + frame + after;
    lemma_call_layout(name, url, line, column);
    assert(frame[0] == 'a') by {
        assert(frame.subrange(0, 3)[0] == frame[0]);
    }
    assert(!is_space('a') && !is_space(')'));
    lemma_trimmed_of_padded(before, frame, after);
    assert forall|k: int| 0 <= k < padded.len() implies #[trigger] padded[k] != '\n' by {
        if k < before.len() {
            assert(padded[k] == before[k]);
        } else if k < before.len() + frame.len() {
            let j = k - before.len();
            assert(padded[k] == frame[j]);
            lemma_frame_line_is_one_line(name, url, line, column, j);
        } else {
            assert(padded[k] == after[k - before.len() - frame.len()]);
        }
    }
}

/// A trace of one line holds the frame of that line, if it holds one.
pub proof fn lemma_trace_of_one_line(trace: Seq<char>)
    requires
        trace.len() > 0,
        forall|k: int| 0 <= k < trace.len() ==> #[trigger] trace[k] != '\n',
        parse_line(trimmed(trace)) is Some,
    ensures
        frames_of(lines_of(trace)) == seq![parse_line(trimmed(trace))->0],
{
    lemma_one_line(trace);
    let lines = seq![trace];
    assert(lines.drop_last() =~= Seq::<Seq<char>>::empty());
    assert(frames_of(lines.drop_last()) =~= Seq::<FrameView>::empty());
    assert(frames_of(lines) =~= seq![parse_line(trimmed(trace))->0]);
}

/// An error block of a message and one frame: in a text that is a first
/// line, a line feed, and a line written in shape 1 with white space
/// around it, the message is the first line as it stands, and there is
/// one frame, read back field by field.
pub proof fn block_with_one_frame(
    message: Seq<char>,
    before: Seq<char>,
    name: Seq<char>,
    url: Seq<char>,
    line: Seq<char>,
    column: Seq<char>,
    after: Seq<char>,
)
    requires
        forall|k: int| 0 <= k < message.len() ==> #[trigger] message[k] != '\n',
        message.len() > 0 ==> message.last() != '\r',
        padding(before),
        padding(after),
        call_name(name),
        written_url(url),
        written_number(line),
        written_number(column),
    ensures
        ({
            let frame = call_line(name, url, line, column);
            let block = message + seq!['\n'] + (before + frame + after);
            &&& first_line(lines_of(block)) == message
            &&& frames_of(later_lines(lines_of(block))) == seq![
                frame_written(name, url, line, column, frame),
            ]
        }),
{
    let frame = call_line(name, url, line, column);
    let trace = before + frame + after;
    block_is_message_and_trace(message, trace);
    lemma_padded_frame(before, name, url, line, column, after);
    call_line_reads_back(name, url, line, column);
    lemma_trace_of_one_line(trace);
}

/// A line written in shape 1 holds no line feed.
pub proof fn lemma_frame_line_is_one_line(
    name: Seq<char>,
    url: Seq<char>,
    line: Seq<char>,
    column: Seq<char>,
    j: int,
)
    requires
        call_name(name),
        written_url(url),
        written_number(line),
        written_number(column),
        0 <= j < call_line(name, url, line, column).len(),
    ensures
        call_line(name, url, line, column)[j] != '\n',
{
    let t = call_line(name, url, line, column);
    let place = place_text(url, line, column);
    let name_end: int = 3 + name.len() as int;
    let from: int = name_end + 2;
    let end: int = from + place.len();
    lemma_call_layout(name, url, line, column);
    lemma_place_in(t, from, url, line, column, end);
    if j < 3 {
        assert(t.subrange(0, 3)[j] == t[j]);
    } else if j < name_end {
        assert(t.subrange(3, name_end)[j - 3] == t[j]);
    } else if j < from {
        assert(t.subrange(name_end, name_end + 2)[j - name_end] == t[j]);
    } else if j < end {
        let first: int = from + url.len();
        let second: int = first + 1 + line.len();
        if j < first {
        } else if j == first || j == second {
        } else {
            assert(is_ascii_digit(t[j]));
        }
    } else {
        assert(t[j] == t.last());
    }
}


/// A line of a trace that is written in shape 1 makes one frame, read
/// back field by field.
pub proof fn call_line_is_one_frame(
    name: Seq<char>,
    url: Seq<char>,
    line: Seq<char>,
    column: Seq<char>,
)
    requires
        call_name(name),
        written_url(url),
        written_number(line),
        written_number(column),
    ensures
        frames_of_line(call_line(name, url, line, column)) == seq![
            frame_written(name, url, line, column, call_line(name, url, line, column)),
        ],
{
    lemma_padded_frame(Seq::empty(), name, url, line, column, Seq::empty());
    let frame = call_line(name, url, line, column);
    assert(Seq::<char>::empty() + frame + Seq::<char>::empty() =~= frame);
    call_line_reads_back(name, url, line, column);
}

/// A line of a trace that is written in shape 2 makes one frame, with an
/// empty name.
pub proof fn bare_line_is_one_frame(url: Seq<char>, line: Seq<char>, column: Seq<char>)
    requires
        written_url(url),
        !is_space(url[0]),
        written_number(line),
        written_number(column),
    ensures
        frames_of_line(bare_line(url, line, column)) == seq![
            frame_written(Seq::empty(), url, line, column, bare_line(url, line, column)),
        ],
{
    let t = bare_line(url, line, column);
    let place = place_text(url, line, column);
    lemma_headed_layout(seq!['a', 't', ' '], place);
    lemma_place_in(t, 3, url, line, column, 3 + place.len() as int);
    lemma_bare_fields(t, 3 + url.len() as int, 3 + url.len() as int + 1 + line.len());
    assert(t[3] == url[0]) by {
        assert(t.subrange(3, 3 + url.len() as int)[0] == t[3]);
    }
    bare_line_reads_back(url, line, column);
}

/// A line of a trace that is written in shape 3 makes one frame, where
/// the name does not itself start with `at` or `async`.
pub proof fn named_line_is_one_frame(
    name: Seq<char>,
    url: Seq<char>,
    line: Seq<char>,
    column: Seq<char>,
)
    requires
        plain_name(name),
        !starts_with(name, word_at()),
        !starts_with(name, word_async()),
        written_url(url),
        written_number(line),
        written_number(column),
    ensures
        frames_of_line(named_line(name, url, line, column)) == seq![
            frame_written(name, url, line, column, named_line(name, url, line, column)),
        ],
{
    let t = named_line(name, url, line, column);
    let place = place_text(url, line, column);
    let at: int = name.len() as int;
    lemma_named_layout(Seq::empty(), name, place);
    assert(t =~= Seq::<char>::empty() + name + seq!['@'] + place);
    assert forall|k: int| 0 <= k < at implies #[trigger] t[k] != '@' by {
        assert(t.subrange(0, at)[k] == t[k]);
    }
    assert(t[0] == name[0]) by {
        assert(t.subrange(0, at)[0] == t[0]);
    }
    lemma_name_is_no_keyword(t, name);
    lemma_place_in(t, at + 1, url, line, column, at + 1 + place.len());
    lemma_named_fields(t, at, at + 1 + url.len(), at + 1 + url.len() + 1 + line.len());
    named_line_reads_back(name, url, line, column);
}

/// A line of a trace that is written in shape 3 after `async` makes one
/// frame.
pub proof fn async_line_is_one_frame(
    name: Seq<char>,
    url: Seq<char>,
    line: Seq<char>,
    column: Seq<char>,
)
    requires
        plain_name(name),
        written_url(url),
        written_number(line),
        written_number(column),
    ensures
        frames_of_line(async_line(name, url, line, column)) == seq![
            frame_written(name, url, line, column, async_line(name, url, line, column)),
        ],
{
    let t = async_line(name, url, line, column);
    let place = place_text(url, line, column);
    let at: int = 6 + name.len() as int;
    lemma_named_layout(seq!['a', 's', 'y', 'n', 'c', ' '], name, place);
    assert forall|k: int| 6 <= k < at implies #[trigger] t[k] != '@' by {
        assert(t.subrange(6, at)[k - 6] == t[k]);
    }
    assert(t[6] == name[0]) by {
        assert(t.subrange(6, at)[0] == t[6]);
    }
    lemma_place_in(t, at + 1, url, line, column, at + 1 + place.len());
    lemma_async_fields(t, at, at + 1 + url.len(), at + 1 + url.len() + 1 + line.len());
    async_line_reads_back(name, url, line, column);
}

/// A line of a trace that is written in shape 4 makes one frame, with an
/// empty name.
pub proof fn anonymous_line_is_one_frame(url: Seq<char>, line: Seq<char>, column: Seq<char>)
    requires
        written_url(url),
        written_number(line),
        written_number(column),
    ensures
        frames_of_line(anonymous_line(url, line, column)) == seq![
            frame_written(Seq::empty(), url, line, column, anonymous_line(url, line, column)),
        ],
{
    let t = anonymous_line(url, line, column);
    let place = place_text(url, line, column);
    lemma_headed_layout(seq!['@'], place);
    assert(t[0] == '@');
    lemma_place_in(t, 1, url, line, column, 1 + place.len() as int);
    lemma_anonymous_fields(t, 1 + url.len() as int, 1 + url.len() as int + 1 + line.len());
    anonymous_line_reads_back(url, line, column);
}

/// A line of a trace with one colon at most, wherever it stands, makes no
/// frame.
pub proof fn line_with_one_colon_makes_no_frame(raw: Seq<char>, i: int)
    requires
        forall|k: int| 0 <= k < raw.len() && k != i ==> #[trigger] raw[k] != ':',
    ensures
        frames_of_line(raw) == Seq::<FrameView>::empty(),
{
    crate::stack_transform::lemma_one_colon_at_most(raw, i);
    crate::text::lemma_trim_bounds(raw);
    crate::stack_transform::lemma_colons_of_a_part(
        raw,
        crate::text::trim_bounds(raw).0,
        crate::text::trim_bounds(raw).1,
    );
    crate::stack_transform::few_colons_hold_no_frame(trimmed(raw));
}

} // verus!
