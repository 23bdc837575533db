//! Stack text into frames: one line into a [`Stack`], a trace into its
//! frames, an error block into its message and frames.

use crate::frame_shapes::{colon_count, frame_fields, match_frame, FieldBounds};
use crate::text::{
    chars_of, lemma_lines_after_the_first, lemma_trim_bounds, line_bounds, lines_of,
    number_field, parse_number, split_lines, trim, trimmed,
};
use vstd::prelude::*;
use vstd::string::StrSliceExecFns;

verus! {

/// One frame of a stack trace: a place in generated code.
#[derive(Clone, Debug)]
pub struct Stack<'a> {
    /// The function's name; empty where the line gives none.
    pub name: &'a str,
    /// The line in generated code, counted from 1; 0 where the line's
    /// number cannot be read.
    pub line: u32,
    /// The column in generated code; 0 where it cannot be read.
    pub column: u32,
    /// The URL or path of the generated file.
    pub source_file: &'a str,
    /// The text of the line, without the white space at its ends.
    pub original_raw: &'a str,
}

/// What a [`Stack`] holds.
pub struct FrameView {
    pub name: Seq<char>,
    pub line: u32,
    pub column: u32,
    pub source_file: Seq<char>,
    pub original_raw: Seq<char>,
}

impl<'a> View for Stack<'a> {
    type V = FrameView;

    open spec fn view(&self) -> FrameView {
        FrameView {
            name: self.name@,
            line: self.line,
            column: self.column,
            source_file: self.source_file@,
            original_raw: self.original_raw@,
        }
    }
}

/// The frame whose fields lie at `f` in the trimmed line `t`. A number
/// that is not written in ASCII digits, or does not fit 32 bits, counts as 0.
pub open spec fn frame_of(t: Seq<char>, f: FieldBounds) -> FrameView {
    FrameView {
        name: t.subrange(f.name.0, f.name.1),
        line: number_field(t.subrange(f.line.0, f.line.1)),
        column: number_field(t.subrange(f.column.0, f.column.1)),
        source_file: t.subrange(f.url.0, f.url.1),
        original_raw: t,
    }
}

/// The frame that the line `raw` holds, if it holds one.
pub open spec fn parse_line(raw: Seq<char>) -> Option<FrameView> {
    match frame_fields(trimmed(raw)) {
        Some(f) => Some(frame_of(trimmed(raw), f)),
        None => None,
    }
}

/// The frames that `lines` hold, in order; a line that holds none is left
/// out.
pub open spec fn frames_of(lines: Seq<Seq<char>>) -> Seq<FrameView>
    decreases lines.len(),
{
    if lines.len() == 0 {
        Seq::empty()
    } else {
        match parse_line(trimmed(lines.last())) {
            Some(frame) => frames_of(lines.drop_last()).push(frame),
            None => frames_of(lines.drop_last()),
        }
    }
}

/// What a sequence of frames holds.
pub open spec fn frame_views(stacks: Seq<Stack>) -> Seq<FrameView> {
    stacks.map_values(|s: Stack| s@)
}

/// Reads one line of a stack trace. The line is trimmed first. Returns the
/// frame that it holds, or `None` where it has fewer than two colons or
/// none of the shapes of a frame.
pub fn parse_stack_line<'a>(original_raw: &'a str) -> (r: Option<Stack<'a>>)
    ensures
        match r {
            Some(stack) => parse_line(original_raw@) == Some(stack@),
            None => parse_line(original_raw@) is None,
        },
{
    let line = trim(original_raw);
    let t = chars_of(line);
    match match_frame(&t) {
        Some(f) => {
            Some(
                Stack {
                    name: line.substring_char(f.name.0, f.name.1),
                    line: parse_number(&t, f.line.0, f.line.1),
                    column: parse_number(&t, f.column.0, f.column.1),
                    source_file: line.substring_char(f.url.0, f.url.1),
                    original_raw: line,
                },
            )
        },
        None => None,
    }
}

/// The texts of a sequence of slices.
pub open spec fn texts_of(v: Seq<&str>) -> Seq<Seq<char>> {
    v.map_values(|s: &str| s@)
}

/// The lines of `s`, each as a slice of it.
pub fn lines<'a>(s: &'a str) -> (v: Vec<&'a str>)
    ensures
        texts_of(v@) == lines_of(s@),
{
    let chars = chars_of(s);
    let bounds = split_lines(&chars);
    let mut v: Vec<&'a str> = Vec::new();
    let mut k: usize = 0;
    while k < bounds.len()
        invariant
            k <= bounds.len(),
            v@.len() == k,
            chars@ == s@,
            bounds@.len() == line_bounds(s@, 0).len(),
            forall|j: int|
                0 <= j < bounds@.len() ==> (#[trigger] bounds@[j]).0 == line_bounds(s@, 0)[j].0
                    && bounds@[j].1 == line_bounds(s@, 0)[j].1,
            forall|j: int|
                0 <= j < bounds@.len() ==> (#[trigger] bounds@[j]).0 <= bounds@[j].1 <= chars.len(),
            forall|j: int| 0 <= j < k ==> (#[trigger] v@[j])@ == lines_of(s@)[j],
        decreases bounds.len() - k,
    {
        let (from, to) = bounds[k];
        v.push(s.substring_char(from, to));
        k = k + 1;
    }
    proof {
        assert(texts_of(v@) =~= lines_of(s@));
    }
    v
}

/// Reads a stack trace: every line is trimmed and read as a frame. Lines
/// that hold no frame are left out; the frames keep the order of their
/// lines.
pub fn parse_stack_trace<'a>(trace_string: &'a str) -> (stacks: Vec<Stack<'a>>)
    ensures
        frame_views(stacks@) == frames_of(lines_of(trace_string@)),
{
    let all = lines(trace_string);
    proof {
        assert(texts_of(all@).skip(0) == texts_of(all@));
    }
    parse_lines_from(&all, 0)
}

/// The frames of the lines of `all` from index `skip` on.
fn parse_lines_from<'a>(all: &Vec<&'a str>, skip: usize) -> (stacks: Vec<Stack<'a>>)
    requires
        skip <= all.len(),
    ensures
        frame_views(stacks@) == frames_of(texts_of(all@).skip(skip as int)),
{
    let ghost texts = texts_of(all@);
    let mut stacks: Vec<Stack<'a>> = Vec::new();
    let mut k: usize = skip;
    proof {
        assert(texts.subrange(skip as int, skip as int) =~= Seq::<Seq<char>>::empty());
        assert(frame_views(stacks@) =~= Seq::<FrameView>::empty());
    }
    while k < all.len()
        invariant
            texts == texts_of(all@),
            skip <= k <= all.len(),
            frame_views(stacks@) == frames_of(texts.subrange(skip as int, k as int)),
        decreases all.len() - k,
    {
        let ghost before = texts.subrange(skip as int, k as int);
        let ghost upto = texts.subrange(skip as int, k + 1);
        proof {
            assert(upto.drop_last() == before);
            assert(upto.last() == all@[k as int]@);
        }
        match parse_stack_line(trim(all[k])) {
            Some(stack) => {
                proof {
                    assert(frame_views(stacks@.push(stack)) =~= frame_views(stacks@).push(stack@));
                }
                stacks.push(stack);
            },
            None => {},
        }
        k = k + 1;
    }
    proof {
        assert(texts.subrange(skip as int, k as int) == texts.skip(skip as int));
    }
    stacks
}

/// An error block: its text, its message and the frames of its trace.
#[derive(Debug)]
pub struct ErrorStack<'a> {
    /// The whole text.
    pub error_raw: &'a str,
    /// The frames, in the order of their lines.
    pub stacks: Vec<Stack<'a>>,
    /// The first line of the text.
    pub error_message: String,
}

/// The first line of `lines`, or the empty text where there is none.
pub open spec fn first_line(lines: Seq<Seq<char>>) -> Seq<char> {
    if lines.len() > 0 {
        lines[0]
    } else {
        Seq::empty()
    }
}

/// The lines after the first.
pub open spec fn later_lines(lines: Seq<Seq<char>>) -> Seq<Seq<char>> {
    if lines.len() > 0 {
        lines.skip(1)
    } else {
        lines
    }
}

impl<'a> ErrorStack<'a> {
    /// Splits an error block. The first line is the message, as it stands,
    /// and is never read as a frame. Every later line is trimmed and read
    /// as a frame; lines that hold none are left out.
    pub fn from_raw(error_raw: &'a str) -> (r: ErrorStack<'a>)
        ensures
            r.error_raw@ == error_raw@,
            r.error_message@ == first_line(lines_of(error_raw@)),
            frame_views(r.stacks@) == frames_of(later_lines(lines_of(error_raw@))),
    {
        let all = lines(error_raw);
        if all.len() > 0 {
            let error_message = all[0].to_owned();
            let stacks = parse_lines_from(&all, 1);
            ErrorStack { error_raw, stacks, error_message }
        } else {
            proof {
                assert(texts_of(all@).skip(0) == texts_of(all@));
            }
            let stacks = parse_lines_from(&all, 0);
            ErrorStack { error_raw, stacks, error_message: String::new() }
        }
    }
}

/// A part of a text has no more colons than the text.
pub proof fn lemma_colons_of_a_part(t: Seq<char>, from: int, to: int)
    requires
        0 <= from <= to <= t.len(),
    ensures
        colon_count(t.subrange(from, to)) <= colon_count(t),
    decreases t.len() + to,
{
    if to < t.len() {
        assert(t.drop_last().subrange(from, to) == t.subrange(from, to));
        lemma_colons_of_a_part(t.drop_last(), from, to);
    } else if from < to {
        assert(t.subrange(from, to).drop_last() == t.drop_last().subrange(from, to - 1));
        lemma_colons_of_a_part(t.drop_last(), from, to - 1);
    }
}

/// A text whose colons all stand at the index `i`, if it has any, has one
/// colon at most.
pub proof fn lemma_one_colon_at_most(t: Seq<char>, i: int)
    requires
        forall|k: int| 0 <= k < t.len() && k != i ==> #[trigger] t[k] != ':',
    ensures
        colon_count(t) <= 1,
        !(0 <= i < t.len()) ==> colon_count(t) == 0,
    decreases t.len(),
{
    if t.len() > 0 {
        let front = t.drop_last();
        assert forall|k: int| 0 <= k < front.len() && k != i implies #[trigger] front[k] != ':' by {
            assert(front[k] == t[k]);
        }
        if i == t.len() - 1 {
            lemma_one_colon_at_most(front, -1);
        } else {
            lemma_one_colon_at_most(front, i);
            assert(t.last() == t[t.len() - 1]);
        }
    }
}

/// A line with fewer than two colons holds no frame.
pub proof fn few_colons_hold_no_frame(raw: Seq<char>)
    requires
        colon_count(raw) < 2,
    ensures
        parse_line(raw) is None,
{
    lemma_trim_bounds(raw);
    lemma_colons_of_a_part(raw, crate::text::trim_bounds(raw).0, crate::text::trim_bounds(raw).1);
}

/// An error block is its message and its trace: in a text that is a first
/// line, a line feed and a trace, the first line is the message as it
/// stands, whether or not it has the shape of a frame, and the frames are
/// those of the trace. The first line holds no line feed and does not end
/// with a carriage return.
pub proof fn block_is_message_and_trace(message: Seq<char>, trace: Seq<char>)
    requires
        forall|k: int| 0 <= k < message.len() ==> #[trigger] message[k] != '\n',
        message.len() > 0 ==> message.last() != '\r',
    ensures
        first_line(lines_of(message + seq!['\n'] + trace)) == message,
        frames_of(later_lines(lines_of(message + seq!['\n'] + trace))) == frames_of(
            lines_of(trace),
        ),
{
    lemma_lines_after_the_first(message, trace);
    let all = lines_of(message + seq!['\n'] + trace);
    assert(all.skip(1) =~= lines_of(trace));
}


/// A line with one colon at most, wherever it stands, holds no frame.
pub proof fn one_colon_holds_no_frame(raw: Seq<char>, i: int)
    requires
        forall|k: int| 0 <= k < raw.len() && k != i ==> #[trigger] raw[k] != ':',
    ensures
        parse_line(raw) is None,
{
    lemma_one_colon_at_most(raw, i);
    few_colons_hold_no_frame(raw);
}


/// The frames of lines that follow one another are the frames of the
/// first lines followed by the frames of the others.
pub proof fn lemma_frames_of_joined(front: Seq<Seq<char>>, back: Seq<Seq<char>>)
    ensures
        frames_of(front + back) == frames_of(front) + frames_of(back),
    decreases back.len(),
{
    if back.len() == 0 {
        assert(front + back =~= front);
        assert(frames_of(front) + frames_of(back) =~= frames_of(front));
    } else {
        let all = front + back;
        assert(all.drop_last() =~= front + back.drop_last());
        assert(all.last() == back.last());
        lemma_frames_of_joined(front, back.drop_last());
        match parse_line(trimmed(back.last())) {
            Some(frame) => {
                assert((frames_of(front) + frames_of(back.drop_last())).push(frame) =~= frames_of(
                    front,
                ) + frames_of(back.drop_last()).push(frame));
            },
            None => {},
        }
    }
}

/// The frame of one line, as a sequence: the frame that the trimmed line
/// holds, or nothing.
pub open spec fn frames_of_line(line: Seq<char>) -> Seq<FrameView> {
    match parse_line(trimmed(line)) {
        Some(frame) => seq![frame],
        None => Seq::empty(),
    }
}

/// A trace is read line by line: the frames of a text that is a first
/// line, a line feed and more are the frame of the first line, if it
/// holds one, and then the frames of what follows the line feed. The
/// first line holds no line feed and does not end with a carriage return.
pub proof fn trace_is_read_line_by_line(first: Seq<char>, rest: Seq<char>)
    requires
        forall|k: int| 0 <= k < first.len() ==> #[trigger] first[k] != '\n',
        first.len() > 0 ==> first.last() != '\r',
    ensures
        frames_of(lines_of(first + seq!['\n'] + rest)) == frames_of_line(first) + frames_of(
            lines_of(rest),
        ),
{
    lemma_lines_after_the_first(first, rest);
    lemma_frames_of_joined(seq![first], lines_of(rest));
    let one = seq![first];
    assert(one.drop_last() =~= Seq::<Seq<char>>::empty());
    assert(frames_of(one.drop_last()) =~= Seq::<FrameView>::empty());
    assert(frames_of(one) =~= frames_of_line(first));
}

/// A trace of one line, without a line feed, holds the frame of that
/// line, if it holds one.
pub proof fn trace_of_one_line(line: Seq<char>)
    requires
        line.len() > 0,
        forall|k: int| 0 <= k < line.len() ==> #[trigger] line[k] != '\n',
    ensures
        frames_of(lines_of(line)) == frames_of_line(line),
{
    crate::text::lemma_one_line(line);
    let one = seq![line];
    assert(one.drop_last() =~= Seq::<Seq<char>>::empty());
    assert(frames_of(one.drop_last()) =~= Seq::<FrameView>::empty());
    assert(frames_of(one) =~= frames_of_line(line));
}

} // verus!
