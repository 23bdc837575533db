//! The window of source lines around a position.

use crate::mapping::{mapping_of, MappingView};
use crate::text::{chars_of, line_bounds, lines_of, split_lines};
use crate::token_generator::{
    generate_source_map_token_from_map, path_or_empty, position_at, PositionView, SourceMapToken,
};
use vstd::prelude::*;
use vstd::string::StrSliceExecFns;

verus! {

/// One line of a context window.
#[derive(Clone, Debug)]
pub struct ContextLine {
    /// The line's number in the original source, counted from 0.
    pub line: u32,
    /// Whether this is the line that the position lies on.
    pub is_target: bool,
    /// The line's text; empty where the source has no such line.
    pub code: String,
}

/// What a [`ContextLine`] holds.
pub struct ContextLineView {
    pub line: u32,
    pub is_target: bool,
    pub code: Seq<char>,
}

impl View for ContextLine {
    type V = ContextLineView;

    open spec fn view(&self) -> ContextLineView {
        ContextLineView { line: self.line, is_target: self.is_target, code: self.code@ }
    }
}

/// An original position with the source lines around it.
#[derive(Clone, Debug)]
pub struct ContextSnippet {
    /// The path of the original source file; empty where the mapping names
    /// none.
    pub src: String,
    /// The original line, counted from 0.
    pub line: u32,
    /// The original column, counted from 0.
    pub column: u32,
    /// The window of lines around the position.
    pub context: Vec<ContextLine>,
}

/// What a [`ContextSnippet`] holds.
pub struct ContextSnippetView {
    pub src: Seq<char>,
    pub line: u32,
    pub column: u32,
    pub context: Seq<ContextLineView>,
}

/// What a sequence of context lines holds.
pub open spec fn context_views(lines: Seq<ContextLine>) -> Seq<ContextLineView> {
    lines.map_values(|l: ContextLine| l@)
}

impl View for ContextSnippet {
    type V = ContextSnippetView;

    open spec fn view(&self) -> ContextSnippetView {
        ContextSnippetView {
            src: self.src@,
            line: self.line,
            column: self.column,
            context: context_views(self.context@),
        }
    }
}

/// The first line of the window of `radius` lines around `target`: the
/// window is cut off at line 0.
pub open spec fn window_first(target: u32, radius: u32) -> int {
    if target >= radius {
        target - radius
    } else {
        0
    }
}

/// The last line of the window of `radius` lines around `target`. It is
/// never cut off at the end of the source, only at the last line number
/// that 32 bits can hold.
pub open spec fn window_last(target: u32, radius: u32) -> int {
    if target + radius <= u32::MAX {
        target + radius
    } else {
        u32::MAX as int
    }
}

/// The text of line `n` of `lines`; empty where there is no such line.
pub open spec fn line_text(lines: Seq<Seq<char>>, n: int) -> Seq<char> {
    if 0 <= n < lines.len() {
        lines[n]
    } else {
        Seq::empty()
    }
}

/// The window of `radius` lines around line `target` of `text`: one entry
/// for each line number from `window_first` to `window_last`, with the
/// line's text, or the empty text past the end of the source.
pub open spec fn context_window(text: Seq<char>, target: u32, radius: u32) -> Seq<
    ContextLineView,
> {
    Seq::new(
        (window_last(target, radius) - window_first(target, radius) + 1) as nat,
        |k: int|
            ContextLineView {
                line: (window_first(target, radius) + k) as u32,
                is_target: window_first(target, radius) + k == target,
                code: line_text(lines_of(text), window_first(target, radius) + k),
            },
    )
}

/// Cuts the window of `radius` lines around line `target_line`, counted
/// from 0, out of `source_text`.
pub fn extract_context(source_text: &str, target_line: u32, radius: u32) -> (window: Vec<
    ContextLine,
>)
    ensures
        context_views(window@) == context_window(source_text@, target_line, radius),
{
    let chars = chars_of(source_text);
    let bounds = split_lines(&chars);
    let first: u32 = if target_line >= radius {
        target_line - radius
    } else {
        0
    };
    let last: u32 = if radius <= u32::MAX - target_line {
        target_line + radius
    } else {
        u32::MAX
    };
    let ghost wanted = context_window(source_text@, target_line, radius);
    let mut window: Vec<ContextLine> = Vec::new();
    let mut n: u64 = first as u64;
    while n <= last as u64
        invariant
            first <= n <= last + 1,
            first == window_first(target_line, radius),
            last == window_last(target_line, radius),
            wanted == context_window(source_text@, target_line, radius),
            chars@ == source_text@,
            bounds@.len() == line_bounds(source_text@, 0).len(),
            forall|j: int|
                0 <= j < bounds@.len() ==> (#[trigger] bounds@[j]).0 == line_bounds(
                    source_text@,
                    0,
                )[j].0 && bounds@[j].1 == line_bounds(source_text@, 0)[j].1,
            forall|j: int|
                0 <= j < bounds@.len() ==> (#[trigger] bounds@[j]).0 <= bounds@[j].1 <= chars.len(),
            window@.len() == n - first,
            forall|k: int| 0 <= k < window@.len() ==> (#[trigger] window@[k])@ == wanted[k],
        decreases last + 1 - n,
    {
        let line: u32 = n as u32;
        let code = if (line as usize) < bounds.len() {
            let (from, to) = bounds[line as usize];
            source_text.substring_char(from, to).to_owned()
        } else {
            String::new()
        };
        window.push(ContextLine { line, is_target: line == target_line, code });
        n = n + 1;
    }
    proof {
        assert(context_views(window@) =~= wanted);
    }
    window
}

/// The snippet around the position `p`, with the line and column of `p`
/// as they are: none where the mapping carries no text for the source.
pub open spec fn snippet_of(p: PositionView, radius: u32) -> Option<ContextSnippetView> {
    match p.source_code {
        Some(text) => Some(
            ContextSnippetView {
                src: path_or_empty(p.src),
                line: p.line,
                column: p.column,
                context: context_window(text, p.line, radius),
            },
        ),
        None => None,
    }
}

/// The snippet around the original position of a generated position, given
/// as a line counted from 1 and a column counted from 0: none where the
/// position resolves to nothing, or has no snippet.
pub open spec fn snippet_at(m: MappingView, line: u32, column: u32, radius: u32) -> Option<
    ContextSnippetView,
> {
    match position_at(m, line, column) {
        Some(p) => snippet_of(p, radius),
        None => None,
    }
}

/// Builds the snippet around a position; `None` where the position
/// carries no source text.
pub fn build_snippet(position: SourceMapToken, radius: u32) -> (r: Option<ContextSnippet>)
    ensures
        match r {
            Some(snippet) => snippet_of(position@, radius) == Some(snippet@),
            None => snippet_of(position@, radius) is None,
        },
{
    let token = position;
    let source_text = match token.source_code {
        Some(text) => text,
        None => { return None; },
    };
    let src = match token.src {
        Some(path) => path,
        None => String::new(),
    };
    let context = extract_context(source_text.as_str(), token.line, radius);
    Some(ContextSnippet { src, line: token.line, column: token.column, context })
}

/// Looks a generated position up and cuts the window of `context_lines`
/// lines around its original line. `compile_line` is counted from 1, and 0
/// finds nothing.
pub fn lookup_context_from_sourcemap(
    sourcemap: &sourcemap::SourceMap,
    compile_line: u32,
    compile_column: u32,
    context_lines: u32,
) -> (r: Option<ContextSnippet>)
    ensures
        match r {
            Some(snippet) => snippet_at(
                mapping_of(*sourcemap),
                compile_line,
                compile_column,
                context_lines,
            ) == Some(snippet@),
            None => snippet_at(mapping_of(*sourcemap), compile_line, compile_column, context_lines)
                is None,
        },
        compile_line == 0 ==> r is None,
{
    match generate_source_map_token_from_map(sourcemap, compile_line, compile_column) {
        Some(position) => build_snippet(position, context_lines),
        None => None,
    }
}

/// With radius 0 the window is the target line alone, marked as the
/// target, whatever the text and wherever the target lies.
pub proof fn window_of_radius_zero(text: Seq<char>, target: u32)
    ensures
        context_window(text, target, 0) == seq![
            ContextLineView {
                line: target,
                is_target: true,
                code: line_text(lines_of(text), target as int),
            },
        ],
{
    assert(context_window(text, target, 0) =~= seq![
        ContextLineView {
            line: target,
            is_target: true,
            code: line_text(lines_of(text), target as int),
        },
    ]);
}

/// A window holds its target line, marks it, and marks no other line. Its
/// line numbers rise by one from entry to entry.
pub proof fn window_holds_target(text: Seq<char>, target: u32, radius: u32)
    ensures
        0 <= target - window_first(target, radius) < context_window(text, target, radius).len(),
        context_window(text, target, radius)[target - window_first(target, radius)]
            == (ContextLineView {
            line: target,
            is_target: true,
            code: line_text(lines_of(text), target as int),
        }),
        forall|k: int|
            0 <= k < context_window(text, target, radius).len() ==> (#[trigger] context_window(
                text,
                target,
                radius,
            )[k]).line == window_first(target, radius) + k && (context_window(
                text,
                target,
                radius,
            )[k].is_target <==> k == target - window_first(target, radius)),
{
}

/// A window is never cut off at the end of the source: where line numbers
/// allow, it has `radius` entries after its target, and every entry past
/// the last line of the source has the empty text.
pub proof fn window_runs_past_the_end(text: Seq<char>, target: u32, radius: u32)
    ensures
        target + radius <= u32::MAX ==> context_window(text, target, radius).len() == target
            - window_first(target, radius) + radius + 1,
        forall|k: int|
            0 <= k < context_window(text, target, radius).len() && window_first(target, radius) + k
                >= lines_of(text).len() ==> (#[trigger] context_window(
                text,
                target,
                radius,
            )[k]).code == Seq::<char>::empty(),
        forall|k: int|
            0 <= k < context_window(text, target, radius).len() && window_first(target, radius) + k
                < lines_of(text).len() ==> (#[trigger] context_window(text, target, radius)[k]).code
                == lines_of(text)[window_first(target, radius) + k],
{
}


/// The snippet of a position that resolves is never cut off at the end of
/// the source: where a generated position resolves, and the mapping
/// carries the text of the source, there is a snippet, with the line and
/// column of the position as they are; where line numbers allow, its
/// window has `radius` entries after the original line and as many before
/// as there are lines, up to `radius`; every entry past the last line of
/// the source has the empty text, and every other the text of its line.
pub proof fn snippet_runs_past_the_end(m: MappingView, line: u32, column: u32, radius: u32)
    requires
        position_at(m, line, column) is Some,
        position_at(m, line, column)->0.source_code is Some,
    ensures
        ({
            let p = position_at(m, line, column)->0;
            let text = p.source_code->0;
            let first = window_first(p.line, radius);
            &&& snippet_at(m, line, column, radius) matches Some(s) && s.line == p.line
                && s.column == p.column && s.context == context_window(text, p.line, radius)
            &&& first == if p.line >= radius {
                p.line - radius
            } else {
                0
            }
            &&& p.line + radius <= u32::MAX ==> context_window(text, p.line, radius).len()
                == p.line - first + radius + 1
            &&& forall|k: int|
                0 <= k < context_window(text, p.line, radius).len() ==> (#[trigger] context_window(
                    text,
                    p.line,
                    radius,
                )[k]).line == first + k && context_window(text, p.line, radius)[k].code
                    == line_text(lines_of(text), first + k)
        }),
{
    let p = position_at(m, line, column)->0;
    window_runs_past_the_end(p.source_code->0, p.line, radius);
}

} // verus!
