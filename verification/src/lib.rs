//! Resolution of minified JavaScript stack traces back to original source
//! positions and the source lines around them.
//!
//! Stack text is read by [`stack_transform`]. The grammar of a frame line
//! is stated in [`frame_shapes`], over the characters and lines of
//! [`text`], and [`frame_laws`] proves what it promises. Positions are
//! looked up in a decoded mapping document through [`mapping`], the one
//! module whose contracts are believed and not proved; [`ranges`] decides
//! which lookups the range mappings of a document allow. [`context_lookup`]
//! and [`token_generator`] cut the window of source lines around a
//! position, [`sourcemap_unpacker`] lists the sources of a document, and
//! [`node_sdk`] resolves a whole error block whose frames each bring their
//! own mapping document. [`SourceMapParserClient`] binds one decoded
//! document to all of these.

pub mod context_lookup;
pub mod frame_laws;
pub mod frame_shapes;
pub mod mapping;
pub mod node_sdk;
pub mod ranges;
pub mod sourcemap_unpacker;
pub mod stack_transform;
pub mod text;
pub mod token_generator;

use crate::context_lookup::{build_snippet, snippet_at, ContextSnippet};
use crate::mapping::{
    decode_slice, decoded_slice, describe_error, mapping_of, marks_of, MappingView,
};
use crate::ranges::RangeGuard;
use crate::sourcemap_unpacker::{text_values, unpack_sources, unpacked};
use crate::stack_transform::{
    first_line, frame_views, frames_of, later_lines, parse_line, parse_stack_line,
    parse_stack_trace, ErrorStack, FrameView, Stack,
};
use crate::text::lines_of;
use crate::token_generator::{
    context_token_at, context_token_known, lookup_known, position_at, token_views, PositionView,
    SourceMapToken, Token, TokenView,
};
use vstd::hash_map::StringHashMap;
use vstd::prelude::*;
use vstd::string::StringExecFns;

verus! {

/// Why a client could not be made.
#[derive(Debug)]
pub enum ClientError {
    /// The mapping document does not decode; with the decoder's message.
    InvalidSourceMap(String),
}

impl ClientError {
    /// The error as a line of text: `invalid sourcemap: ` and the
    /// decoder's message.
    pub fn message(&self) -> (text: String)
        ensures
            self matches ClientError::InvalidSourceMap(reason) && text@ == "invalid sourcemap: "@
                + reason@,
    {
        match self {
            ClientError::InvalidSourceMap(reason) => {
                "invalid sourcemap: ".to_owned().concat(reason.as_str())
            },
        }
    }
}

/// One decoded mapping document, with the lookups that it answers.
pub struct SourceMapParserClient {
    sourcemap: sourcemap::SourceMap,
    /// What decides the lookups that the document's range mappings allow.
    guard: RangeGuard,
}

/// What a sequence of positions holds.
pub open spec fn position_views(positions: Seq<SourceMapToken>) -> Seq<PositionView> {
    positions.map_values(|p: SourceMapToken| p@)
}

/// The original position of the frame that the line `raw` holds: none
/// where it holds no frame, or the frame's position resolves to nothing.
pub open spec fn line_position(m: MappingView, raw: Seq<char>) -> Option<PositionView> {
    match parse_line(raw) {
        Some(frame) => position_at(m, frame.line, frame.column),
        None => None,
    }
}

/// The token, with `radius` lines of context, of the frame that the line
/// `raw` holds.
pub open spec fn line_token(m: MappingView, raw: Seq<char>, radius: u32) -> Option<TokenView> {
    match parse_line(raw) {
        Some(frame) => context_token_at(m, frame.line, frame.column, radius),
        None => None,
    }
}

/// The original positions of `frames`, in order; a frame whose position
/// resolves to nothing is left out.
pub open spec fn frame_positions(m: MappingView, frames: Seq<FrameView>) -> Seq<PositionView>
    decreases frames.len(),
{
    if frames.len() == 0 {
        Seq::empty()
    } else {
        match position_at(m, frames.last().line, frames.last().column) {
            Some(p) => frame_positions(m, frames.drop_last()).push(p),
            None => frame_positions(m, frames.drop_last()),
        }
    }
}

/// The tokens of `frames` with `radius` lines of context, in order; a
/// frame that resolves to none is left out.
pub open spec fn frame_tokens(m: MappingView, frames: Seq<FrameView>, radius: u32) -> Seq<
    TokenView,
>
    decreases frames.len(),
{
    if frames.len() == 0 {
        Seq::empty()
    } else {
        match context_token_at(m, frames.last().line, frames.last().column, radius) {
            Some(t) => frame_tokens(m, frames.drop_last(), radius).push(t),
            None => frame_tokens(m, frames.drop_last(), radius),
        }
    }
}

/// Whether `mapped` is the error block `raw`, resolved against the mapping
/// `m`: its first line as the message; its frames in `frames` where
/// `context_lines` is none, in `frames_with_context` where it is given,
/// and the other list empty.
pub open spec fn mapped_block(
    m: MappingView,
    raw: Seq<char>,
    context_lines: Option<u32>,
    mapped: MappedErrorStack,
) -> bool {
    &&& mapped.error_message@ == first_line(lines_of(raw))
    &&& match context_lines {
        Some(radius) => mapped.frames@.len() == 0 && token_views(mapped.frames_with_context@)
            == frame_tokens(m, frames_of(later_lines(lines_of(raw))), radius),
        None => mapped.frames_with_context@.len() == 0 && position_views(mapped.frames@)
            == frame_positions(m, frames_of(later_lines(lines_of(raw)))),
    }
}

/// An error block resolved against one mapping: its message, and the
/// original positions of its frames, either bare or with context.
#[derive(Clone, Debug)]
pub struct MappedErrorStack {
    /// The first line of the block.
    pub error_message: String,
    /// The positions of the frames, where no context was asked for.
    pub frames: Vec<SourceMapToken>,
    /// The tokens of the frames, where context was asked for.
    pub frames_with_context: Vec<Token>,
}

impl SourceMapParserClient {
    /// What is known of the document when it is bound.
    #[verifier::type_invariant]
    spec fn bound(&self) -> bool {
        self.guard.marks() == mapping_of(self.sourcemap).marks
    }

    /// What the bound mapping holds.
    pub closed spec fn view(&self) -> MappingView {
        mapping_of(self.sourcemap)
    }

    /// Decodes a mapping document and binds it. Fails with
    /// `InvalidSourceMap` exactly where the document does not decode.
    pub fn new(sourcemap_content: &[u8]) -> (r: Result<Self, ClientError>)
        ensures
            match r {
                Ok(client) => decoded_slice(sourcemap_content@) == Some(client@),
                Err(error) => decoded_slice(sourcemap_content@) is None
                    && error is InvalidSourceMap,
            },
    {
        match decode_slice(sourcemap_content) {
            Ok(sourcemap) => {
                let guard = RangeGuard::new(marks_of(&sourcemap));
                Ok(SourceMapParserClient { sourcemap, guard })
            },
            Err(error) => Err(ClientError::InvalidSourceMap(describe_error(&error))),
        }
    }

    /// The original position of a generated position. `line` is counted
    /// from 1, and 0 finds nothing.
    pub fn lookup_token(&self, line: u32, column: u32) -> (r: Option<SourceMapToken>)
        ensures
            match r {
                Some(token) => position_at(self@, line, column) == Some(token@),
                None => position_at(self@, line, column) is None,
            },
            line == 0 ==> r is None,
    {
        proof {
            use_type_invariant(self);
        }
        lookup_known(&self.sourcemap, &self.guard, line, column)
    }

    /// The text of every source that the mapping carries one for, by path.
    pub fn unpack_all_sources(&self) -> (r: StringHashMap<String>)
        ensures
            text_values(r@) == unpacked(self@.sources),
    {
        unpack_sources(&self.sourcemap)
    }

    /// The original position of a generated position, with `context_lines`
    /// lines of the source on each side of it.
    pub fn lookup_token_with_context(&self, line: u32, column: u32, context_lines: u32) -> (r:
        Option<Token>)
        ensures
            match r {
                Some(token) => context_token_at(self@, line, column, context_lines) == Some(
                    token@,
                ),
                None => context_token_at(self@, line, column, context_lines) is None,
            },
            line == 0 ==> r is None,
    {
        proof {
            use_type_invariant(self);
        }
        context_token_known(&self.sourcemap, &self.guard, line, column, context_lines)
    }

    /// The snippet of source around the original position of a generated
    /// position.
    pub fn lookup_context(&self, line: u32, column: u32, context_lines: u32) -> (r: Option<
        ContextSnippet,
    >)
        ensures
            match r {
                Some(snippet) => snippet_at(self@, line, column, context_lines) == Some(snippet@),
                None => snippet_at(self@, line, column, context_lines) is None,
            },
            line == 0 ==> r is None,
    {
        match self.lookup_token(line, column) {
            Some(position) => build_snippet(position, context_lines),
            None => None,
        }
    }

    /// Reads one stack line and resolves its position.
    pub fn map_stack_line(&self, stack_line: &str) -> (r: Option<SourceMapToken>)
        ensures
            match r {
                Some(token) => line_position(self@, stack_line@) == Some(token@),
                None => line_position(self@, stack_line@) is None,
            },
    {
        match parse_stack_line(stack_line) {
            Some(stack) => self.lookup_token(stack.line, stack.column),
            None => None,
        }
    }

    /// Reads one stack line and resolves its position, with context.
    pub fn map_stack_line_with_context(&self, stack_line: &str, context_lines: u32) -> (r: Option<
        Token,
    >)
        ensures
            match r {
                Some(token) => line_token(self@, stack_line@, context_lines) == Some(token@),
                None => line_token(self@, stack_line@, context_lines) is None,
            },
    {
        match parse_stack_line(stack_line) {
            Some(stack) => self.lookup_token_with_context(stack.line, stack.column, context_lines),
            None => None,
        }
    }

    /// The positions of `stacks`, in order, without those that resolve to
    /// nothing.
    pub(crate) fn positions_of(&self, stacks: &Vec<Stack>) -> (r: Vec<SourceMapToken>)
        ensures
            position_views(r@) == frame_positions(self@, frame_views(stacks@)),
    {
        let ghost frames = frame_views(stacks@);
        let mut r: Vec<SourceMapToken> = Vec::new();
        let mut k: usize = 0;
        proof {
            assert(frames.take(0) =~= Seq::empty());
            assert(position_views(r@) =~= frame_positions(self@, frames.take(0)));
        }
        while k < stacks.len()
            invariant
                k <= stacks.len(),
                frames == frame_views(stacks@),
                position_views(r@) == frame_positions(self@, frames.take(k as int)),
            decreases stacks.len() - k,
        {
            proof {
                assert(frames.take(k + 1).drop_last() == frames.take(k as int));
                assert(frames.take(k + 1).last() == stacks@[k as int]@);
            }
            match self.lookup_token(stacks[k].line, stacks[k].column) {
                Some(token) => {
                    proof {
                        assert(position_views(r@.push(token)) =~= position_views(r@).push(token@));
                    }
                    r.push(token);
                },
                None => {},
            }
            k = k + 1;
        }
        proof {
            assert(frames.take(k as int) == frames);
        }
        r
    }

    /// The tokens of `stacks`, in order, without those that resolve to
    /// none.
    pub(crate) fn tokens_of(&self, stacks: &Vec<Stack>, context_lines: u32) -> (r: Vec<Token>)
        ensures
            token_views(r@) == frame_tokens(self@, frame_views(stacks@), context_lines),
    {
        let ghost frames = frame_views(stacks@);
        let mut r: Vec<Token> = Vec::new();
        let mut k: usize = 0;
        proof {
            assert(frames.take(0) =~= Seq::empty());
            assert(token_views(r@) =~= frame_tokens(self@, frames.take(0), context_lines));
        }
        while k < stacks.len()
            invariant
                k <= stacks.len(),
                frames == frame_views(stacks@),
                token_views(r@) == frame_tokens(self@, frames.take(k as int), context_lines),
            decreases stacks.len() - k,
        {
            proof {
                assert(frames.take(k + 1).drop_last() == frames.take(k as int));
                assert(frames.take(k + 1).last() == stacks@[k as int]@);
            }
            match self.lookup_token_with_context(stacks[k].line, stacks[k].column, context_lines) {
                Some(token) => {
                    proof {
                        assert(token_views(r@.push(token)) =~= token_views(r@).push(token@));
                    }
                    r.push(token);
                },
                None => {},
            }
            k = k + 1;
        }
        proof {
            assert(frames.take(k as int) == frames);
        }
        r
    }

    /// Reads a stack trace, without a message line, and resolves the
    /// position of every frame. Lines that hold no frame and frames that
    /// resolve to nothing are left out.
    pub fn map_stack_trace(&self, trace: &str) -> (r: Vec<SourceMapToken>)
        ensures
            position_views(r@) == frame_positions(self@, frames_of(lines_of(trace@))),
    {
        let stacks = parse_stack_trace(trace);
        self.positions_of(&stacks)
    }

    /// Splits an error block and resolves its frames: into `frames` where
    /// `context_lines` is none, into `frames_with_context` where it is
    /// given. The other list stays empty. Frames that resolve to nothing
    /// are left out.
    pub fn map_error_stack(&self, error_stack_raw: &str, context_lines: Option<u32>) -> (r:
        MappedErrorStack)
        ensures
            mapped_block(self@, error_stack_raw@, context_lines, r),
    {
        let split = ErrorStack::from_raw(error_stack_raw);
        match context_lines {
            Some(radius) => {
                let frames_with_context = self.tokens_of(&split.stacks, radius);
                MappedErrorStack {
                    error_message: split.error_message,
                    frames: Vec::new(),
                    frames_with_context,
                }
            },
            None => {
                let frames = self.positions_of(&split.stacks);
                MappedErrorStack {
                    error_message: split.error_message,
                    frames,
                    frames_with_context: Vec::new(),
                }
            },
        }
    }
}

/// Resolving a frame shows its line: where the line `raw` holds a frame
/// whose position resolves in the mapping `m`, and `m` carries the text of
/// the source, the frame's token holds, for any radius, an entry with the
/// number of the original line, marked as the target, and marks no other
/// entry.
pub proof fn resolved_frame_shows_its_line(m: MappingView, raw: Seq<char>, radius: u32)
    requires
        line_position(m, raw) is Some,
        line_position(m, raw)->0.source_code is Some,
    ensures
        line_token(m, raw, radius) is Some,
        line_token(m, raw, radius)->0.line == line_position(m, raw)->0.line,
        exists|k: int|
            0 <= k < line_token(m, raw, radius)->0.source_code.len() && (#[trigger] line_token(
                m,
                raw,
                radius,
            )->0.source_code[k]).line == line_position(m, raw)->0.line && line_token(
                m,
                raw,
                radius,
            )->0.source_code[k].is_target,
        forall|k: int|
            0 <= k < line_token(m, raw, radius)->0.source_code.len() ==> ((#[trigger] line_token(
                m,
                raw,
                radius,
            )->0.source_code[k]).is_target <==> line_token(m, raw, radius)->0.source_code[k].line
                == line_position(m, raw)->0.line),
{
    let frame = parse_line(raw)->0;
    crate::token_generator::token_shows_its_line(m, frame.line, frame.column, radius);
    let token = context_token_at(m, frame.line, frame.column, radius)->0;
    let k = choose|k: int|
        0 <= k < token.source_code.len() && (#[trigger] token.source_code[k]).line == position_at(
            m,
            frame.line,
            frame.column,
        )->0.line && token.source_code[k].is_target;
    assert(line_token(m, raw, radius)->0.source_code[k].is_target);
}

} // verus!
