//! The operations that a host runtime calls, on plain values: one-shot
//! lookups that decode a mapping document per call, and the resolution of
//! a whole error block whose frames each bring their own document.
//!
//! The host supplies up to three capabilities. A formatter rewrites the
//! path of a frame's file; a resolver hands back the text of the mapping
//! document for a path; an error callback hears of every frame that could
//! not be given a document.

use crate::context_lookup::{snippet_at, ContextSnippet};
use crate::mapping::{decoded_slice, MappingView};
use crate::stack_transform::{
    first_line, frame_views, frames_of, later_lines, parse_line, parse_stack_line,
    parse_stack_trace, ErrorStack, FrameView, Stack,
};
use crate::text::lines_of;
use crate::token_generator::{
    context_token_at, get_stack_source, position_at, resolved_tokens, stack_source, task_token,
    token_views, GenerateTask, GenerateToken, SourceMapToken, TaskView, Token, TokenView,
};
use crate::{
    frame_positions, frame_tokens, line_position, line_token, mapped_block, position_views,
    ClientError, MappedErrorStack, SourceMapParserClient,
};
use vstd::prelude::*;

verus! {

/// What a resolver hands back for a path.
#[derive(Clone, Debug)]
pub enum ResolverReply {
    /// The text of a mapping document.
    Text(String),
    /// Something that is no text.
    NotText,
    /// An error, with its message where it has one.
    Failed(Option<String>),
}

/// What a [`ResolverReply`] holds.
pub enum ReplyView {
    Text(Seq<char>),
    NotText,
    Failed(Option<Seq<char>>),
}

impl View for ResolverReply {
    type V = ReplyView;

    open spec fn view(&self) -> ReplyView {
        match self {
            ResolverReply::Text(text) => ReplyView::Text(text@),
            ResolverReply::NotText => ReplyView::NotText,
            ResolverReply::Failed(Some(message)) => ReplyView::Failed(Some(message@)),
            ResolverReply::Failed(None) => ReplyView::Failed(None),
        }
    }
}

/// A frame that could not be given a mapping document, and why.
#[derive(Clone, Debug)]
pub struct GenerateFailStack {
    /// The text of the frame's line.
    pub original_raw: String,
    /// Why no document could be had.
    pub error_message: String,
}

/// What a [`GenerateFailStack`] holds.
pub struct FailView {
    pub original_raw: Seq<char>,
    pub error_message: Seq<char>,
}

impl View for GenerateFailStack {
    type V = FailView;

    open spec fn view(&self) -> FailView {
        FailView { original_raw: self.original_raw@, error_message: self.error_message@ }
    }
}

/// What a sequence of failures holds.
pub open spec fn fail_views(fails: Seq<GenerateFailStack>) -> Seq<FailView> {
    fails.map_values(|f: GenerateFailStack| f@)
}

/// How many lines of context the batch shows on each side of a position.
pub const CONTEXT_RADIUS: u32 = 5;

/// What becomes of one frame of a batch.
#[derive(Clone, Debug)]
pub enum FrameOutcome {
    /// A lookup in the document that the resolver gave.
    Task(GenerateTask),
    /// No document.
    Failure(GenerateFailStack),
}

/// The document that a reply brings: the text that the resolver handed
/// back, where it is a text and not empty.
pub open spec fn usable_text(reply: Option<ReplyView>) -> Option<Seq<char>> {
    match reply {
        Some(ReplyView::Text(content)) => if content.len() > 0 {
            Some(content)
        } else {
            None
        },
        _ => None,
    }
}

/// Why a frame has no document, given what the resolver handed back, or
/// `None` where there is no resolver; none where it has one. An empty text
/// is no document, no more than something that is no text.
pub open spec fn failure_reason(reply: Option<ReplyView>) -> Option<Seq<char>> {
    match reply {
        None => Some("no resolver provided"@),
        Some(ReplyView::Text(content)) => if content.len() > 0 {
            None
        } else {
            Some("resolver did not return string"@)
        },
        Some(ReplyView::NotText) => Some("resolver did not return string"@),
        Some(ReplyView::Failed(Some(message))) => Some(message),
        Some(ReplyView::Failed(None)) => Some("resolver error"@),
    }
}

/// The lookup that a frame asks for in the document `content`.
pub open spec fn frame_task(frame: FrameView, content: Seq<char>) -> TaskView {
    TaskView {
        source_map_content: content,
        line: frame.line,
        column: frame.column,
        source_line_offset: Some(CONTEXT_RADIUS),
    }
}

/// Decides what becomes of a frame, given what the resolver handed back
/// for its file, or `None` where there is no resolver. A text that is not
/// empty makes a task; anything else makes a failure with its reason.
pub fn classify_frame(stack: &Stack, reply: Option<ResolverReply>) -> (r: FrameOutcome)
    ensures
        match r {
            FrameOutcome::Task(task) => usable_text(reply_view(reply)) matches Some(content)
                && task@ == frame_task(stack@, content) && failure_reason(reply_view(reply))
                is None,
            FrameOutcome::Failure(fail) => failure_reason(reply_view(reply)) == Some(
                fail.error_message@,
            ) && fail.original_raw@ == stack.original_raw@ && usable_text(reply_view(reply))
                is None,
        },
{
    let error_message = match reply {
        None => "no resolver provided".to_owned(),
        Some(ResolverReply::Text(text)) => {
            if text.as_str().is_empty() {
                "resolver did not return string".to_owned()
            } else {
                return FrameOutcome::Task(
                    GenerateTask {
                        source_map_content: text,
                        line: stack.line,
                        column: stack.column,
                        source_line_offset: Some(CONTEXT_RADIUS),
                    },
                );
            }
        },
        Some(ResolverReply::NotText) => "resolver did not return string".to_owned(),
        Some(ResolverReply::Failed(Some(message))) => message,
        Some(ResolverReply::Failed(None)) => "resolver error".to_owned(),
    };
    FrameOutcome::Failure(
        GenerateFailStack { original_raw: stack.original_raw.to_owned(), error_message },
    )
}

/// What an optional reply holds.
pub open spec fn reply_view(reply: Option<ResolverReply>) -> Option<ReplyView> {
    match reply {
        Some(r) => Some(r@),
        None => None,
    }
}

/// The failures of a batch: for each frame whose reply gives a reason, the
/// frame's line and that reason, in the order of the frames. `replies`
/// holds, frame by frame, what the resolver handed back.
pub open spec fn batch_failures(frames: Seq<FrameView>, replies: Seq<Option<ReplyView>>) -> Seq<
    FailView,
>
    decreases frames.len(),
{
    if frames.len() == 0 || replies.len() != frames.len() {
        Seq::empty()
    } else {
        let before = batch_failures(frames.drop_last(), replies.drop_last());
        match failure_reason(replies.last()) {
            Some(reason) => before.push(
                FailView { original_raw: frames.last().original_raw, error_message: reason },
            ),
            None => before,
        }
    }
}

/// The tasks of a batch: for each frame whose reply is a text that is not
/// empty, the lookup of the frame's position in that text, in the order of
/// the frames.
pub open spec fn batch_tasks(frames: Seq<FrameView>, replies: Seq<Option<ReplyView>>) -> Seq<
    TaskView,
>
    decreases frames.len(),
{
    if frames.len() == 0 || replies.len() != frames.len() {
        Seq::empty()
    } else {
        let before = batch_tasks(frames.drop_last(), replies.drop_last());
        match usable_text(replies.last()) {
            Some(content) => before.push(frame_task(frames.last(), content)),
            None => before,
        }
    }
}

/// Whether `path` is a path that the resolver may be asked for the file
/// `source_file`: the file itself without a formatter, else something that
/// the formatter may make of it.
pub open spec fn may_format<F: Fn(String) -> Option<String>>(
    formatter: Option<F>,
    source_file: Seq<char>,
    path: String,
) -> bool {
    match formatter {
        Some(format) => exists|given: String|
            given@ == source_file && #[trigger] call_ensures(format, (given,), Some(path)),
        None => path@ == source_file,
    }
}

/// Whether the formatter, or the lack of one, may make a path of the file
/// `source_file`.
pub open spec fn can_format<F: Fn(String) -> Option<String>>(
    formatter: Option<F>,
    source_file: Seq<char>,
) -> bool {
    exists|path: String| may_format(formatter, source_file, path)
}

/// Whether the formatter may fail on the file `source_file`.
pub open spec fn may_fail_to_format<F: Fn(String) -> Option<String>>(
    formatter: Option<F>,
    source_file: Seq<char>,
) -> bool {
    match formatter {
        Some(format) => exists|given: String|
            given@ == source_file && #[trigger] call_ensures(format, (given,), None),
        None => false,
    }
}

/// Whether `reply` is what the two capabilities may hand back for the file
/// `source_file`: nothing without a resolver, else what the resolver may
/// answer for a path that the formatter may make. With a formatter there
/// is such a path, resolver or not.
pub open spec fn may_reply<F: Fn(String) -> Option<String>, R: Fn(String) -> ResolverReply>(
    formatter: Option<F>,
    resolver: Option<R>,
    source_file: Seq<char>,
    reply: Option<ReplyView>,
) -> bool {
    &&& match resolver {
        Some(resolve) => exists|path: String, answer: ResolverReply|
            may_format(formatter, source_file, path) && #[trigger] call_ensures(
                resolve,
                (path,),
                answer,
            ) && reply == Some(answer@),
        None => reply is None,
    }
    &&& formatter is Some ==> can_format(formatter, source_file)
}

/// Whether a batch may be given up at frame `k` of `frames` for the file
/// `file`: that is the file of frame `k`, the formatter may fail on it,
/// and it may make a path of the file of every frame before.
pub open spec fn gave_up_at<F: Fn(String) -> Option<String>>(
    formatter: Option<F>,
    frames: Seq<FrameView>,
    k: int,
    file: Seq<char>,
) -> bool {
    &&& 0 <= k < frames.len()
    &&& file == frames[k].source_file
    &&& may_fail_to_format(formatter, file)
    &&& forall|j: int| 0 <= j < k ==> can_format(formatter, (#[trigger] frames[j]).source_file)
}

/// Whether a batch may be given up for the file `file`: at some frame of
/// `frames`, see [`gave_up_at`].
pub open spec fn gave_up<F: Fn(String) -> Option<String>>(
    formatter: Option<F>,
    frames: Seq<FrameView>,
    file: Seq<char>,
) -> bool {
    exists|k: int| #[trigger] gave_up_at(formatter, frames, k, file)
}

/// A batch, resolved: the frames of the block, the tokens of the frames
/// that resolved, and the frames that could not be given a document.
#[derive(Debug)]
pub struct GenerateResult<'a> {
    /// Every frame of the block, in the order of the lines.
    pub stacks: Vec<Stack<'a>>,
    /// The tokens, in the order of their frames.
    pub success: Vec<Token>,
    /// The failures, in the order of their frames.
    pub fail: Vec<GenerateFailStack>,
}

/// Why a batch was given up.
#[derive(Debug)]
pub enum BatchError {
    /// The formatter failed on the file of a frame; with that file.
    FormatterFailure(String),
}

/// Whether the frames of a block, with `replies` for what the resolver
/// handed back frame by frame, resolve to `result`.
pub open spec fn batch_outcome(
    frames: Seq<FrameView>,
    replies: Seq<Option<ReplyView>>,
    result: GenerateResult,
) -> bool {
    &&& replies.len() == frames.len()
    &&& frame_views(result.stacks@) == frames
    &&& fail_views(result.fail@) == batch_failures(frames, replies)
    &&& token_views(result.success@) == resolved_tokens(batch_tasks(frames, replies))
}

/// Whether `replies` holds, frame by frame, what the two capabilities may
/// hand back for the files of `frames`.
pub open spec fn may_reply_all<F: Fn(String) -> Option<String>, R: Fn(String) -> ResolverReply>(
    formatter: Option<F>,
    resolver: Option<R>,
    frames: Seq<FrameView>,
    replies: Seq<Option<ReplyView>>,
) -> bool {
    &&& replies.len() == frames.len()
    &&& forall|k: int|
        0 <= k < replies.len() ==> may_reply(
            formatter,
            resolver,
            frames[k].source_file,
            #[trigger] replies[k],
        )
}

/// Whether `result` is what a batch over `frames` may come to with the two
/// capabilities: there are replies that they may hand back, frame by
/// frame, with which the frames resolve to `result`.
pub open spec fn may_resolve_to<F: Fn(String) -> Option<String>, R: Fn(String) -> ResolverReply>(
    formatter: Option<F>,
    resolver: Option<R>,
    frames: Seq<FrameView>,
    result: GenerateResult,
) -> bool {
    exists|replies: Seq<Option<ReplyView>>|
        #[trigger] may_reply_all(formatter, resolver, frames, replies) && batch_outcome(
            frames,
            replies,
            result,
        )
}

/// The frames of an error block.
pub open spec fn block_frames(stack_raw: Seq<char>) -> Seq<FrameView> {
    frames_of(later_lines(lines_of(stack_raw)))
}

/// Whether every frame of `result` failed for want of a resolver: one
/// failure for each frame, in order, with the frame's line and the reason
/// `no resolver provided`, and no token.
pub open spec fn every_frame_failed(result: GenerateResult) -> bool {
    &&& result.success@.len() == 0
    &&& result.fail@.len() == result.stacks@.len()
    &&& forall|k: int|
        0 <= k < result.fail@.len() ==> (#[trigger] result.fail@[k]).error_message@
            == "no resolver provided"@ && result.fail@[k].original_raw@
            == result.stacks@[k].original_raw@
}

/// The token of a frame, given what the resolver handed back for its
/// file: that of the frame's position in the document that the reply
/// brings; none where it brings none or the position does not resolve.
pub open spec fn frame_token(reply: Option<ReplyView>, frame: FrameView) -> Option<TokenView> {
    match usable_text(reply) {
        Some(content) => task_token(frame_task(frame, content)),
        None => None,
    }
}

/// Whether each of `frames` resolves in its own document: whatever the two
/// capabilities may hand back for the file of a frame is a document in
/// which the position of that frame resolves to a token.
pub open spec fn resolves_each_frame<F: Fn(String) -> Option<String>, R: Fn(String) -> ResolverReply>(
    formatter: Option<F>,
    resolver: Option<R>,
    frames: Seq<FrameView>,
) -> bool {
    forall|k: int, reply: Option<ReplyView>|
        0 <= k < frames.len() && #[trigger] may_reply(
            formatter,
            resolver,
            frames[k].source_file,
            reply,
        ) ==> frame_token(reply, frames[k]) is Some
}

/// Whether `token` is a token that `frame` may resolve to with the two
/// capabilities: its token in a document that they may hand back for its
/// file.
pub open spec fn may_be_token_of<F: Fn(String) -> Option<String>, R: Fn(String) -> ResolverReply>(
    formatter: Option<F>,
    resolver: Option<R>,
    frame: FrameView,
    token: TokenView,
) -> bool {
    exists|reply: Option<ReplyView>|
        #[trigger] may_reply(formatter, resolver, frame.source_file, reply) && frame_token(
            reply,
            frame,
        ) == Some(token)
}

/// Whether every frame of `result` resolved: no failure, and one token for
/// each frame, in the order of the frames, each the token of its frame in
/// the frame's own document.
pub open spec fn every_frame_resolved<F: Fn(String) -> Option<String>, R: Fn(String) -> ResolverReply>(
    formatter: Option<F>,
    resolver: Option<R>,
    result: GenerateResult,
) -> bool {
    &&& result.fail@.len() == 0
    &&& result.success@.len() == result.stacks@.len()
    &&& forall|k: int|
        0 <= k < result.success@.len() ==> may_be_token_of(
            formatter,
            resolver,
            result.stacks@[k]@,
            (#[trigger] result.success@[k])@,
        )
}

/// Asks the capabilities for the mapping document of a frame: the
/// formatter, where there is one, for the path, and the resolver, where
/// there is one, for the document of that path. Fails with the frame's
/// file where the formatter fails.
fn ask_for_document<F, R>(stack: &Stack, formatter: &Option<F>, resolver: &Option<R>) -> (r: Result<
    Option<ResolverReply>,
    String,
>) where F: Fn(String) -> Option<String>, R: Fn(String) -> ResolverReply
    requires
        formatter matches Some(format) ==> forall|path: String| call_requires(format, (path,)),
        resolver matches Some(resolve) ==> forall|path: String| call_requires(resolve, (path,)),
    ensures
        match r {
            Ok(reply) => may_reply(*formatter, *resolver, stack@.source_file, reply_view(reply)),
            Err(file) => file@ == stack@.source_file && may_fail_to_format(*formatter, file@),
        },
        formatter is None ==> r is Ok,
{
    let given = stack.source_file.to_owned();
    let path = match formatter {
        Some(format) => match format(given) {
            Some(path) => path,
            None => {
                return Err(stack.source_file.to_owned());
            },
        },
        None => given,
    };
    proof {
        assert(may_format(*formatter, stack@.source_file, path));
    }
    match resolver {
        Some(resolve) => Ok(Some(resolve(path))),
        None => Ok(None),
    }
}

/// The tasks and the failures of a batch, with what the resolver handed
/// back frame by frame.
struct Classified {
    generator: GenerateToken,
    fail: Vec<GenerateFailStack>,
    replies: Ghost<Seq<Option<ReplyView>>>,
}

/// Classifies every frame, in order: a task for each frame that got a
/// text, a failure for each other, which the error callback hears of at
/// once.
fn classify_frames<F, R, E>(
    stacks: &Vec<Stack>,
    formatter: &Option<F>,
    resolver: &Option<R>,
    on_error: &Option<E>,
) -> (r: Result<Classified, BatchError>) where
    F: Fn(String) -> Option<String>,
    R: Fn(String) -> ResolverReply,
    E: Fn(String, String) -> (),

    requires
        formatter matches Some(format) ==> forall|path: String| call_requires(format, (path,)),
        resolver matches Some(resolve) ==> forall|path: String| call_requires(resolve, (path,)),
        on_error matches Some(notify) ==> forall|line: String, reason: String|
            call_requires(notify, (line, reason)),
    ensures
        match r {
            Ok(done) => {
                &&& may_reply_all(*formatter, *resolver, frame_views(stacks@), done.replies@)
                &&& fail_views(done.fail@) == batch_failures(frame_views(stacks@), done.replies@)
                &&& done.generator.tasks() == batch_tasks(frame_views(stacks@), done.replies@)
                &&& done.generator.tokens() == Seq::<TokenView>::empty()
            },
            Err(BatchError::FormatterFailure(file)) => gave_up(
                *formatter,
                frame_views(stacks@),
                file@,
            ),
        },
        formatter is None ==> r is Ok,
{
    let ghost frames = frame_views(stacks@);
    let mut generator = GenerateToken::new();
    let mut fail: Vec<GenerateFailStack> = Vec::new();
    let ghost mut replies: Seq<Option<ReplyView>> = Seq::empty();
    let mut k: usize = 0;
    proof {
        assert(frames.take(0) =~= Seq::<FrameView>::empty());
        assert(fail_views(fail@) =~= batch_failures(frames.take(0), replies));
        assert(generator.tasks() =~= batch_tasks(frames.take(0), replies));
    }
    while k < stacks.len()
        invariant
            k <= stacks.len(),
            frames == frame_views(stacks@),
            formatter matches Some(format) ==> forall|path: String| call_requires(format, (path,)),
            resolver matches Some(resolve) ==> forall|path: String|
                call_requires(resolve, (path,)),
            on_error matches Some(notify) ==> forall|line: String, reason: String|
                call_requires(notify, (line, reason)),
            may_reply_all(*formatter, *resolver, frames.take(k as int), replies),
            fail_views(fail@) == batch_failures(frames.take(k as int), replies),
            generator.tasks() == batch_tasks(frames.take(k as int), replies),
            generator.tokens() == Seq::<TokenView>::empty(),
        decreases stacks.len() - k,
    {
        let stack = &stacks[k];
        let reply = match ask_for_document(stack, formatter, resolver) {
            Ok(reply) => reply,
            Err(file) => {
                proof {
                    assert(frames[k as int] == stack@);
                    assert forall|j: int| 0 <= j < k implies can_format(
                        *formatter,
                        (#[trigger] frames[j]).source_file,
                    ) by {
                        assert(frames.take(k as int)[j] == frames[j]);
                        assert(may_reply(
                            *formatter,
                            *resolver,
                            frames.take(k as int)[j].source_file,
                            replies[j],
                        ));
                    }
                    assert(gave_up_at(*formatter, frames, k as int, file@));
                }
                return Err(BatchError::FormatterFailure(file));
            },
        };
        let ghost longer = replies.push(reply_view(reply));
        proof {
            assert(frames.take(k + 1).drop_last() == frames.take(k as int));
            assert(frames.take(k + 1).last() == stack@);
            assert(longer.drop_last() == replies);
            assert forall|j: int| 0 <= j < longer.len() implies may_reply(
                *formatter,
                *resolver,
                frames.take(k + 1)[j].source_file,
                #[trigger] longer[j],
            ) by {
                if j < k {
                    assert(frames.take(k as int)[j] == frames.take(k + 1)[j]);
                    assert(longer[j] == replies[j]);
                }
            }
        }
        match classify_frame(stack, reply) {
            FrameOutcome::Task(task) => {
                generator.add_task(task);
            },
            FrameOutcome::Failure(failure) => {
                match on_error {
                    Some(notify) => {
                        notify(failure.original_raw.clone(), failure.error_message.clone());
                    },
                    None => {},
                }
                proof {
                    assert(fail_views(fail@.push(failure)) =~= fail_views(fail@).push(failure@));
                }
                fail.push(failure);
            },
        }
        proof {
            replies = longer;
        }
        k = k + 1;
    }
    proof {
        assert(frames.take(k as int) == frames);
    }
    Ok(Classified { generator, fail, replies: Ghost(replies) })
}

/// What follows for a batch from its outcome: every frame is accounted
/// for; without a resolver every frame failed; where each frame resolves
/// in its own document none did.
proof fn lemma_batch_clauses<F, R>(
    formatter: Option<F>,
    resolver: Option<R>,
    frames: Seq<FrameView>,
    replies: Seq<Option<ReplyView>>,
    result: GenerateResult,
) where F: Fn(String) -> Option<String>, R: Fn(String) -> ResolverReply
    requires
        may_reply_all(formatter, resolver, frames, replies),
        batch_outcome(frames, replies, result),
    ensures
        result.fail@.len() + result.success@.len() <= result.stacks@.len(),
        resolver is None ==> every_frame_failed(result),
        resolves_each_frame(formatter, resolver, frames) ==> every_frame_resolved(
            formatter,
            resolver,
            result,
        ),
{
    every_frame_is_accounted_for(frames, replies);
    assert(fail_views(result.fail@).len() + token_views(result.success@).len() <= frame_views(
        result.stacks@,
    ).len());
    if resolver is None {
        assert forall|j: int| 0 <= j < replies.len() implies #[trigger] replies[j] is None by {
            assert(may_reply(formatter, resolver, frames[j].source_file, replies[j]));
        }
        without_resolver_every_frame_fails(frames, replies);
        assert forall|j: int| 0 <= j < result.fail@.len() implies (
        #[trigger] result.fail@[j]).error_message@ == "no resolver provided"@
            && result.fail@[j].original_raw@ == result.stacks@[j].original_raw@ by {
            assert(fail_views(result.fail@)[j] == batch_failures(frames, replies)[j]);
            assert(frame_views(result.stacks@)[j] == frames[j]);
        }
    }
    if resolves_each_frame(formatter, resolver, frames) {
        assert forall|j: int| 0 <= j < replies.len() implies frame_token(
            #[trigger] replies[j],
            frames[j],
        ) is Some by {
            assert(may_reply(formatter, resolver, frames[j].source_file, replies[j]));
        }
        with_documents_every_frame_resolves(frames, replies);
        assert(fail_views(result.fail@).len() == 0);
        assert(token_views(result.success@).len() == frame_views(result.stacks@).len());
        assert forall|j: int| 0 <= j < result.success@.len() implies may_be_token_of(
            formatter,
            resolver,
            result.stacks@[j]@,
            (#[trigger] result.success@[j])@,
        ) by {
            assert(frame_views(result.stacks@)[j] == frames[j]);
            assert(token_views(result.success@)[j] == result.success@[j]@);
            assert(may_reply(formatter, resolver, frames[j].source_file, replies[j]));
            assert(frame_token(replies[j], frames[j]) == Some(result.success@[j]@));
        }
    }
}

/// Resolves every frame of an error block, each against the mapping
/// document that the resolver hands back for the frame's file.
///
/// Frame by frame, in order: the formatter, where there is one, rewrites
/// the file's path; the resolver is asked for the document of that path.
/// A text that is not empty makes a task. Anything else, or the lack of a
/// resolver, makes a failure, which the error callback hears of at once. When every frame is
/// through, the tasks are resolved with [`CONTEXT_RADIUS`] lines of
/// context; a task that resolves to nothing leaves no trace.
///
/// A formatter that fails on a frame ends the batch with
/// `FormatterFailure`.
pub fn generate_token_by_stack_raw<'a, F, R, E>(
    stack_raw: &'a str,
    formatter: Option<F>,
    resolver: Option<R>,
    on_error: Option<E>,
) -> (r: Result<GenerateResult<'a>, BatchError>) where
    F: Fn(String) -> Option<String>,
    R: Fn(String) -> ResolverReply,
    E: Fn(String, String) -> (),

    requires
        formatter matches Some(format) ==> forall|path: String| call_requires(format, (path,)),
        resolver matches Some(resolve) ==> forall|path: String| call_requires(resolve, (path,)),
        on_error matches Some(notify) ==> forall|line: String, reason: String|
            call_requires(notify, (line, reason)),
    ensures
        match r {
            Ok(result) => may_resolve_to(formatter, resolver, block_frames(stack_raw@), result),
            Err(BatchError::FormatterFailure(file)) => gave_up(
                formatter,
                block_frames(stack_raw@),
                file@,
            ),
        },
        formatter is None ==> r is Ok,
        r matches Ok(result) ==> result.fail@.len() + result.success@.len()
            <= result.stacks@.len(),
        resolver is None ==> (r matches Ok(result) ==> every_frame_failed(result)),
        resolves_each_frame(formatter, resolver, block_frames(stack_raw@)) ==> (r matches Ok(
            result,
        ) ==> every_frame_resolved(formatter, resolver, result)),
{
    let error_stack = ErrorStack::from_raw(stack_raw);
    let ghost frames = block_frames(stack_raw@);
    let done = match classify_frames(&error_stack.stacks, &formatter, &resolver, &on_error) {
        Ok(done) => done,
        Err(error) => {
            return Err(error);
        },
    };
    let ghost replies = done.replies@;
    let mut generator = done.generator;
    generator.generate();
    let success = generator.get_tokens();
    let result = GenerateResult { stacks: error_stack.stacks, success, fail: done.fail };
    proof {
        assert(Seq::<TokenView>::empty() + resolved_tokens(batch_tasks(frames, replies))
            =~= resolved_tokens(batch_tasks(frames, replies)));
        assert(batch_outcome(frames, replies, result));
        lemma_batch_clauses(formatter, resolver, frames, replies, result);
    }
    Ok(result)
}

/// Resolves one generated position against the mapping document
/// `source_map_content`, with `context_offset` lines of context, or the
/// original line alone where no offset is given.
pub fn generate_token_by_single_stack(
    line: u32,
    column: u32,
    source_map_content: String,
    context_offset: Option<u32>,
) -> (r: Option<Token>)
    ensures
        match r {
            Some(token) => stack_source(source_map_content@, line, column, context_offset)
                == Some(token@),
            None => stack_source(source_map_content@, line, column, context_offset) is None,
        },
        line == 0 ==> r is None,
{
    get_stack_source(source_map_content.as_str(), line, column, context_offset)
}

/// What the bytes of the text `content` decode to.
pub open spec fn text_mapping(content: Seq<char>) -> Option<MappingView> {
    decoded_slice(vstd::utf8::encode_utf8(content))
}

/// Whether the line `raw` asks for a lookup: it holds a frame, and the
/// frame's line is not 0.
pub open spec fn line_asks_for_lookup(raw: Seq<char>) -> bool {
    parse_line(raw) matches Some(frame) && frame.line != 0
}

/// Whether any of `frames` asks for a lookup: has a line that is not 0.
pub open spec fn asks_for_lookup(frames: Seq<FrameView>) -> bool {
    exists|k: int| 0 <= k < frames.len() && (#[trigger] frames[k]).line != 0
}

/// Whether any of `stacks` asks for a lookup.
pub fn any_asks_for_lookup(stacks: &Vec<Stack>) -> (b: bool)
    ensures
        b == asks_for_lookup(frame_views(stacks@)),
{
    let mut k: usize = 0;
    while k < stacks.len()
        invariant
            k <= stacks.len(),
            forall|j: int| 0 <= j < k ==> (#[trigger] frame_views(stacks@)[j]).line == 0,
        decreases stacks.len() - k,
    {
        if stacks[k].line != 0 {
            assert(frame_views(stacks@)[k as int].line != 0);
            return true;
        }
        k = k + 1;
    }
    false
}

/// Frames that ask for no lookup resolve to nothing, whatever the mapping.
pub proof fn idle_frames_resolve_to_nothing(m: MappingView, frames: Seq<FrameView>, radius: u32)
    requires
        !asks_for_lookup(frames),
    ensures
        frame_positions(m, frames).len() == 0,
        frame_tokens(m, frames, radius).len() == 0,
    decreases frames.len(),
{
    if frames.len() > 0 {
        let front = frames.drop_last();
        assert forall|k: int| 0 <= k < front.len() implies (#[trigger] front[k]).line == 0 by {
            assert(frames[k].line == 0);
        }
        idle_frames_resolve_to_nothing(m, front, radius);
        assert(frames[frames.len() - 1].line == 0);
    }
}

/// Looks a generated position up in a mapping document. For line 0 the
/// document is not decoded, and nothing is found. Else the document is
/// decoded, which fails with `InvalidSourceMap` exactly where it does not
/// decode, and the position is looked up.
pub fn lookup_token(source_map_content: &str, line: u32, column: u32) -> (r: Result<
    Option<SourceMapToken>,
    ClientError,
>)
    ensures
        line == 0 ==> r matches Ok(None),
        line != 0 ==> match r {
            Ok(found) => text_mapping(source_map_content@) matches Some(m) && match found {
                Some(token) => position_at(m, line, column) == Some(token@),
                None => position_at(m, line, column) is None,
            },
            Err(error) => text_mapping(source_map_content@) is None && error is InvalidSourceMap,
        },
{
    if line == 0 {
        return Ok(None);
    }
    match SourceMapParserClient::new(source_map_content.as_bytes()) {
        Ok(client) => Ok(client.lookup_token(line, column)),
        Err(error) => Err(error),
    }
}

/// Looks a generated position up in a mapping document, with context. For
/// line 0 the document is not decoded, and nothing is found.
pub fn lookup_token_with_context(
    source_map_content: &str,
    line: u32,
    column: u32,
    context_lines: u32,
) -> (r: Result<Option<Token>, ClientError>)
    ensures
        line == 0 ==> r matches Ok(None),
        line != 0 ==> match r {
            Ok(found) => text_mapping(source_map_content@) matches Some(m) && match found {
                Some(token) => context_token_at(m, line, column, context_lines) == Some(token@),
                None => context_token_at(m, line, column, context_lines) is None,
            },
            Err(error) => text_mapping(source_map_content@) is None && error is InvalidSourceMap,
        },
{
    if line == 0 {
        return Ok(None);
    }
    match SourceMapParserClient::new(source_map_content.as_bytes()) {
        Ok(client) => Ok(client.lookup_token_with_context(line, column, context_lines)),
        Err(error) => Err(error),
    }
}

/// Cuts the snippet around the original position of a generated position
/// in a mapping document. For line 0 the document is not decoded, and
/// nothing is found.
pub fn lookup_context(source_map_content: &str, line: u32, column: u32, context_lines: u32) -> (r:
    Result<Option<ContextSnippet>, ClientError>)
    ensures
        line == 0 ==> r matches Ok(None),
        line != 0 ==> match r {
            Ok(found) => text_mapping(source_map_content@) matches Some(m) && match found {
                Some(snippet) => snippet_at(m, line, column, context_lines) == Some(snippet@),
                None => snippet_at(m, line, column, context_lines) is None,
            },
            Err(error) => text_mapping(source_map_content@) is None && error is InvalidSourceMap,
        },
{
    if line == 0 {
        return Ok(None);
    }
    match SourceMapParserClient::new(source_map_content.as_bytes()) {
        Ok(client) => Ok(client.lookup_context(line, column, context_lines)),
        Err(error) => Err(error),
    }
}

/// Reads one stack line and resolves its position in a mapping document.
/// Where the line holds no frame, or a frame whose line is 0, the document
/// is not decoded, and nothing is found.
pub fn map_stack_line(source_map_content: &str, stack_line: &str) -> (r: Result<
    Option<SourceMapToken>,
    ClientError,
>)
    ensures
        !line_asks_for_lookup(stack_line@) ==> r matches Ok(None),
        line_asks_for_lookup(stack_line@) ==> match r {
            Ok(found) => text_mapping(source_map_content@) matches Some(m) && match found {
                Some(token) => line_position(m, stack_line@) == Some(token@),
                None => line_position(m, stack_line@) is None,
            },
            Err(error) => text_mapping(source_map_content@) is None && error is InvalidSourceMap,
        },
{
    let stack = match parse_stack_line(stack_line) {
        Some(stack) => stack,
        None => { return Ok(None); },
    };
    if stack.line == 0 {
        return Ok(None);
    }
    match SourceMapParserClient::new(source_map_content.as_bytes()) {
        Ok(client) => Ok(client.lookup_token(stack.line, stack.column)),
        Err(error) => Err(error),
    }
}

/// Reads one stack line and resolves its position in a mapping document,
/// with context. Where the line holds no frame, or a frame whose line is
/// 0, the document is not decoded, and nothing is found.
pub fn map_stack_line_with_context(
    source_map_content: &str,
    stack_line: &str,
    context_lines: u32,
) -> (r: Result<Option<Token>, ClientError>)
    ensures
        !line_asks_for_lookup(stack_line@) ==> r matches Ok(None),
        line_asks_for_lookup(stack_line@) ==> match r {
            Ok(found) => text_mapping(source_map_content@) matches Some(m) && match found {
                Some(token) => line_token(m, stack_line@, context_lines) == Some(token@),
                None => line_token(m, stack_line@, context_lines) is None,
            },
            Err(error) => text_mapping(source_map_content@) is None && error is InvalidSourceMap,
        },
{
    let stack = match parse_stack_line(stack_line) {
        Some(stack) => stack,
        None => { return Ok(None); },
    };
    if stack.line == 0 {
        return Ok(None);
    }
    match SourceMapParserClient::new(source_map_content.as_bytes()) {
        Ok(client) => Ok(
            client.lookup_token_with_context(stack.line, stack.column, context_lines),
        ),
        Err(error) => Err(error),
    }
}

/// Resolves every frame of a stack trace in a mapping document. Where no
/// frame has a line other than 0, the document is not decoded, and nothing
/// is found.
pub fn map_stack_trace(source_map_content: &str, stack_trace: &str) -> (r: Result<
    Vec<SourceMapToken>,
    ClientError,
>)
    ensures
        !asks_for_lookup(frames_of(lines_of(stack_trace@))) ==> (r matches Ok(found)
            && found@.len() == 0),
        asks_for_lookup(frames_of(lines_of(stack_trace@))) ==> match r {
            Ok(found) => text_mapping(source_map_content@) matches Some(m) && position_views(
                found@,
            ) == frame_positions(m, frames_of(lines_of(stack_trace@))),
            Err(error) => text_mapping(source_map_content@) is None && error is InvalidSourceMap,
        },
{
    let stacks = parse_stack_trace(stack_trace);
    if !any_asks_for_lookup(&stacks) {
        return Ok(Vec::new());
    }
    match SourceMapParserClient::new(source_map_content.as_bytes()) {
        Ok(client) => Ok(client.positions_of(&stacks)),
        Err(error) => Err(error),
    }
}

/// Resolves the frames of an error block in a mapping document. Where no
/// frame has a line other than 0, the document is not decoded; the block
/// has its message and no frame resolved.
pub fn map_error_stack(
    source_map_content: &str,
    error_stack_raw: &str,
    context_lines: Option<u32>,
) -> (r: Result<MappedErrorStack, ClientError>)
    ensures
        !asks_for_lookup(block_frames(error_stack_raw@)) ==> (r matches Ok(mapped)
            && mapped.error_message@ == first_line(lines_of(error_stack_raw@))
            && mapped.frames@.len() == 0 && mapped.frames_with_context@.len() == 0),
        asks_for_lookup(block_frames(error_stack_raw@)) ==> match r {
            Ok(mapped) => text_mapping(source_map_content@) matches Some(m) && mapped_block(
                m,
                error_stack_raw@,
                context_lines,
                mapped,
            ),
            Err(error) => text_mapping(source_map_content@) is None && error is InvalidSourceMap,
        },
{
    let split = ErrorStack::from_raw(error_stack_raw);
    if !any_asks_for_lookup(&split.stacks) {
        return Ok(
            MappedErrorStack {
                error_message: split.error_message,
                frames: Vec::new(),
                frames_with_context: Vec::new(),
            },
        );
    }
    let client = match SourceMapParserClient::new(source_map_content.as_bytes()) {
        Ok(client) => client,
        Err(error) => { return Err(error); },
    };
    match context_lines {
        Some(radius) => {
            let frames_with_context = client.tokens_of(&split.stacks, radius);
            Ok(
                MappedErrorStack {
                    error_message: split.error_message,
                    frames: Vec::new(),
                    frames_with_context,
                },
            )
        },
        None => {
            let frames = client.positions_of(&split.stacks);
            Ok(
                MappedErrorStack {
                    error_message: split.error_message,
                    frames,
                    frames_with_context: Vec::new(),
                },
            )
        },
    }
}

/// Without a resolver every frame fails, and for one reason: where no
/// frame has a reply, there is one failure for each frame, in order, with
/// the frame's line and the reason `no resolver provided`, and no token.
pub proof fn without_resolver_every_frame_fails(
    frames: Seq<FrameView>,
    replies: Seq<Option<ReplyView>>,
)
    requires
        replies.len() == frames.len(),
        forall|k: int| 0 <= k < replies.len() ==> #[trigger] replies[k] is None,
    ensures
        batch_failures(frames, replies).len() == frames.len(),
        forall|k: int|
            0 <= k < frames.len() ==> #[trigger] batch_failures(frames, replies)[k] == (FailView {
                original_raw: frames[k].original_raw,
                error_message: "no resolver provided"@,
            }),
        batch_tasks(frames, replies).len() == 0,
        resolved_tokens(batch_tasks(frames, replies)).len() == 0,
    decreases frames.len(),
{
    if frames.len() > 0 {
        without_resolver_every_frame_fails(frames.drop_last(), replies.drop_last());
        assert(replies.last() is None);
    }
}

/// With a document for every frame no frame fails: where every reply is a
/// text that is not empty, there is no failure and one task for each
/// frame, in order.
pub proof fn with_texts_no_frame_fails(frames: Seq<FrameView>, replies: Seq<Option<ReplyView>>)
    requires
        replies.len() == frames.len(),
        forall|k: int| 0 <= k < replies.len() ==> usable_text(#[trigger] replies[k]) is Some,
    ensures
        batch_failures(frames, replies).len() == 0,
        batch_tasks(frames, replies).len() == frames.len(),
        forall|k: int|
            0 <= k < frames.len() ==> #[trigger] batch_tasks(frames, replies)[k] == frame_task(
                frames[k],
                usable_text(replies[k])->0,
            ),
    decreases frames.len(),
{
    if frames.len() > 0 {
        with_texts_no_frame_fails(frames.drop_last(), replies.drop_last());
        assert(usable_text(replies.last()) is Some);
    }
}

/// With a document for every frame, in which the frame's position
/// resolves, every frame makes a token: there is no failure, and there
/// is one token for each frame, in the order of the frames, which is the
/// token of that frame in its own document.
pub proof fn with_documents_every_frame_resolves(
    frames: Seq<FrameView>,
    replies: Seq<Option<ReplyView>>,
)
    requires
        replies.len() == frames.len(),
        forall|k: int| 0 <= k < replies.len() ==> frame_token(#[trigger] replies[k], frames[k])
            is Some,
    ensures
        batch_failures(frames, replies).len() == 0,
        resolved_tokens(batch_tasks(frames, replies)).len() == frames.len(),
        forall|k: int|
            0 <= k < frames.len() ==> Some(
                #[trigger] resolved_tokens(batch_tasks(frames, replies))[k],
            ) == frame_token(replies[k], frames[k]),
{
    assert forall|k: int| 0 <= k < replies.len() implies usable_text(#[trigger] replies[k])
        is Some by {
        assert(frame_token(replies[k], frames[k]) is Some);
    }
    with_texts_no_frame_fails(frames, replies);
    let tasks = batch_tasks(frames, replies);
    assert forall|k: int| 0 <= k < tasks.len() implies task_token(#[trigger] tasks[k]) is Some by {
        assert(frame_token(replies[k], frames[k]) is Some);
    }
    crate::token_generator::every_resolving_task_makes_a_token(tasks);
}

/// An empty text is no document: a frame whose reply is an empty text
/// fails with the reason `resolver did not return string` and makes no
/// task.
pub proof fn empty_text_is_no_document(frame: FrameView)
    ensures
        failure_reason(Some(ReplyView::Text(Seq::empty()))) == Some(
            "resolver did not return string"@,
        ),
        usable_text(Some(ReplyView::Text(Seq::empty()))) is None,
        batch_tasks(seq![frame], seq![Some(ReplyView::Text(Seq::empty()))]).len() == 0,
        batch_failures(seq![frame], seq![Some(ReplyView::Text(Seq::empty()))]) == seq![
            FailView {
                original_raw: frame.original_raw,
                error_message: "resolver did not return string"@,
            },
        ],
{
    let frames = seq![frame];
    let replies = seq![Some(ReplyView::Text(Seq::<char>::empty()))];
    assert(frames.drop_last() =~= Seq::<FrameView>::empty());
    assert(replies.drop_last() =~= Seq::<Option<ReplyView>>::empty());
    assert(batch_failures(frames.drop_last(), replies.drop_last()) =~= Seq::<FailView>::empty());
    assert(batch_tasks(frames.drop_last(), replies.drop_last()) =~= Seq::<TaskView>::empty());
    assert(usable_text(replies.last()) is None);
    assert(batch_failures(frames, replies) =~= seq![
        FailView {
            original_raw: frame.original_raw,
            error_message: "resolver did not return string"@,
        },
    ]);
}

/// Every frame of a batch is accounted for once: it is a failure or a
/// task, never both, so failures and tasks are together as many as the
/// frames, and there are no more tokens than tasks.
pub proof fn every_frame_is_accounted_for(frames: Seq<FrameView>, replies: Seq<Option<ReplyView>>)
    requires
        replies.len() == frames.len(),
    ensures
        batch_failures(frames, replies).len() + batch_tasks(frames, replies).len() == frames.len(),
        resolved_tokens(batch_tasks(frames, replies)).len() <= batch_tasks(frames, replies).len(),
    decreases frames.len(),
{
    if frames.len() > 0 {
        every_frame_is_accounted_for(frames.drop_last(), replies.drop_last());
    }
    crate::token_generator::lemma_no_more_tokens_than_tasks(batch_tasks(frames, replies));
}

} // verus!
