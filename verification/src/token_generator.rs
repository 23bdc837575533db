//! Original positions with their source lines: one at a time, and in a
//! batch of tasks that each bring their own mapping document.

use crate::context_lookup::{context_views, context_window, extract_context, ContextLineView};
use crate::mapping::{
    decode_text, decoded_text, lookup_position, mapping_of, marks_of, MappingView,
};
use crate::ranges::{any_range, lemma_when_lookups_are_allowed, offset_overflows, RangeGuard};
use vstd::prelude::*;

verus! {

/// An original position, as a lookup gives it: the line and column, both
/// counted from 0, the whole text of the original source file where the
/// document carries it, and the path of that file where it names one.
#[derive(Clone, Debug)]
pub struct SourceMapToken {
    /// The original line, counted from 0.
    pub line: u32,
    /// The original column, counted from 0.
    pub column: u32,
    /// The whole text of the original source file, where the document
    /// carries it.
    pub source_code: Option<String>,
    /// The path of the original source file, where the document names one.
    pub src: Option<String>,
}

/// What a [`SourceMapToken`] holds.
pub struct PositionView {
    pub line: u32,
    pub column: u32,
    pub source_code: Option<Seq<char>>,
    pub src: Option<Seq<char>>,
}

/// The text that an optional string holds.
pub open spec fn text_view(s: Option<String>) -> Option<Seq<char>> {
    match s {
        Some(s) => Some(s@),
        None => None,
    }
}

impl View for SourceMapToken {
    type V = PositionView;

    open spec fn view(&self) -> PositionView {
        PositionView {
            line: self.line,
            column: self.column,
            source_code: text_view(self.source_code),
            src: text_view(self.src),
        }
    }
}

/// The path that an optional path holds, or the empty text.
pub open spec fn path_or_empty(path: Option<Seq<char>>) -> Seq<char> {
    match path {
        Some(p) => p,
        None => Seq::empty(),
    }
}

/// What the mapping `m` resolves a generated position to, whose line is
/// counted from 1: nothing for line 0, which stands for a line that could
/// not be read, and nothing where the lookup would find a range mapping
/// that lies right of the column asked for, on an earlier line.
pub open spec fn position_at(m: MappingView, line: u32, column: u32) -> Option<PositionView> {
    if line != 0 && !offset_overflows(m.marks, (line - 1) as u32, column)
        && m.positions.contains_key(((line - 1) as u32, column)) {
        Some(m.positions[((line - 1) as u32, column)])
    } else {
        None
    }
}

/// What the mapping document `content` holds for a generated position:
/// nothing where the line is 0 or the document does not decode.
pub open spec fn document_position(content: Seq<char>, line: u32, column: u32) -> Option<
    PositionView,
> {
    if line == 0 {
        None
    } else {
        match decoded_text(content) {
            Some(m) => position_at(m, line, column),
            None => None,
        }
    }
}

/// Looks a generated position up in a decoded mapping whose guard is at
/// hand.
pub(crate) fn lookup_known(
    source_map: &sourcemap::SourceMap,
    guard: &RangeGuard,
    line: u32,
    column: u32,
) -> (r: Option<SourceMapToken>)
    requires
        guard.marks() == mapping_of(*source_map).marks,
    ensures
        match r {
            Some(token) => position_at(mapping_of(*source_map), line, column) == Some(token@),
            None => position_at(mapping_of(*source_map), line, column) is None,
        },
        line == 0 ==> r is None,
{
    if line == 0 || !guard.allows(line - 1, column) {
        return None;
    }
    lookup_position(source_map, line - 1, column)
}

/// Looks a generated position up in a decoded mapping. `line` is counted
/// from 1; for line 0 nothing is looked up.
pub fn generate_source_map_token_from_map(
    source_map: &sourcemap::SourceMap,
    line: u32,
    column: u32,
) -> (r: Option<SourceMapToken>)
    ensures
        match r {
            Some(token) => position_at(mapping_of(*source_map), line, column) == Some(token@),
            None => position_at(mapping_of(*source_map), line, column) is None,
        },
        line == 0 ==> r is None,
{
    if line == 0 {
        return None;
    }
    let guard = RangeGuard::new(marks_of(source_map));
    lookup_known(source_map, &guard, line, column)
}

/// Decodes a mapping document and looks a generated position up in it.
/// `line` is counted from 1; for line 0 the document is not even decoded.
pub fn generate_source_map_token(source_map_content: &str, line: u32, column: u32) -> (r: Option<
    SourceMapToken,
>)
    ensures
        match r {
            Some(token) => document_position(source_map_content@, line, column) == Some(token@),
            None => document_position(source_map_content@, line, column) is None,
        },
        line == 0 ==> r is None,
{
    if line == 0 {
        return None;
    }
    match decode_text(source_map_content) {
        Ok(source_map) => generate_source_map_token_from_map(&source_map, line, column),
        Err(_) => None,
    }
}

/// One line of the source lines of a [`Token`].
#[derive(Clone, Debug)]
pub struct SourceCode {
    /// The line's number in the original source, counted from 0.
    pub line: u32,
    /// Whether this is the line that the position lies on.
    pub is_stack_line: bool,
    /// The line's text; empty where the source has no such line.
    pub raw: String,
}

impl View for SourceCode {
    type V = ContextLineView;

    open spec fn view(&self) -> ContextLineView {
        ContextLineView { line: self.line, is_target: self.is_stack_line, code: self.raw@ }
    }
}

/// What a sequence of source lines holds.
pub open spec fn source_views(lines: Seq<SourceCode>) -> Seq<ContextLineView> {
    lines.map_values(|l: SourceCode| l@)
}

/// An original position with the source lines around it.
#[derive(Clone, Debug)]
pub struct Token {
    /// The original line, counted from 0.
    pub line: u32,
    /// The original column, counted from 0.
    pub column: u32,
    /// The window of source lines around the position.
    pub source_code: Vec<SourceCode>,
    /// The path of the original source file; empty where the mapping names
    /// none.
    pub src: String,
}

/// What a [`Token`] holds.
pub struct TokenView {
    pub line: u32,
    pub column: u32,
    pub source_code: Seq<ContextLineView>,
    pub src: Seq<char>,
}

impl View for Token {
    type V = TokenView;

    open spec fn view(&self) -> TokenView {
        TokenView {
            line: self.line,
            column: self.column,
            source_code: source_views(self.source_code@),
            src: self.src@,
        }
    }
}

/// What a sequence of tokens holds.
pub open spec fn token_views(tokens: Seq<Token>) -> Seq<TokenView> {
    tokens.map_values(|t: Token| t@)
}

/// The radius that an optional radius stands for: none is 0, the target
/// line alone.
pub open spec fn radius_of(offset: Option<u32>) -> u32 {
    match offset {
        Some(radius) => radius,
        None => 0,
    }
}

/// The window of `radius` lines around line `target` of `source_text`.
pub fn source_lines(source_text: &str, target: u32, radius: u32) -> (lines: Vec<SourceCode>)
    ensures
        source_views(lines@) == context_window(source_text@, target, radius),
{
    let window = extract_context(source_text, target, radius);
    let mut lines: Vec<SourceCode> = Vec::new();
    let mut k: usize = 0;
    while k < window.len()
        invariant
            k <= window.len(),
            lines@.len() == k,
            forall|j: int| 0 <= j < k ==> (#[trigger] lines@[j])@ == window@[j]@,
        decreases window.len() - k,
    {
        let entry = &window[k];
        lines.push(
            SourceCode { line: entry.line, is_stack_line: entry.is_target, raw: entry.code.clone() },
        );
        k = k + 1;
    }
    proof {
        assert(source_views(lines@) =~= context_views(window@));
    }
    lines
}

/// The token of the position `p` with the window of `radius` lines around
/// it, where the mapping carries the text of the source.
pub open spec fn token_with_context(p: PositionView, radius: u32) -> Option<TokenView> {
    match p.source_code {
        Some(text) => Some(
            TokenView {
                line: p.line,
                column: p.column,
                source_code: context_window(text, p.line, radius),
                src: path_or_empty(p.src),
            },
        ),
        None => None,
    }
}

/// The token of the position `p` without any source line.
pub open spec fn bare_token(p: PositionView) -> TokenView {
    TokenView {
        line: p.line,
        column: p.column,
        source_code: Seq::empty(),
        src: path_or_empty(p.src),
    }
}

/// Builds the token of a position with the window of `radius` lines around
/// it; `None` where the position carries no source text.
pub fn build_token(position: SourceMapToken, radius: u32) -> (r: Option<Token>)
    ensures
        match r {
            Some(token) => token_with_context(position@, radius) == Some(token@),
            None => token_with_context(position@, radius) is None,
        },
{
    let source_text = match position.source_code {
        Some(text) => text,
        None => { return None; },
    };
    let src = match position.src {
        Some(path) => path,
        None => String::new(),
    };
    let source_code = source_lines(source_text.as_str(), position.line, radius);
    Some(Token { line: position.line, column: position.column, source_code, src })
}

/// The token of a generated position in the mapping `m`, with the window
/// of `radius` lines around its original line: none where the line is 0,
/// where the mapping holds nothing for the position, or where it carries no
/// text for the source.
pub open spec fn context_token_at(m: MappingView, line: u32, column: u32, radius: u32) -> Option<
    TokenView,
> {
    match position_at(m, line, column) {
        Some(p) => token_with_context(p, radius),
        None => None,
    }
}

/// Looks a generated position up, in a mapping whose guard is at hand, and
/// cuts the window of `context_lines` lines around its original line.
pub(crate) fn context_token_known(
    sm: &sourcemap::SourceMap,
    guard: &RangeGuard,
    line: u32,
    column: u32,
    context_lines: u32,
) -> (r: Option<Token>)
    requires
        guard.marks() == mapping_of(*sm).marks,
    ensures
        match r {
            Some(token) => context_token_at(mapping_of(*sm), line, column, context_lines) == Some(
                token@,
            ),
            None => context_token_at(mapping_of(*sm), line, column, context_lines) is None,
        },
        line == 0 ==> r is None,
{
    match lookup_known(sm, guard, line, column) {
        Some(position) => build_token(position, context_lines),
        None => None,
    }
}

/// Looks a generated position up and cuts the window of `context_lines`
/// lines around its original line. `line` is counted from 1, and 0 finds
/// nothing.
pub fn generate_context_token_from_map(
    sm: &sourcemap::SourceMap,
    line: u32,
    column: u32,
    context_lines: u32,
) -> (r: Option<Token>)
    ensures
        match r {
            Some(token) => context_token_at(mapping_of(*sm), line, column, context_lines) == Some(
                token@,
            ),
            None => context_token_at(mapping_of(*sm), line, column, context_lines) is None,
        },
        line == 0 ==> r is None,
{
    match generate_source_map_token_from_map(sm, line, column) {
        Some(position) => build_token(position, context_lines),
        None => None,
    }
}

/// The token of a generated position in the mapping document `content`:
/// none where the position resolves to nothing; else the original position
/// with the window of lines around it, which is empty where the document
/// carries no text for the source.
pub open spec fn stack_source(content: Seq<char>, line: u32, column: u32, offset: Option<u32>)
    -> Option<TokenView> {
    match document_position(content, line, column) {
        Some(p) => match token_with_context(p, radius_of(offset)) {
            Some(token) => Some(token),
            None => Some(bare_token(p)),
        },
        None => None,
    }
}

/// Decodes a mapping document, looks a generated position up in it and
/// cuts the window of `offset_line` lines around its original line; without
/// an offset the window is that line alone. `line` is counted from 1, and 0
/// finds nothing.
pub fn get_stack_source(
    source_map_content: &str,
    line: u32,
    column: u32,
    offset_line: Option<u32>,
) -> (r: Option<Token>)
    ensures
        match r {
            Some(token) => stack_source(source_map_content@, line, column, offset_line) == Some(
                token@,
            ),
            None => stack_source(source_map_content@, line, column, offset_line) is None,
        },
        line == 0 ==> r is None,
{
    let position = match generate_source_map_token(source_map_content, line, column) {
        Some(position) => position,
        None => { return None; },
    };
    let radius: u32 = match offset_line {
        Some(radius) => radius,
        None => 0,
    };
    if position.source_code.is_some() {
        build_token(position, radius)
    } else {
        let src = match position.src {
            Some(path) => path,
            None => String::new(),
        };
        proof {
            assert(source_views(Seq::<SourceCode>::empty()) =~= Seq::<ContextLineView>::empty());
        }
        Some(Token { line: position.line, column: position.column, source_code: Vec::new(), src })
    }
}

/// One lookup of a batch: a mapping document and a generated position in
/// it.
#[derive(Clone, Debug)]
pub struct GenerateTask {
    /// The text of the mapping document.
    pub source_map_content: String,
    /// The generated line, counted from 1; 0 stands for a line that could
    /// not be read.
    pub line: u32,
    /// The generated column, counted from 0.
    pub column: u32,
    /// How many lines to show on each side of the original line; none
    /// shows that line alone.
    pub source_line_offset: Option<u32>,
}

/// What a [`GenerateTask`] holds.
pub struct TaskView {
    pub source_map_content: Seq<char>,
    pub line: u32,
    pub column: u32,
    pub source_line_offset: Option<u32>,
}

impl View for GenerateTask {
    type V = TaskView;

    open spec fn view(&self) -> TaskView {
        TaskView {
            source_map_content: self.source_map_content@,
            line: self.line,
            column: self.column,
            source_line_offset: self.source_line_offset,
        }
    }
}

/// What a sequence of tasks holds.
pub open spec fn task_views(tasks: Seq<GenerateTask>) -> Seq<TaskView> {
    tasks.map_values(|t: GenerateTask| t@)
}

/// The token that a task resolves to: none where its document does not
/// decode, where its position resolves to nothing, or where the document
/// carries no text for the source.
pub open spec fn task_token(task: TaskView) -> Option<TokenView> {
    match document_position(task.source_map_content, task.line, task.column) {
        Some(p) => token_with_context(p, radius_of(task.source_line_offset)),
        None => None,
    }
}

/// The tokens that `tasks` resolve to, in the order of the tasks; a task
/// that resolves to none is left out.
pub open spec fn resolved_tokens(tasks: Seq<TaskView>) -> Seq<TokenView>
    decreases tasks.len(),
{
    if tasks.len() == 0 {
        Seq::empty()
    } else {
        match task_token(tasks.last()) {
            Some(token) => resolved_tokens(tasks.drop_last()).push(token),
            None => resolved_tokens(tasks.drop_last()),
        }
    }
}

/// Resolves one task.
pub fn resolve_task(task: &GenerateTask) -> (r: Option<Token>)
    ensures
        match r {
            Some(token) => task_token(task@) == Some(token@),
            None => task_token(task@) is None,
        },
        task.line == 0 ==> r is None,
{
    let position = match generate_source_map_token(
        task.source_map_content.as_str(),
        task.line,
        task.column,
    ) {
        Some(position) => position,
        None => { return None; },
    };
    let radius: u32 = match task.source_line_offset {
        Some(radius) => radius,
        None => 0,
    };
    build_token(position, radius)
}

/// A copy of `token`.
pub fn copy_token(token: &Token) -> (r: Token)
    ensures
        r@ == token@,
{
    let mut source_code: Vec<SourceCode> = Vec::new();
    let mut k: usize = 0;
    while k < token.source_code.len()
        invariant
            k <= token.source_code.len(),
            source_code@.len() == k,
            forall|j: int| 0 <= j < k ==> (#[trigger] source_code@[j])@ == token.source_code@[j]@,
        decreases token.source_code.len() - k,
    {
        let entry = &token.source_code[k];
        source_code.push(
            SourceCode {
                line: entry.line,
                is_stack_line: entry.is_stack_line,
                raw: entry.raw.clone(),
            },
        );
        k = k + 1;
    }
    proof {
        assert(source_views(source_code@) =~= source_views(token.source_code@));
    }
    Token { line: token.line, column: token.column, source_code, src: token.src.clone() }
}

/// A batch of lookups: tasks are added, then resolved together, and the
/// tokens of those that resolved are kept in the order of their tasks.
pub struct GenerateToken {
    tokens: Vec<Token>,
    tasks: Vec<GenerateTask>,
}

impl GenerateToken {
    /// The tokens resolved so far.
    pub closed spec fn tokens(&self) -> Seq<TokenView> {
        token_views(self.tokens@)
    }

    /// The tasks added so far.
    pub closed spec fn tasks(&self) -> Seq<TaskView> {
        task_views(self.tasks@)
    }

    /// A batch with no task and no token.
    pub fn new() -> (r: Self)
        ensures
            r.tokens() == Seq::<TokenView>::empty(),
            r.tasks() == Seq::<TaskView>::empty(),
    {
        let r = GenerateToken { tokens: Vec::new(), tasks: Vec::new() };
        proof {
            assert(r.tokens() =~= Seq::<TokenView>::empty());
            assert(r.tasks() =~= Seq::<TaskView>::empty());
        }
        r
    }

    /// Adds a task after the ones already there.
    pub fn add_task(&mut self, task: GenerateTask)
        ensures
            final(self).tasks() == old(self).tasks().push(task@),
            final(self).tokens() == old(self).tokens(),
    {
        proof {
            assert(task_views(self.tasks@.push(task)) =~= task_views(self.tasks@).push(task@));
        }
        self.tasks.push(task);
    }

    /// Resolves every task, in order, and appends the tokens of those that
    /// resolve. A task whose document does not decode, whose position
    /// resolves to nothing or whose source text is missing leaves no trace.
    pub fn generate(&mut self)
        ensures
            final(self).tokens() == old(self).tokens() + resolved_tokens(old(self).tasks()),
            final(self).tasks() == old(self).tasks(),
    {
        let ghost before = self.tokens();
        let ghost tasks = self.tasks();
        let mut k: usize = 0;
        proof {
            assert(tasks.take(0) =~= Seq::<TaskView>::empty());
            assert(before + resolved_tokens(tasks.take(0)) =~= before);
        }
        while k < self.tasks.len()
            invariant
                k <= self.tasks.len(),
                self.tasks() == tasks,
                tasks == task_views(self.tasks@),
                self.tokens() == before + resolved_tokens(tasks.take(k as int)),
            decreases self.tasks.len() - k,
        {
            proof {
                assert(tasks.take(k + 1).drop_last() == tasks.take(k as int));
                assert(tasks.take(k + 1).last() == self.tasks@[k as int]@);
            }
            match resolve_task(&self.tasks[k]) {
                Some(token) => {
                    proof {
                        assert(token_views(self.tokens@.push(token)) =~= token_views(
                            self.tokens@,
                        ).push(token@));
                        assert(before + resolved_tokens(tasks.take(k as int)).push(token@) =~= (
                        before + resolved_tokens(tasks.take(k as int))).push(token@));
                    }
                    self.tokens.push(token);
                },
                None => {},
            }
            k = k + 1;
        }
        proof {
            assert(tasks.take(k as int) == tasks);
        }
    }

    /// A copy of the tokens resolved so far.
    pub fn get_tokens(&self) -> (r: Vec<Token>)
        ensures
            token_views(r@) == self.tokens(),
    {
        let mut r: Vec<Token> = Vec::new();
        let mut k: usize = 0;
        while k < self.tokens.len()
            invariant
                k <= self.tokens.len(),
                r@.len() == k,
                forall|j: int| 0 <= j < k ==> (#[trigger] r@[j])@ == self.tokens@[j]@,
            decreases self.tokens.len() - k,
        {
            r.push(copy_token(&self.tokens[k]));
            k = k + 1;
        }
        proof {
            assert(token_views(r@) =~= token_views(self.tokens@));
        }
        r
    }
}

/// Line 0 stands for a line that could not be read, and resolves to
/// nothing: whatever the mapping or the document, the column, the radius.
/// The answer does not depend on the mapping or on whether the document
/// decodes.
pub proof fn line_zero_resolves_to_nothing(
    m: MappingView,
    content: Seq<char>,
    column: u32,
    radius: u32,
    offset: Option<u32>,
)
    ensures
        position_at(m, 0, column) is None,
        context_token_at(m, 0, column, radius) is None,
        document_position(content, 0, column) is None,
        stack_source(content, 0, column, offset) is None,
        task_token(
            TaskView { source_map_content: content, line: 0, column, source_line_offset: offset },
        ) is None,
{
}

/// A token with context shows the line of its position: where a generated
/// position resolves, and the mapping carries the text of the source, the
/// token's window holds an entry with the number of the original line,
/// marked as the target.
pub proof fn token_shows_its_line(m: MappingView, line: u32, column: u32, radius: u32)
    requires
        position_at(m, line, column) is Some,
        position_at(m, line, column)->0.source_code is Some,
    ensures
        context_token_at(m, line, column, radius) is Some,
        context_token_at(m, line, column, radius)->0.line == position_at(m, line, column)->0.line,
        exists|k: int|
            0 <= k < context_token_at(m, line, column, radius)->0.source_code.len() && (
            #[trigger] context_token_at(m, line, column, radius)->0.source_code[k]).line
                == position_at(m, line, column)->0.line && context_token_at(
                m,
                line,
                column,
                radius,
            )->0.source_code[k].is_target,
        forall|k: int|
            0 <= k < context_token_at(m, line, column, radius)->0.source_code.len() ==> ((
            #[trigger] context_token_at(m, line, column, radius)->0.source_code[k]).is_target
                <==> context_token_at(m, line, column, radius)->0.source_code[k].line
                == position_at(m, line, column)->0.line),
{
    let p = position_at(m, line, column)->0;
    let text = p.source_code->0;
    crate::context_lookup::window_holds_target(text, p.line, radius);
    let window = context_window(text, p.line, radius);
    let k = p.line - crate::context_lookup::window_first(p.line, radius);
    let token = context_token_at(m, line, column, radius)->0;
    assert(token.source_code == window);
    assert(token.source_code[k].line == p.line && token.source_code[k].is_target);
}

/// Every task that resolves makes one token: where each of `tasks`
/// resolves, there are as many tokens as tasks.
pub proof fn every_resolving_task_makes_a_token(tasks: Seq<TaskView>)
    requires
        forall|k: int| 0 <= k < tasks.len() ==> task_token(#[trigger] tasks[k]) is Some,
    ensures
        resolved_tokens(tasks).len() == tasks.len(),
        forall|k: int|
            0 <= k < tasks.len() ==> Some(#[trigger] resolved_tokens(tasks)[k]) == task_token(
                tasks[k],
            ),
    decreases tasks.len(),
{
    if tasks.len() > 0 {
        let front = tasks.drop_last();
        assert forall|k: int| 0 <= k < front.len() implies task_token(#[trigger] front[k])
            is Some by {
            assert(front[k] == tasks[k]);
        }
        every_resolving_task_makes_a_token(front);
        assert forall|k: int| 0 <= k < tasks.len() implies Some(
            #[trigger] resolved_tokens(tasks)[k],
        ) == task_token(tasks[k]) by {
            if k < front.len() {
                assert(front[k] == tasks[k]);
                assert(resolved_tokens(tasks)[k] == resolved_tokens(front)[k]);
            }
        }
    }
}

/// Tasks resolve to no more tokens than there are tasks.
pub proof fn lemma_no_more_tokens_than_tasks(tasks: Seq<TaskView>)
    ensures
        resolved_tokens(tasks).len() <= tasks.len(),
    decreases tasks.len(),
{
    if tasks.len() > 0 {
        lemma_no_more_tokens_than_tasks(tasks.drop_last());
    }
}


/// With radius 0 a token shows the line of its position alone: where a
/// generated position resolves, and the mapping carries the text of the
/// source, the token's window is one entry, the original line, marked as
/// the target.
pub proof fn token_of_radius_zero(m: MappingView, line: u32, column: u32)
    requires
        position_at(m, line, column) is Some,
        position_at(m, line, column)->0.source_code is Some,
    ensures
        context_token_at(m, line, column, 0) is Some,
        context_token_at(m, line, column, 0)->0.source_code.len() == 1,
        context_token_at(m, line, column, 0)->0.source_code[0].is_target,
        context_token_at(m, line, column, 0)->0.source_code[0].line == context_token_at(
            m,
            line,
            column,
            0,
        )->0.line,
        context_token_at(m, line, column, 0)->0.line == position_at(m, line, column)->0.line,
{
    let p = position_at(m, line, column)->0;
    crate::context_lookup::window_of_radius_zero(p.source_code->0, p.line);
}


/// In a document without range mappings every position is looked up: a
/// generated position whose line is not 0 resolves to what the mapping
/// holds for it. So it is in the last column of any document.
pub proof fn plain_documents_resolve_every_position(m: MappingView, line: u32, column: u32)
    requires
        line != 0,
        !any_range(m.marks) || column == u32::MAX,
    ensures
        position_at(m, line, column) == if m.positions.contains_key(
            ((line - 1) as u32, column),
        ) {
            Some(m.positions[((line - 1) as u32, column)])
        } else {
            None
        },
{
    lemma_when_lookups_are_allowed(m.marks, (line - 1) as u32, column);
}

} // verus!
