//! The patch grammar: lines in, hunks or an error out.
//!
//! The grammar is a state machine over lines. [`step`] says what one line
//! does to the state, [`run`] folds it over the lines, and [`parse`] is the
//! whole of it, envelope included.

use crate::apply_patch::hunk;
use crate::apply_patch::hunk::{
    invalid_hunk, invalid_hunk_header, unexpected_update_line, ChunkView, HunkProblem, HunkView,
    PatchError, PatchErrorView, PatchHunk, ProblemView, UpdateFileChunk,
};
use crate::text;
use crate::text::{
    begins_with, finishes_with, lines_of, owned, str_eq, stripped_prefix, stripped_suffix, trimmed,
    trimmed_end,
};
use vstd::prelude::*;
use vstd::slice::slice_subrange;

verus! {

pub const BEGIN_PATCH_MARKER: &'static str = "*** Begin Patch";

pub const END_PATCH_MARKER: &'static str = "*** End Patch";

pub const ADD_FILE_MARKER: &'static str = "*** Add File: ";

pub const DELETE_FILE_MARKER: &'static str = "*** Delete File: ";

pub const UPDATE_FILE_MARKER: &'static str = "*** Update File: ";

pub const MOVE_TO_MARKER: &'static str = "*** Move to: ";

pub const EOF_MARKER: &'static str = "*** End of File";

pub const ENVIRONMENT_ID_MARKER: &'static str = "*** Environment ID:";

pub const CHANGE_CONTEXT_MARKER: &'static str = "@@ ";

pub const EMPTY_CHANGE_CONTEXT_MARKER: &'static str = "@@";

/// Where in a patch the parser stands.
#[derive(Debug, Clone, Copy, PartialEq, Eq, Structural)]
pub enum PatchParseMode {
    NotStarted,
    StartedPatch,
    AddFile,
    DeleteFile,
    UpdateFile { hunk_line_number: usize },
    EndedPatch,
}

/// The state between two lines.
#[verifier::ext_equal]
pub struct ParseState {
    pub hunks: Seq<HunkView>,
    pub mode: PatchParseMode,
    pub environment_id: Option<Seq<char>>,
}

// ---------------------------------------------------------------------------
// What one line does
// ---------------------------------------------------------------------------

/// A chunk that no line has been added to.
pub open spec fn blank_chunk(context: Option<Seq<char>>) -> ChunkView {
    ChunkView { context, old_lines: Seq::empty(), new_lines: Seq::empty(), at_end: false }
}

/// Whether a chunk has no line, neither expected nor new.
pub open spec fn is_blank(chunk: ChunkView) -> bool {
    chunk.old_lines.len() == 0 && chunk.new_lines.len() == 0
}

/// Whether the last chunk is there and has no line.
pub open spec fn ends_blank(chunks: Seq<ChunkView>) -> bool {
    chunks.len() > 0 && is_blank(chunks.last())
}

/// The error, if any, of closing the last hunk before `line`: an update hunk
/// has to hold a chunk, and its last chunk a line.
pub open spec fn closing_error(
    hunks: Seq<HunkView>,
    mode: PatchParseMode,
    line: Seq<char>,
    line_number: usize,
) -> Option<PatchErrorView> {
    if hunks.len() == 0 {
        None
    } else {
        match hunks.last() {
            HunkView::Update { path, chunks, .. } => if chunks.len() == 0
                && mode is UpdateFile {
                Some(
                    PatchErrorView::InvalidHunk(
                        mode->hunk_line_number,
                        ProblemView::EmptyUpdate(path),
                    ),
                )
            } else if ends_blank(chunks) {
                if line == END_PATCH_MARKER@ {
                    Some(PatchErrorView::InvalidHunk(line_number, ProblemView::NoLines))
                } else {
                    Some(
                        PatchErrorView::InvalidHunk(
                            line_number,
                            ProblemView::UnexpectedUpdateLine(line),
                        ),
                    )
                }
            } else {
                None
            },
            _ => None,
        }
    }
}

/// The state after the last hunk is closed and `hunk` opened in `mode`.
pub open spec fn open_hunk(
    s: ParseState,
    line: Seq<char>,
    line_number: usize,
    hunk: HunkView,
    mode: PatchParseMode,
) -> Result<Option<ParseState>, PatchErrorView> {
    match closing_error(s.hunks, s.mode, line, line_number) {
        Some(e) => Err(e),
        None => Ok(Some(ParseState { hunks: s.hunks.push(hunk), mode, ..s })),
    }
}

/// What a header line or the end marker does: `None` where `line` is neither.
pub open spec fn header_step(s: ParseState, line: Seq<char>, line_number: usize) -> Result<
    Option<ParseState>,
    PatchErrorView,
> {
    let environment = text::strip_prefix(line, ENVIRONMENT_ID_MARKER@);
    if s.mode is StartedPatch && environment is Some {
        if s.environment_id is Some {
            Err(PatchErrorView::RepeatedEnvironment)
        } else if text::trim(environment->0).len() == 0 {
            Err(PatchErrorView::EmptyEnvironment)
        } else {
            Ok(Some(ParseState { environment_id: Some(text::trim(environment->0)), ..s }))
        }
    } else if line == END_PATCH_MARKER@ {
        match closing_error(s.hunks, s.mode, line, line_number) {
            Some(e) => Err(e),
            None => Ok(Some(ParseState { mode: PatchParseMode::EndedPatch, ..s })),
        }
    } else if let Some(path) = text::strip_prefix(line, ADD_FILE_MARKER@) {
        open_hunk(
            s,
            line,
            line_number,
            HunkView::Add { path: text::trim(path), contents: Seq::empty() },
            PatchParseMode::AddFile,
        )
    } else if let Some(path) = text::strip_prefix(line, DELETE_FILE_MARKER@) {
        open_hunk(
            s,
            line,
            line_number,
            HunkView::Delete { path: text::trim(path) },
            PatchParseMode::DeleteFile,
        )
    } else if let Some(path) = text::strip_prefix(line, UPDATE_FILE_MARKER@) {
        open_hunk(
            s,
            line,
            line_number,
            HunkView::Update { path: text::trim(path), move_to: None, chunks: Seq::empty() },
            PatchParseMode::UpdateFile { hunk_line_number: line_number },
        )
    } else {
        Ok(None)
    }
}

/// `lines` with `line` behind it, where there is one.
pub open spec fn push_opt(lines: Seq<Seq<char>>, line: Option<Seq<char>>) -> Seq<Seq<char>> {
    match line {
        Some(line) => lines.push(line),
        None => lines,
    }
}

/// The chunks after a body line: an expected line, a new line, or both. The
/// first body line opens a chunk where none is open.
pub open spec fn add_body_line(
    chunks: Seq<ChunkView>,
    old_line: Option<Seq<char>>,
    new_line: Option<Seq<char>>,
) -> Seq<ChunkView> {
    let open = if chunks.len() == 0 {
        seq![blank_chunk(None)]
    } else {
        chunks
    };
    let last = open.last();
    open.drop_last().push(
        ChunkView {
            old_lines: push_opt(last.old_lines, old_line),
            new_lines: push_opt(last.new_lines, new_line),
            ..last
        },
    )
}

/// The chunks with the last one marked as standing at the end of the file.
pub open spec fn mark_end(chunks: Seq<ChunkView>) -> Seq<ChunkView> {
    if chunks.len() == 0 {
        chunks
    } else {
        chunks.drop_last().push(ChunkView { at_end: true, ..chunks.last() })
    }
}

/// Whether a line opens a chunk.
pub open spec fn opens_chunk(line: Seq<char>) -> bool {
    line == EMPTY_CHANGE_CONTEXT_MARKER@ || text::starts_with(line, CHANGE_CONTEXT_MARKER@)
}

/// What a line that is no header does to an update hunk: its destination and
/// its chunks afterwards.
pub open spec fn update_step(
    move_to: Option<Seq<char>>,
    chunks: Seq<ChunkView>,
    line: Seq<char>,
    line_number: usize,
) -> Result<(Option<Seq<char>>, Seq<ChunkView>), PatchErrorView> {
    let cut = text::trim_end(line);
    let ended = chunks.len() > 0 && chunks.last().at_end;
    if ended && cut.len() == 0 {
        Ok((move_to, chunks))
    } else if ended && !opens_chunk(cut) {
        Err(PatchErrorView::InvalidHunk(line_number, ProblemView::ExpectedContext(line)))
    } else if chunks.len() == 0 && move_to is None && text::starts_with(cut, MOVE_TO_MARKER@) {
        Ok((Some(text::trim(text::strip_prefix(cut, MOVE_TO_MARKER@)->0)), chunks))
    } else if opens_chunk(cut) && ends_blank(chunks) {
        Err(PatchErrorView::InvalidHunk(line_number, ProblemView::UnexpectedUpdateLine(line)))
    } else if cut == EMPTY_CHANGE_CONTEXT_MARKER@ {
        Ok((move_to, chunks.push(blank_chunk(None))))
    } else if let Some(context) = text::strip_prefix(cut, CHANGE_CONTEXT_MARKER@) {
        Ok((move_to, chunks.push(blank_chunk(Some(context)))))
    } else if cut == EOF_MARKER@ {
        if ends_blank(chunks) {
            Err(PatchErrorView::InvalidHunk(line_number, ProblemView::NoLines))
        } else {
            Ok((move_to, mark_end(chunks)))
        }
    } else if line.len() == 0 {
        Ok((move_to, add_body_line(chunks, Some(line), Some(line))))
    } else if let Some(content) = text::strip_prefix(line, " "@) {
        Ok((move_to, add_body_line(chunks, Some(content), Some(content))))
    } else if let Some(content) = text::strip_prefix(line, "+"@) {
        Ok((move_to, add_body_line(chunks, None, Some(content))))
    } else if let Some(content) = text::strip_prefix(line, "-"@) {
        Ok((move_to, add_body_line(chunks, Some(content), None)))
    } else if chunks.len() > 0 && !is_blank(chunks.last()) {
        Err(PatchErrorView::InvalidHunk(line_number, ProblemView::ExpectedContext(line)))
    } else {
        Err(PatchErrorView::InvalidHunk(line_number, ProblemView::UnexpectedUpdateLine(line)))
    }
}

/// What a line that is no header does in an Add File hunk.
pub open spec fn add_step(s: ParseState, line: Seq<char>, line_number: usize) -> Result<
    ParseState,
    PatchErrorView,
> {
    let cut = text::trim(line);
    if text::starts_with(line, "+"@) && s.hunks.len() > 0 && s.hunks.last() is Add {
        let added = text::strip_prefix(line, "+"@)->0;
        Ok(
            ParseState {
                hunks: s.hunks.drop_last().push(
                    HunkView::Add {
                        path: s.hunks.last()->Add_path,
                        contents: s.hunks.last()->Add_contents + added + "\n"@,
                    },
                ),
                ..s
            },
        )
    } else if text::starts_with(cut, "*** "@) {
        Err(PatchErrorView::InvalidHunk(line_number, ProblemView::NotAHeader(cut)))
    } else {
        Err(PatchErrorView::InvalidHunk(line_number, ProblemView::BadAddLine(cut)))
    }
}

/// What a line that is no header does in an update hunk.
pub open spec fn update_body_step(s: ParseState, line: Seq<char>, line_number: usize) -> Result<
    ParseState,
    PatchErrorView,
> {
    if s.hunks.len() > 0 && s.hunks.last() is Update {
        match update_step(
            s.hunks.last()->move_to,
            s.hunks.last()->chunks,
            line,
            line_number,
        ) {
            Ok((move_to, chunks)) => Ok(
                ParseState {
                    hunks: s.hunks.drop_last().push(
                        HunkView::Update { path: s.hunks.last()->Update_path, move_to, chunks },
                    ),
                    ..s
                },
            ),
            Err(e) => Err(e),
        }
    } else {
        Err(PatchErrorView::InvalidHunk(line_number, ProblemView::MissingState))
    }
}

/// What one line of a patch does to the state.
pub open spec fn step(s: ParseState, raw: Seq<char>, line_number: usize) -> Result<
    ParseState,
    PatchErrorView,
> {
    let line = text::strip_cr(raw);
    let cut = text::trim(line);
    match s.mode {
        PatchParseMode::NotStarted => if cut == BEGIN_PATCH_MARKER@ {
            Ok(ParseState { mode: PatchParseMode::StartedPatch, ..s })
        } else {
            Err(PatchErrorView::MissingBegin)
        },
        PatchParseMode::StartedPatch | PatchParseMode::DeleteFile => match header_step(
            s,
            cut,
            line_number,
        ) {
            Err(e) => Err(e),
            Ok(Some(next)) => Ok(next),
            Ok(None) => Err(
                PatchErrorView::InvalidHunk(line_number, ProblemView::NotAHeader(cut)),
            ),
        },
        PatchParseMode::AddFile => match header_step(s, cut, line_number) {
            Err(e) => Err(e),
            Ok(Some(next)) => Ok(next),
            Ok(None) => add_step(s, line, line_number),
        },
        PatchParseMode::UpdateFile { .. } => match header_step(
            s,
            text::trim_end(line),
            line_number,
        ) {
            Err(e) => Err(e),
            Ok(Some(next)) => Ok(next),
            Ok(None) => update_body_step(s, line, line_number),
        },
        PatchParseMode::EndedPatch => if cut.len() == 0 {
            Ok(s)
        } else {
            Err(PatchErrorView::MissingEnd)
        },
    }
}

/// The state after the lines from `from` on; lines are numbered from one.
pub open spec fn run(s: ParseState, lines: Seq<Seq<char>>, from: int) -> Result<
    ParseState,
    PatchErrorView,
>
    decreases lines.len() - from,
{
    if from >= lines.len() {
        Ok(s)
    } else {
        match step(s, lines[from], (from + 1) as usize) {
            Ok(next) => run(next, lines, from + 1),
            Err(e) => Err(e),
        }
    }
}

// ---------------------------------------------------------------------------
// The whole patch
// ---------------------------------------------------------------------------

/// The error, if any, of lines that do not stand between the two markers.
pub open spec fn envelope_error(lines: Seq<Seq<char>>) -> Option<PatchErrorView> {
    if lines.len() > 0 && text::trim(lines[0]) != BEGIN_PATCH_MARKER@ {
        Some(PatchErrorView::MissingBegin)
    } else if lines.len() > 0 && text::trim(lines.last()) == END_PATCH_MARKER@ {
        None
    } else {
        Some(PatchErrorView::MissingEnd)
    }
}

/// Whether lines are wrapped in a shell here-document.
pub open spec fn is_heredoc(lines: Seq<Seq<char>>) -> bool {
    &&& lines.len() >= 4
    &&& lines[0] == "<<EOF"@ || lines[0] == "<<'EOF'"@ || lines[0] == "<<\"EOF\""@
    &&& text::ends_with(lines.last(), "EOF"@)
}

/// The lines of the patch proper: all of them, or those inside a
/// here-document.
pub open spec fn patch_lines(lines: Seq<Seq<char>>) -> Result<Seq<Seq<char>>, PatchErrorView> {
    match envelope_error(lines) {
        None => Ok(lines),
        Some(e) => if is_heredoc(lines) {
            let inner = lines.subrange(1, lines.len() - 1);
            match envelope_error(inner) {
                None => Ok(inner),
                Some(inner_error) => Err(inner_error),
            }
        } else {
            Err(e)
        },
    }
}

/// The state before the first line.
pub open spec fn start_state() -> ParseState {
    ParseState { hunks: Seq::empty(), mode: PatchParseMode::NotStarted, environment_id: None }
}

/// The hunks of a patch, or why it is rejected.
pub open spec fn parse(input: Seq<char>) -> Result<Seq<HunkView>, PatchErrorView> {
    match patch_lines(text::lines(text::trim(input))) {
        Err(e) => Err(e),
        Ok(lines) => match run(start_state(), lines, 0) {
            Err(e) => Err(e),
            Ok(s) => if !(s.mode is EndedPatch) {
                Err(PatchErrorView::MissingEnd)
            } else if s.hunks.len() == 0 {
                Err(PatchErrorView::NoHunks)
            } else {
                Ok(s.hunks)
            },
        },
    }
}

// ---------------------------------------------------------------------------
// The parser
// ---------------------------------------------------------------------------

/// The parser between two lines.
#[derive(Debug)]
pub struct PatchParser {
    pub hunks: Vec<PatchHunk>,
    pub mode: PatchParseMode,
    pub environment_id: Option<String>,
}

impl View for PatchParser {
    type V = ParseState;

    open spec fn view(&self) -> ParseState {
        ParseState {
            hunks: hunk::hunk_views(self.hunks@),
            mode: self.mode,
            environment_id: text::opt_text(self.environment_id),
        }
    }
}

/// Whether the last of `chunks` is there and has no line.
fn last_is_blank(chunks: &Vec<UpdateFileChunk>) -> (r: bool)
    ensures
        r == ends_blank(hunk::chunk_views(chunks@)),
{
    if chunks.len() == 0 {
        return false;
    }
    let last = &chunks[chunks.len() - 1];
    last.old_lines.len() == 0 && last.new_lines.len() == 0
}

/// Checks that the last hunk may end before `line`.
pub fn ensure_update_hunk_is_not_empty(
    hunks: &Vec<PatchHunk>,
    mode: PatchParseMode,
    line: &str,
    line_number: usize,
) -> (r: Result<(), PatchError>)
    ensures
        match closing_error(hunk::hunk_views(hunks@), mode, line@, line_number) {
            None => r is Ok,
            Some(e) => r is Err && r->Err_0@ == e,
        },
{
    if hunks.len() == 0 {
        return Ok(());
    }
    match &hunks[hunks.len() - 1] {
        PatchHunk::UpdateFile { path, chunks, .. } => {
            if chunks.len() == 0 {
                if let PatchParseMode::UpdateFile { hunk_line_number } = mode {
                    return Err(
                        invalid_hunk(
                            hunk_line_number,
                            HunkProblem::EmptyUpdate(owned(path.as_str())),
                        ),
                    );
                }
            }
            if last_is_blank(chunks) {
                if str_eq(line, END_PATCH_MARKER) {
                    return Err(invalid_hunk(line_number, HunkProblem::NoLines));
                }
                return Err(unexpected_update_line(line_number, line));
            }
            Ok(())
        },
        _ => Ok(()),
    }
}

/// A chunk that no line has been added to.
fn new_chunk(change_context: Option<String>) -> (r: UpdateFileChunk)
    ensures
        r@ == blank_chunk(text::opt_text(change_context)),
{
    let r = UpdateFileChunk {
        change_context,
        old_lines: Vec::new(),
        new_lines: Vec::new(),
        is_end_of_file: false,
    };
    assert(r@ =~= blank_chunk(text::opt_text(change_context)));
    r
}

/// Adds a body line to the last chunk, opening one where none is open.
fn push_body_line(chunks: &mut Vec<UpdateFileChunk>, old_line: Option<String>, new_line: Option<String>)
    ensures
        hunk::chunk_views(final(chunks)@) == add_body_line(
            hunk::chunk_views(old(chunks)@),
            text::opt_text(old_line),
            text::opt_text(new_line),
        ),
{
    let mut last = match chunks.pop() {
        Some(chunk) => chunk,
        None => new_chunk(None),
    };
    let ghost before = last@;
    let ghost rest = hunk::chunk_views(chunks@);
    assert(before == (if old(chunks)@.len() == 0 {
        blank_chunk(None)
    } else {
        hunk::chunk_views(old(chunks)@).last()
    }));
    proof {
        if old(chunks)@.len() == 0 {
            assert(rest =~= seq![blank_chunk(None)].drop_last());
        } else {
            assert(rest =~= hunk::chunk_views(old(chunks)@).drop_last());
        }
    }
    if let Some(line) = old_line {
        proof {
            text::lemma_texts_push(last.old_lines@, line);
        }
        last.old_lines.push(line);
    }
    if let Some(line) = new_line {
        proof {
            text::lemma_texts_push(last.new_lines@, line);
        }
        last.new_lines.push(line);
    }
    assert(last@ =~= ChunkView {
        old_lines: push_opt(before.old_lines, text::opt_text(old_line)),
        new_lines: push_opt(before.new_lines, text::opt_text(new_line)),
        ..before
    });
    proof {
        hunk::lemma_chunk_views_push(chunks@, last);
    }
    chunks.push(last);
}

/// Marks the last chunk as standing at the end of the file.
fn mark_last(chunks: &mut Vec<UpdateFileChunk>)
    ensures
        hunk::chunk_views(final(chunks)@) == mark_end(hunk::chunk_views(old(chunks)@)),
{
    if let Some(last) = chunks.pop() {
        let marked = UpdateFileChunk { is_end_of_file: true, ..last };
        proof {
            assert(hunk::chunk_views(chunks@) =~= hunk::chunk_views(old(chunks)@).drop_last());
            assert(last@ == hunk::chunk_views(old(chunks)@).last());
            assert(marked@ =~= ChunkView { at_end: true, ..last@ });
            hunk::lemma_chunk_views_push(chunks@, marked);
        }
        chunks.push(marked);
    }
}

/// Takes one body line of an update hunk.
fn take_update_line(
    move_to: &mut Option<String>,
    chunks: &mut Vec<UpdateFileChunk>,
    line: &str,
    line_number: usize,
) -> (r: Result<(), PatchError>)
    ensures
        match update_step(
            text::opt_text(*old(move_to)),
            hunk::chunk_views(old(chunks)@),
            line@,
            line_number,
        ) {
            Ok(next) => r is Ok && text::opt_text(*final(move_to)) == next.0
                && hunk::chunk_views(final(chunks)@) == next.1,
            Err(e) => r is Err && r->Err_0@ == e && *final(move_to) == *old(move_to)
                && *final(chunks) == *old(chunks),
        },
{
    let cut = trimmed_end(line);
    let opens = str_eq(cut, EMPTY_CHANGE_CONTEXT_MARKER) || begins_with(cut, CHANGE_CONTEXT_MARKER);
    let ended = chunks.len() > 0 && chunks[chunks.len() - 1].is_end_of_file;
    proof {
        reveal_strlit("");
        assert(cut@.len() == 0 ==> cut@ =~= ""@);
        assert(line@.len() == 0 ==> line@ =~= ""@);
    }
    if ended {
        if str_eq(cut, "") {
            return Ok(());
        }
        if !opens {
            return Err(invalid_hunk(line_number, HunkProblem::ExpectedContext(owned(line))));
        }
    }
    if chunks.len() == 0 && move_to.is_none() {
        if let Some(dest) = stripped_prefix(cut, MOVE_TO_MARKER) {
            *move_to = Some(owned(trimmed(dest)));
            return Ok(());
        }
    }
    if opens && last_is_blank(chunks) {
        return Err(unexpected_update_line(line_number, line));
    }
    if str_eq(cut, EMPTY_CHANGE_CONTEXT_MARKER) {
        let chunk = new_chunk(None);
        proof {
            hunk::lemma_chunk_views_push(chunks@, chunk);
        }
        chunks.push(chunk);
        return Ok(());
    }
    if let Some(context) = stripped_prefix(cut, CHANGE_CONTEXT_MARKER) {
        let chunk = new_chunk(Some(owned(context)));
        proof {
            hunk::lemma_chunk_views_push(chunks@, chunk);
        }
        chunks.push(chunk);
        return Ok(());
    }
    if str_eq(cut, EOF_MARKER) {
        if last_is_blank(chunks) {
            return Err(invalid_hunk(line_number, HunkProblem::NoLines));
        }
        mark_last(chunks);
        return Ok(());
    }
    if str_eq(line, "") {
        push_body_line(chunks, Some(owned(line)), Some(owned(line)));
        return Ok(());
    }
    if let Some(content) = stripped_prefix(line, " ") {
        push_body_line(chunks, Some(owned(content)), Some(owned(content)));
        return Ok(());
    }
    if let Some(content) = stripped_prefix(line, "+") {
        push_body_line(chunks, None, Some(owned(content)));
        return Ok(());
    }
    if let Some(content) = stripped_prefix(line, "-") {
        push_body_line(chunks, Some(owned(content)), None);
        return Ok(());
    }
    if chunks.len() > 0 && !last_is_blank(chunks) {
        return Err(invalid_hunk(line_number, HunkProblem::ExpectedContext(owned(line))));
    }
    Err(unexpected_update_line(line_number, line))
}

impl PatchParser {
    /// A parser before the first line.
    pub fn new() -> (r: Self)
        ensures
            r@ == start_state(),
    {
        let r = PatchParser {
            hunks: Vec::new(),
            mode: PatchParseMode::NotStarted,
            environment_id: None,
        };
        assert(r@ =~= start_state());
        r
    }

    /// Closes the last hunk and opens `hunk` in `mode`.
    fn open_hunk(&mut self, line: &str, line_number: usize, hunk: PatchHunk, mode: PatchParseMode) -> (r:
        Result<bool, PatchError>)
        ensures
            match open_hunk(old(self)@, line@, line_number, hunk@, mode) {
                Ok(Some(next)) => r == Ok::<bool, PatchError>(true) && final(self)@ == next,
                Ok(None) => false,
                Err(e) => r is Err && r->Err_0@ == e && final(self)@ == old(self)@,
            },
    {
        match ensure_update_hunk_is_not_empty(&self.hunks, self.mode, line, line_number) {
            Err(e) => Err(e),
            Ok(()) => {
                proof {
                    hunk::lemma_hunk_views_push(self.hunks@, hunk);
                }
                self.hunks.push(hunk);
                self.mode = mode;
                Ok(true)
            },
        }
    }

    /// Takes `line` where it is a hunk header or the end marker; the answer
    /// says whether it was. An error leaves the parser as it was.
    pub fn handle_hunk_headers_and_end_patch(&mut self, line: &str, line_number: usize) -> (r:
        Result<bool, PatchError>)
        ensures
            match header_step(old(self)@, line@, line_number) {
                Ok(Some(next)) => r == Ok::<bool, PatchError>(true) && final(self)@ == next,
                Ok(None) => r == Ok::<bool, PatchError>(false) && final(self)@ == old(self)@,
                Err(e) => r is Err && r->Err_0@ == e && final(self)@ == old(self)@,
            },
    {
        let starting = match self.mode {
            PatchParseMode::StartedPatch => true,
            _ => false,
        };
        if starting {
            if let Some(value) = stripped_prefix(line, ENVIRONMENT_ID_MARKER) {
                if self.environment_id.is_some() {
                    return Err(PatchError::RepeatedEnvironment);
                }
                let value = trimmed(value);
                proof {
                    reveal_strlit("");
                    assert(value@.len() == 0 ==> value@ =~= ""@);
                }
                if str_eq(value, "") {
                    return Err(PatchError::EmptyEnvironment);
                }
                self.environment_id = Some(owned(value));
                return Ok(true);
            }
        }
        if str_eq(line, END_PATCH_MARKER) {
            return match ensure_update_hunk_is_not_empty(
                &self.hunks,
                self.mode,
                line,
                line_number,
            ) {
                Err(e) => Err(e),
                Ok(()) => {
                    self.mode = PatchParseMode::EndedPatch;
                    Ok(true)
                },
            };
        }
        if let Some(path) = stripped_prefix(line, ADD_FILE_MARKER) {
            let hunk = PatchHunk::AddFile {
                path: owned(trimmed(path)),
                contents: String::new(),
            };
            assert(hunk@ =~= HunkView::Add { path: text::trim(path@), contents: Seq::empty() });
            return self.open_hunk(line, line_number, hunk, PatchParseMode::AddFile);
        }
        if let Some(path) = stripped_prefix(line, DELETE_FILE_MARKER) {
            let hunk = PatchHunk::DeleteFile { path: owned(trimmed(path)) };
            return self.open_hunk(line, line_number, hunk, PatchParseMode::DeleteFile);
        }
        if let Some(path) = stripped_prefix(line, UPDATE_FILE_MARKER) {
            let hunk = PatchHunk::UpdateFile {
                path: owned(trimmed(path)),
                move_to: None,
                chunks: Vec::new(),
            };
            assert(hunk@ =~= HunkView::Update {
                path: text::trim(path@),
                move_to: None,
                chunks: Seq::empty(),
            });
            return self.open_hunk(
                line,
                line_number,
                hunk,
                PatchParseMode::UpdateFile { hunk_line_number: line_number },
            );
        }
        Ok(false)
    }

    /// Takes a line of an Add File hunk.
    fn take_add_line(&mut self, line: &str, line_number: usize) -> (r: Result<(), PatchError>)
        ensures
            match add_step(old(self)@, line@, line_number) {
                Ok(next) => r is Ok && final(self)@ == next,
                Err(e) => r is Err && r->Err_0@ == e && final(self)@ == old(self)@,
            },
    {
        let cut = trimmed(line);
        if let Some(added) = stripped_prefix(line, "+") {
            if self.hunks.len() > 0 {
                let ghost views = hunk::hunk_views(self.hunks@);
                match self.hunks.pop() {
                    Some(PatchHunk::AddFile { path, mut contents }) => {
                        assert(hunk::hunk_views(self.hunks@) =~= views.drop_last());
                        let ghost before = contents@;
                        contents.append(added);
                        contents.append("\n");
                        assert(contents@ =~= before + added@ + "\n"@);
                        let hunk = PatchHunk::AddFile { path, contents };
                        proof {
                            hunk::lemma_hunk_views_push(self.hunks@, hunk);
                        }
                        self.hunks.push(hunk);
                        return Ok(());
                    },
                    Some(other) => {
                        assert(!(views.last() is Add));
                        assert(hunk::hunk_views(self.hunks@.push(other)) =~= views);
                        self.hunks.push(other);
                    },
                    None => {},
                }
            }
        }
        if begins_with(cut, "*** ") {
            return Err(invalid_hunk_header(line_number, cut));
        }
        Err(invalid_hunk(line_number, HunkProblem::BadAddLine(owned(cut))))
    }

    /// Takes a body line of an update hunk.
    fn take_update_body_line(&mut self, line: &str, line_number: usize) -> (r: Result<
        (),
        PatchError,
    >)
        ensures
            match update_body_step(old(self)@, line@, line_number) {
                Ok(next) => r is Ok && final(self)@ == next,
                Err(e) => r is Err && r->Err_0@ == e && final(self)@ == old(self)@,
            },
    {
        let ghost views = hunk::hunk_views(self.hunks@);
        match self.hunks.pop() {
            Some(PatchHunk::UpdateFile { path, mut move_to, mut chunks }) => {
                assert(hunk::hunk_views(self.hunks@) =~= views.drop_last());
                assert(views.last() == HunkView::Update {
                    path: path@,
                    move_to: text::opt_text(move_to),
                    chunks: hunk::chunk_views(chunks@),
                });
                let r = take_update_line(&mut move_to, &mut chunks, line, line_number);
                let hunk = PatchHunk::UpdateFile { path, move_to, chunks };
                proof {
                    hunk::lemma_hunk_views_push(self.hunks@, hunk);
                    assert(r is Err ==> views.drop_last().push(hunk@) =~= views);
                }
                self.hunks.push(hunk);
                r
            },
            Some(other) => {
                assert(!(views.last() is Update));
                assert(hunk::hunk_views(self.hunks@.push(other)) =~= views);
                self.hunks.push(other);
                Err(invalid_hunk(line_number, HunkProblem::MissingState))
            },
            None => Err(invalid_hunk(line_number, HunkProblem::MissingState)),
        }
    }

    /// Takes one line of the patch. An error leaves the parser as it was.
    pub fn take_line(&mut self, raw: &str, line_number: usize) -> (r: Result<(), PatchError>)
        ensures
            match step(old(self)@, raw@, line_number) {
                Ok(next) => r is Ok && final(self)@ == next,
                Err(e) => r is Err && r->Err_0@ == e && final(self)@ == old(self)@,
            },
    {
        let line = without_return(raw);
        let cut = trimmed(line);
        match self.mode {
            PatchParseMode::NotStarted => {
                if str_eq(cut, BEGIN_PATCH_MARKER) {
                    self.mode = PatchParseMode::StartedPatch;
                    Ok(())
                } else {
                    Err(PatchError::MissingBegin)
                }
            },
            PatchParseMode::StartedPatch | PatchParseMode::DeleteFile => {
                match self.handle_hunk_headers_and_end_patch(cut, line_number) {
                    Err(e) => Err(e),
                    Ok(true) => Ok(()),
                    Ok(false) => Err(invalid_hunk_header(line_number, cut)),
                }
            },
            PatchParseMode::AddFile => {
                match self.handle_hunk_headers_and_end_patch(cut, line_number) {
                    Err(e) => Err(e),
                    Ok(true) => Ok(()),
                    Ok(false) => self.take_add_line(line, line_number),
                }
            },
            PatchParseMode::UpdateFile { .. } => {
                match self.handle_hunk_headers_and_end_patch(trimmed_end(line), line_number) {
                    Err(e) => Err(e),
                    Ok(true) => Ok(()),
                    Ok(false) => self.take_update_body_line(line, line_number),
                }
            },
            PatchParseMode::EndedPatch => {
                proof {
                    reveal_strlit("");
                    assert(cut@.len() == 0 ==> cut@ =~= ""@);
                }
                if str_eq(cut, "") {
                    Ok(())
                } else {
                    Err(PatchError::MissingEnd)
                }
            },
        }
    }
}

/// `raw` without one carriage return at its end.
fn without_return(raw: &str) -> (r: &str)
    ensures
        r@ == text::strip_cr(raw@),
{
    proof {
        reveal_strlit("\r");
        if raw@.len() > 0 {
            assert(raw@.skip(raw@.len() - 1) =~= seq![raw@.last()]);
            assert("\r"@ =~= seq!['\r']);
            assert(raw@.last() == '\r' ==> raw@.skip(raw@.len() - 1) == "\r"@);
            assert(raw@.skip(raw@.len() - 1) == "\r"@ ==> raw@.skip(raw@.len() - 1)[0]
                == "\r"@[0]);
            assert(raw@.drop_last() =~= raw@.take(raw@.len() - 1));
        }
    }
    match stripped_suffix(raw, "\r") {
        Some(line) => line,
        None => raw,
    }
}

/// Checks that `lines` stand between the two patch markers.
pub fn check_start_and_end_lines(lines: &[String]) -> (r: Result<(), PatchError>)
    ensures
        match envelope_error(text::texts(lines@)) {
            None => r is Ok,
            Some(e) => r is Err && r->Err_0@ == e,
        },
{
    if lines.len() > 0 {
        if !str_eq(trimmed(lines[0].as_str()), BEGIN_PATCH_MARKER) {
            return Err(PatchError::MissingBegin);
        }
        if str_eq(trimmed(lines[lines.len() - 1].as_str()), END_PATCH_MARKER) {
            return Ok(());
        }
    }
    Err(PatchError::MissingEnd)
}

/// The lines of the patch proper, unwrapped from a here-document where they
/// are in one.
pub fn check_patch_boundaries(lines: &[String]) -> (r: Result<&[String], PatchError>)
    ensures
        match patch_lines(text::texts(lines@)) {
            Ok(inner) => r is Ok && text::texts(r->Ok_0@) == inner,
            Err(e) => r is Err && r->Err_0@ == e,
        },
{
    match check_start_and_end_lines(lines) {
        Ok(()) => Ok(lines),
        Err(e) => {
            if lines.len() >= 4 {
                let first = lines[0].as_str();
                if (str_eq(first, "<<EOF") || str_eq(first, "<<'EOF'") || str_eq(
                    first,
                    "<<\"EOF\"",
                )) && finishes_with(lines[lines.len() - 1].as_str(), "EOF") {
                    let inner = slice_subrange(lines, 1, lines.len() - 1);
                    assert(text::texts(inner@) =~= text::texts(lines@).subrange(
                        1,
                        lines@.len() - 1,
                    ));
                    return match check_start_and_end_lines(inner) {
                        Ok(()) => Ok(inner),
                        Err(e) => Err(e),
                    };
                }
            }
            Err(e)
        },
    }
}

/// Parses a patch.
pub fn parse_apply_patch(input: &str) -> (r: Result<Vec<PatchHunk>, PatchError>)
    ensures
        match parse(input@) {
            Ok(hunks) => r is Ok && hunk::hunk_views(r->Ok_0@) == hunks,
            Err(e) => r is Err && r->Err_0@ == e,
        },
{
    let all_lines = lines_of(trimmed(input));
    let lines = match check_patch_boundaries(all_lines.as_slice()) {
        Ok(lines) => lines,
        Err(e) => return Err(e),
    };
    let ghost views = text::texts(lines@);
    let mut parser = PatchParser::new();
    let mut i: usize = 0;
    while i < lines.len()
        invariant
            i <= lines@.len(),
            views == text::texts(lines@),
            patch_lines(text::lines(text::trim(input@))) == Ok::<Seq<Seq<char>>, PatchErrorView>(
                views,
            ),
            run(start_state(), views, 0) == run(parser@, views, i as int),
        decreases lines@.len() - i,
    {
        assert(views[i as int] == lines@[i as int]@);
        match parser.take_line(lines[i].as_str(), i + 1) {
            Ok(()) => {},
            Err(e) => return Err(e),
        }
        i = i + 1;
    }
    match parser.mode {
        PatchParseMode::EndedPatch => {},
        _ => return Err(PatchError::MissingEnd),
    }
    if parser.hunks.len() == 0 {
        return Err(PatchError::NoHunks);
    }
    Ok(parser.hunks)
}

// ---------------------------------------------------------------------------
// Laws
// ---------------------------------------------------------------------------

/// Whether a hunk can be carried out: an update has a chunk, and each of its
/// chunks a line; an added file is empty or ends in a line feed.
pub open spec fn is_complete(h: HunkView) -> bool {
    match h {
        HunkView::Update { chunks, .. } => chunks.len() > 0 && forall|i: int|
            0 <= i < chunks.len() ==> !is_blank(#[trigger] chunks[i]),
        HunkView::Add { contents, .. } => contents.len() == 0 || contents.last() == '\n',
        HunkView::Delete { .. } => true,
    }
}

/// Whether the paths of a hunk are there, with no white space around them.
pub open spec fn is_named(h: HunkView) -> bool {
    &&& text::is_trimmed(hunk::path_of(h))
    &&& h matches HunkView::Update { move_to: Some(dest), .. } ==> text::is_trimmed(dest)
}

/// Whether every chunk but the last has a line.
pub open spec fn filled_but_last(chunks: Seq<ChunkView>) -> bool {
    forall|i: int| 0 <= i < chunks.len() - 1 ==> !is_blank(#[trigger] chunks[i])
}

/// What holds of the state after `lines_read` lines.
pub open spec fn is_sound(s: ParseState, lines_read: int) -> bool {
    &&& forall|i: int| 0 <= i < s.hunks.len() - 1 ==> is_complete(#[trigger] s.hunks[i])
    &&& forall|i: int| 0 <= i < s.hunks.len() ==> is_named(#[trigger] s.hunks[i])
    &&& match s.mode {
        PatchParseMode::NotStarted | PatchParseMode::StartedPatch => s.hunks.len() == 0,
        PatchParseMode::AddFile => s.hunks.len() > 0 && s.hunks.last() is Add && is_complete(
            s.hunks.last(),
        ),
        PatchParseMode::DeleteFile => s.hunks.len() > 0 && s.hunks.last() is Delete,
        PatchParseMode::UpdateFile { hunk_line_number } => {
            &&& s.hunks.len() > 0
            &&& s.hunks.last() is Update
            &&& filled_but_last(s.hunks.last()->chunks)
            &&& 1 <= hunk_line_number <= lines_read
        },
        PatchParseMode::EndedPatch => s.hunks.len() > 0 ==> is_complete(s.hunks.last()),
    }
}

/// Whether an error names no line, or one of the first `count`.
pub open spec fn names_line(e: PatchErrorView, count: int) -> bool {
    e matches PatchErrorView::InvalidHunk(n, _) ==> 1 <= n <= count
}

proof fn lemma_closing(hunks: Seq<HunkView>, mode: PatchParseMode, line: Seq<char>, n: usize, s: ParseState, read: int)
    requires
        is_sound(s, read),
        s.hunks == hunks,
        s.mode == mode,
        n == read + 1,
    ensures
        match closing_error(hunks, mode, line, n) {
            Some(e) => names_line(e, n as int),
            None => forall|i: int| 0 <= i < hunks.len() ==> is_complete(#[trigger] hunks[i]),
        },
{
    if closing_error(hunks, mode, line, n) is None {
        assert forall|i: int| 0 <= i < hunks.len() implies is_complete(#[trigger] hunks[i]) by {
            if i == hunks.len() - 1 {
                assert(hunks[i] == hunks.last());
            }
        }
    }
}

/// Behind a marker that ends in a space, a line without trailing white space
/// holds something.
proof fn lemma_path(line: Seq<char>, marker: Seq<char>)
    requires
        line.len() > 0 ==> !text::is_white_space(line.last()),
        marker.len() > 0,
        marker.last() == ' ',
    ensures
        text::strip_prefix(line, marker) matches Some(path) ==> text::is_trimmed(
            text::trim(path),
        ),
{
    if let Some(path) = text::strip_prefix(line, marker) {
        assert(path =~= line.skip(marker.len() as int));
        if path.len() == 0 {
            assert(line.take(marker.len() as int) =~= line);
            assert(line.last() == marker.last());
        } else {
            assert(path.last() == line.last());
        }
        text::lemma_trim(path);
    }
}

proof fn lemma_header_step(s: ParseState, line: Seq<char>, n: usize)
    requires
        line.len() > 0 ==> !text::is_white_space(line.last()),
        is_sound(s, n - 1),
        n >= 1,
        !(s.mode is NotStarted),
    ensures
        match header_step(s, line, n) {
            Ok(Some(next)) => is_sound(next, n as int),
            Ok(None) => true,
            Err(e) => names_line(e, n as int),
        },
{
    lemma_closing(s.hunks, s.mode, line, n, s, n - 1);
    reveal_strlit("*** Add File: ");
    reveal_strlit("*** Delete File: ");
    reveal_strlit("*** Update File: ");
    lemma_path(line, ADD_FILE_MARKER@);
    lemma_path(line, DELETE_FILE_MARKER@);
    lemma_path(line, UPDATE_FILE_MARKER@);
}

proof fn lemma_update_step(move_to: Option<Seq<char>>, chunks: Seq<ChunkView>, line: Seq<char>, n: usize)
    requires
        filled_but_last(chunks),
        move_to is Some ==> text::is_trimmed(move_to->0),
        n >= 1,
    ensures
        match update_step(move_to, chunks, line, n) {
            Ok(next) => filled_but_last(next.1) && (next.0 is Some ==> text::is_trimmed(
                next.0->0,
            )),
            Err(e) => names_line(e, n as int),
        },
{
    text::lemma_trim_end(line);
    reveal_strlit("*** Move to: ");
    lemma_path(text::trim_end(line), MOVE_TO_MARKER@);
    match update_step(move_to, chunks, line, n) {
        Ok(next) => {
            assert forall|i: int| 0 <= i < next.1.len() - 1 implies !is_blank(
                #[trigger] next.1[i],
            ) by {
                if chunks.len() > 0 {
                    assert(next.1[i] == chunks[i]);
                    if i == chunks.len() - 1 {
                        assert(chunks[i] == chunks.last());
                    }
                }
            }
        },
        Err(_) => {},
    }
}

proof fn lemma_step(s: ParseState, raw: Seq<char>, n: usize)
    requires
        is_sound(s, n - 1),
        n >= 1,
    ensures
        match step(s, raw, n) {
            Ok(next) => is_sound(next, n as int),
            Err(e) => names_line(e, n as int),
        },
{
    let line = text::strip_cr(raw);
    text::lemma_trim(line);
    text::lemma_trim_end(line);
    if !(s.mode is NotStarted) {
        lemma_header_step(s, text::trim(line), n);
        lemma_header_step(s, text::trim_end(line), n);
    }
    if s.hunks.len() > 0 {
        assert(s.hunks.last() == s.hunks[s.hunks.len() - 1]);
        assert(is_named(s.hunks.last()));
    }
    if s.mode is UpdateFile {
        lemma_update_step(s.hunks.last()->move_to, s.hunks.last()->chunks, line, n);
    }
    reveal_strlit("\n");
}

proof fn lemma_run(s: ParseState, lines: Seq<Seq<char>>, from: int)
    requires
        is_sound(s, from),
        0 <= from <= lines.len() <= usize::MAX,
    ensures
        match run(s, lines, from) {
            Ok(end) => is_sound(end, lines.len() as int),
            Err(e) => names_line(e, lines.len() as int),
        },
    decreases lines.len() - from,
{
    if from < lines.len() {
        let n = (from + 1) as usize;
        lemma_step(s, lines[from], n);
        if let Ok(next) = step(s, lines[from], n) {
            lemma_run(next, lines, from + 1);
        }
    }
}

/// A patch that parses has a hunk, each of its hunks can be carried out, and
/// its paths and destinations are there with no white space around them.
/// A rejected patch's error names a line of the patch, where it names one.
pub proof fn law_parsed_hunks_are_complete(input: Seq<char>)
    requires
        text::lines(text::trim(input)).len() <= usize::MAX,
    ensures
        match parse(input) {
            Ok(hunks) => hunks.len() > 0 && forall|i: int|
                0 <= i < hunks.len() ==> is_complete(#[trigger] hunks[i]) && is_named(hunks[i]),
            Err(e) => names_line(e, text::lines(text::trim(input)).len() as int),
        },
{
    let all = text::lines(text::trim(input));
    if let Ok(lines) = patch_lines(all) {
        lemma_run(start_state(), lines, 0);
        if let Ok(hunks) = parse(input) {
            assert forall|i: int| 0 <= i < hunks.len() implies is_complete(#[trigger] hunks[i])
                && is_named(hunks[i]) by {
                if i == hunks.len() - 1 {
                    assert(hunks[i] == hunks.last());
                }
            }
        }
    }
}

/// Lines are a patch exactly where the first and the last are the two markers;
/// the first is missed before the last.
pub proof fn law_the_markers_stand_first_and_last(lines: Seq<Seq<char>>)
    ensures
        envelope_error(lines) is None <==> lines.len() > 0 && text::trim(lines[0])
            == "*** Begin Patch"@ && text::trim(lines.last()) == "*** End Patch"@,
        envelope_error(lines) == Some(PatchErrorView::MissingBegin) <==> lines.len() > 0
            && text::trim(lines[0]) != "*** Begin Patch"@,
        envelope_error(lines) is Some ==> envelope_error(lines) == Some(
            PatchErrorView::MissingBegin,
        ) || envelope_error(lines) == Some(PatchErrorView::MissingEnd),
        envelope_error(lines) is None ==> patch_lines(lines) == Ok::<Seq<Seq<char>>, PatchErrorView>(
            lines,
        ),
{
}

/// Lines that are no patch may be one inside a here-document: between a line that
/// opens it and one that ends with its word stand the lines of the patch. Any
/// others are no patch.
pub proof fn law_here_documents_hold_the_lines_between(
    mark: Seq<char>,
    inner: Seq<Seq<char>>,
    end: Seq<char>,
    lines: Seq<Seq<char>>,
)
    requires
        mark == "<<EOF"@ || mark == "<<'EOF'"@ || mark == "<<\"EOF\""@,
        inner.len() >= 2,
        text::ends_with(end, "EOF"@),
        envelope_error(seq![mark] + inner + seq![end]) is Some,
    ensures
        envelope_error(inner) is None ==> patch_lines(seq![mark] + inner + seq![end]) == Ok::<
            Seq<Seq<char>>,
            PatchErrorView,
        >(inner),
        envelope_error(inner) matches Some(e) ==> patch_lines(seq![mark] + inner + seq![end])
            == Err::<Seq<Seq<char>>, PatchErrorView>(e),
        patch_lines(lines) is Ok && envelope_error(lines) is Some ==> lines.len() >= 4 && (lines[0]
            == "<<EOF"@ || lines[0] == "<<'EOF'"@ || lines[0] == "<<\"EOF\""@) && text::ends_with(
            lines.last(),
            "EOF"@,
        ) && patch_lines(lines)->Ok_0 == lines.subrange(1, lines.len() - 1),
{
    let all = seq![mark] + inner + seq![end];
    assert(all.subrange(1, all.len() - 1) =~= inner);
    assert(all[0] == mark);
    assert(all.last() == end);
}

} // verus!
