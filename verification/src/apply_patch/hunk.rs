//! What a patch holds: hunks, chunks, and the errors a malformed patch gives.

use crate::text;
use crate::text::{cat3, cat4, decimal_of_usize, owned};
use vstd::prelude::*;

verus! {

/// One replacement inside a file: the lines expected there and the lines to
/// put in their place.
#[derive(Debug, Clone)]
pub struct UpdateFileChunk {
    pub change_context: Option<String>,
    pub old_lines: Vec<String>,
    pub new_lines: Vec<String>,
    pub is_end_of_file: bool,
}

/// One file operation of a patch.
#[derive(Debug)]
pub enum PatchHunk {
    AddFile { path: String, contents: String },
    DeleteFile { path: String },
    UpdateFile { path: String, move_to: Option<String>, chunks: Vec<UpdateFileChunk> },
}

/// What an [`UpdateFileChunk`] stands for.
#[verifier::ext_equal]
pub struct ChunkView {
    pub context: Option<Seq<char>>,
    pub old_lines: Seq<Seq<char>>,
    pub new_lines: Seq<Seq<char>>,
    pub at_end: bool,
}

/// What a [`PatchHunk`] stands for.
#[verifier::ext_equal]
pub enum HunkView {
    Add { path: Seq<char>, contents: Seq<char> },
    Delete { path: Seq<char> },
    Update { path: Seq<char>, move_to: Option<Seq<char>>, chunks: Seq<ChunkView> },
}

impl View for UpdateFileChunk {
    type V = ChunkView;

    open spec fn view(&self) -> ChunkView {
        ChunkView {
            context: text::opt_text(self.change_context),
            old_lines: text::texts(self.old_lines@),
            new_lines: text::texts(self.new_lines@),
            at_end: self.is_end_of_file,
        }
    }
}

/// The chunks that a list of [`UpdateFileChunk`] stands for.
pub open spec fn chunk_views(chunks: Seq<UpdateFileChunk>) -> Seq<ChunkView> {
    Seq::new(chunks.len(), |i: int| chunks[i]@)
}

impl View for PatchHunk {
    type V = HunkView;

    open spec fn view(&self) -> HunkView {
        match self {
            PatchHunk::AddFile { path, contents } => HunkView::Add {
                path: path@,
                contents: contents@,
            },
            PatchHunk::DeleteFile { path } => HunkView::Delete { path: path@ },
            PatchHunk::UpdateFile { path, move_to, chunks } => HunkView::Update {
                path: path@,
                move_to: text::opt_text(*move_to),
                chunks: chunk_views(chunks@),
            },
        }
    }
}

/// The path that a hunk is about.
pub open spec fn path_of(h: HunkView) -> Seq<char> {
    match h {
        HunkView::Add { path, .. } => path,
        HunkView::Delete { path } => path,
        HunkView::Update { path, .. } => path,
    }
}

/// Where a hunk moves its file, or nothing.
pub open spec fn dest_of(h: HunkView) -> Seq<char> {
    match h {
        HunkView::Update { move_to: Some(dest), .. } => dest,
        _ => Seq::empty(),
    }
}

/// How many chunks a hunk has.
pub open spec fn chunk_count(h: HunkView) -> nat {
    match h {
        HunkView::Update { chunks, .. } => chunks.len(),
        _ => 0,
    }
}

/// The hunks that a list of [`PatchHunk`] stands for.
pub open spec fn hunk_views(hunks: Seq<PatchHunk>) -> Seq<HunkView> {
    Seq::new(hunks.len(), |i: int| hunks[i]@)
}

pub proof fn lemma_chunk_views_push(chunks: Seq<UpdateFileChunk>, chunk: UpdateFileChunk)
    ensures
        chunk_views(chunks.push(chunk)) == chunk_views(chunks).push(chunk@),
{
    assert(chunk_views(chunks.push(chunk)) =~= chunk_views(chunks).push(chunk@));
}

pub proof fn lemma_hunk_views_push(hunks: Seq<PatchHunk>, hunk: PatchHunk)
    ensures
        hunk_views(hunks.push(hunk)) == hunk_views(hunks).push(hunk@),
{
    assert(hunk_views(hunks.push(hunk)) =~= hunk_views(hunks).push(hunk@));
}

/// What is wrong with a line inside a hunk.
#[derive(Debug)]
pub enum HunkProblem {
    /// The line is neither a hunk header nor anything allowed in its place.
    NotAHeader(String),
    /// The line may not stand in an update hunk.
    UnexpectedUpdateLine(String),
    /// The update hunk for this path has no chunk.
    EmptyUpdate(String),
    /// The last chunk of an update hunk has no line.
    NoLines,
    /// The line stands in an Add File hunk without a plus sign.
    BadAddLine(String),
    /// A new chunk has to start with a context marker.
    ExpectedContext(String),
    /// An update line came without an update hunk.
    MissingState,
}

/// Why a patch was rejected.
#[derive(Debug)]
pub enum PatchError {
    MissingBegin,
    MissingEnd,
    RepeatedEnvironment,
    EmptyEnvironment,
    NoHunks,
    InvalidHunk { line_number: usize, problem: HunkProblem },
}

/// What a [`HunkProblem`] stands for.
pub enum ProblemView {
    NotAHeader(Seq<char>),
    UnexpectedUpdateLine(Seq<char>),
    EmptyUpdate(Seq<char>),
    NoLines,
    BadAddLine(Seq<char>),
    ExpectedContext(Seq<char>),
    MissingState,
}

/// What a [`PatchError`] stands for.
pub enum PatchErrorView {
    MissingBegin,
    MissingEnd,
    RepeatedEnvironment,
    EmptyEnvironment,
    NoHunks,
    InvalidHunk(usize, ProblemView),
}

impl View for HunkProblem {
    type V = ProblemView;

    open spec fn view(&self) -> ProblemView {
        match self {
            HunkProblem::NotAHeader(line) => ProblemView::NotAHeader(line@),
            HunkProblem::UnexpectedUpdateLine(line) => ProblemView::UnexpectedUpdateLine(line@),
            HunkProblem::EmptyUpdate(path) => ProblemView::EmptyUpdate(path@),
            HunkProblem::NoLines => ProblemView::NoLines,
            HunkProblem::BadAddLine(line) => ProblemView::BadAddLine(line@),
            HunkProblem::ExpectedContext(line) => ProblemView::ExpectedContext(line@),
            HunkProblem::MissingState => ProblemView::MissingState,
        }
    }
}

impl View for PatchError {
    type V = PatchErrorView;

    open spec fn view(&self) -> PatchErrorView {
        match self {
            PatchError::MissingBegin => PatchErrorView::MissingBegin,
            PatchError::MissingEnd => PatchErrorView::MissingEnd,
            PatchError::RepeatedEnvironment => PatchErrorView::RepeatedEnvironment,
            PatchError::EmptyEnvironment => PatchErrorView::EmptyEnvironment,
            PatchError::NoHunks => PatchErrorView::NoHunks,
            PatchError::InvalidHunk { line_number, problem } => PatchErrorView::InvalidHunk(
                *line_number,
                problem@,
            ),
        }
    }
}

/// The text of a problem inside a hunk.
pub open spec fn problem_message(p: ProblemView) -> Seq<char> {
    match p {
        ProblemView::NotAHeader(line) => "'"@ + line
            + "' is not a valid hunk header. Valid hunk headers: '*** Add File: {path}', '*** Delete File: {path}', '*** Update File: {path}'"@,
        ProblemView::UnexpectedUpdateLine(line) => "Unexpected line found in update hunk: '"@ + line
            + "'. Every line should start with ' ' (context line), '+' (added line), or '-' (removed line)"@,
        ProblemView::EmptyUpdate(path) => "Update file hunk for path '"@ + path + "' is empty"@,
        ProblemView::NoLines => "Update hunk does not contain any lines"@,
        ProblemView::BadAddLine(line) => "'"@ + line
            + "' is not a valid line in an Add File hunk: every added line must start with '+'"@,
        ProblemView::ExpectedContext(line) =>
            "Expected update hunk to start with a @@ context marker, got: '"@ + line + "'"@,
        ProblemView::MissingState => "update hunk state is missing"@,
    }
}

/// The text of a rejected patch's error.
pub open spec fn error_message(e: PatchErrorView) -> Seq<char> {
    match e {
        PatchErrorView::MissingBegin =>
            "invalid patch: The first line of the patch must be '*** Begin Patch'"@,
        PatchErrorView::MissingEnd =>
            "invalid patch: The last line of the patch must be '*** End Patch'"@,
        PatchErrorView::RepeatedEnvironment =>
            "invalid patch: apply_patch environment_id cannot be specified more than once"@,
        PatchErrorView::EmptyEnvironment =>
            "invalid patch: apply_patch environment_id cannot be empty"@,
        PatchErrorView::NoHunks => "invalid patch: no hunks found"@,
        PatchErrorView::InvalidHunk(n, p) => "invalid hunk at line "@ + text::decimal(n as nat) + ", "@
            + problem_message(p),
    }
}

impl HunkProblem {
    /// The text of this problem.
    pub fn message(&self) -> (r: String)
        ensures
            r@ == problem_message(self@),
    {
        match self {
            HunkProblem::NotAHeader(line) => cat3(
                "'",
                line.as_str(),
                "' is not a valid hunk header. Valid hunk headers: '*** Add File: {path}', '*** Delete File: {path}', '*** Update File: {path}'",
            ),
            HunkProblem::UnexpectedUpdateLine(line) => cat3(
                "Unexpected line found in update hunk: '",
                line.as_str(),
                "'. Every line should start with ' ' (context line), '+' (added line), or '-' (removed line)",
            ),
            HunkProblem::EmptyUpdate(path) => cat3(
                "Update file hunk for path '",
                path.as_str(),
                "' is empty",
            ),
            HunkProblem::NoLines => owned("Update hunk does not contain any lines"),
            HunkProblem::BadAddLine(line) => cat3(
                "'",
                line.as_str(),
                "' is not a valid line in an Add File hunk: every added line must start with '+'",
            ),
            HunkProblem::ExpectedContext(line) => cat3(
                "Expected update hunk to start with a @@ context marker, got: '",
                line.as_str(),
                "'",
            ),
            HunkProblem::MissingState => owned("update hunk state is missing"),
        }
    }
}

impl PatchError {
    /// The text of this error.
    pub fn message(&self) -> (r: String)
        ensures
            r@ == error_message(self@),
    {
        match self {
            PatchError::MissingBegin => owned(
                "invalid patch: The first line of the patch must be '*** Begin Patch'",
            ),
            PatchError::MissingEnd => owned(
                "invalid patch: The last line of the patch must be '*** End Patch'",
            ),
            PatchError::RepeatedEnvironment => owned(
                "invalid patch: apply_patch environment_id cannot be specified more than once",
            ),
            PatchError::EmptyEnvironment => owned(
                "invalid patch: apply_patch environment_id cannot be empty",
            ),
            PatchError::NoHunks => owned("invalid patch: no hunks found"),
            PatchError::InvalidHunk { line_number, problem } => cat4(
                "invalid hunk at line ",
                decimal_of_usize(*line_number).as_str(),
                ", ",
                problem.message().as_str(),
            ),
        }
    }
}

/// An error about the hunk at `line_number`.
pub fn invalid_hunk(line_number: usize, problem: HunkProblem) -> (e: PatchError)
    ensures
        e@ == PatchErrorView::InvalidHunk(line_number, problem@),
{
    PatchError::InvalidHunk { line_number, problem }
}

/// The error for a line that should have been a hunk header.
pub fn invalid_hunk_header(line_number: usize, line: &str) -> (e: PatchError)
    ensures
        e@ == PatchErrorView::InvalidHunk(line_number, ProblemView::NotAHeader(line@)),
{
    invalid_hunk(line_number, HunkProblem::NotAHeader(owned(line)))
}

/// The error for a line that may not stand in an update hunk.
pub fn unexpected_update_line(line_number: usize, line: &str) -> (e: PatchError)
    ensures
        e@ == PatchErrorView::InvalidHunk(line_number, ProblemView::UnexpectedUpdateLine(line@)),
{
    invalid_hunk(line_number, HunkProblem::UnexpectedUpdateLine(owned(line)))
}

/// The text of an error in a hunk names the line of the patch, and holds the
/// text of the line, or the path, that it is about.
pub proof fn law_hunk_errors_name_the_line(n: usize, p: ProblemView)
    ensures
        text::starts_with(
            error_message(PatchErrorView::InvalidHunk(n, p)),
            "invalid hunk at line "@ + text::decimal(n as nat) + ", "@,
        ),
        text::ends_with(error_message(PatchErrorView::InvalidHunk(n, p)), problem_message(p)),
        p matches ProblemView::NotAHeader(line) ==> text::contains(
            problem_message(p),
            "'"@ + line + "'"@,
        ),
        p matches ProblemView::UnexpectedUpdateLine(line) ==> text::contains(
            problem_message(p),
            "'"@ + line + "'"@,
        ),
        p matches ProblemView::EmptyUpdate(path) ==> text::contains(
            problem_message(p),
            "'"@ + path + "'"@,
        ),
        p matches ProblemView::BadAddLine(line) ==> text::contains(
            problem_message(p),
            "'"@ + line + "'"@,
        ),
        p matches ProblemView::ExpectedContext(line) ==> text::contains(
            problem_message(p),
            "'"@ + line + "'"@,
        ),
{
    let front = "invalid hunk at line "@ + text::decimal(n as nat) + ", "@;
    text::law_stripping_undoes_putting(problem_message(p), front);
    text::law_stripping_undoes_putting(front, problem_message(p));
    match p {
        ProblemView::NotAHeader(line) => lemma_quoted(problem_message(p), line),
        ProblemView::UnexpectedUpdateLine(line) => lemma_quoted(problem_message(p), line),
        ProblemView::EmptyUpdate(path) => lemma_quoted(problem_message(p), path),
        ProblemView::BadAddLine(line) => lemma_quoted(problem_message(p), line),
        ProblemView::ExpectedContext(line) => lemma_quoted(problem_message(p), line),
        _ => {},
    }
}

proof fn lemma_quoted(message: Seq<char>, line: Seq<char>)
    requires
        exists|p: ProblemView| #[trigger] problem_message(p) == message && (p
            == ProblemView::NotAHeader(line) || p == ProblemView::UnexpectedUpdateLine(line) || p
            == ProblemView::EmptyUpdate(line) || p == ProblemView::BadAddLine(line) || p
            == ProblemView::ExpectedContext(line)),
    ensures
        text::contains(message, "'"@ + line + "'"@),
{
    reveal_strlit("'");
    reveal_strlit(
        "' is not a valid hunk header. Valid hunk headers: '*** Add File: {path}', '*** Delete File: {path}', '*** Update File: {path}'",
    );
    reveal_strlit("Unexpected line found in update hunk: '");
    reveal_strlit(
        "'. Every line should start with ' ' (context line), '+' (added line), or '-' (removed line)",
    );
    reveal_strlit("Update file hunk for path '");
    reveal_strlit("' is empty");
    reveal_strlit(
        "' is not a valid line in an Add File hunk: every added line must start with '+'",
    );
    reveal_strlit("Expected update hunk to start with a @@ context marker, got: '");
    let p = choose|p: ProblemView| #[trigger] problem_message(p) == message && (p
        == ProblemView::NotAHeader(line) || p == ProblemView::UnexpectedUpdateLine(line) || p
        == ProblemView::EmptyUpdate(line) || p == ProblemView::BadAddLine(line) || p
        == ProblemView::ExpectedContext(line));
    let at = if p is UnexpectedUpdateLine {
        "Unexpected line found in update hunk: '"@.len() - 1
    } else if p is EmptyUpdate {
        "Update file hunk for path '"@.len() - 1
    } else if p is ExpectedContext {
        "Expected update hunk to start with a @@ context marker, got: '"@.len() - 1
    } else {
        0int
    };
    let quoted = "'"@ + line + "'"@;
    assert(message.subrange(at, at + quoted.len()) =~= quoted);
    assert(text::occurs_at(message, quoted, at));
}

/// Every hunk tells the path that it is about, and one that moves its file
/// tells where to; no other does.
pub proof fn law_hunks_tell_their_paths(h: HunkView)
    ensures
        h matches HunkView::Add { path, .. } ==> path_of(h) == path && dest_of(h).len() == 0,
        h matches HunkView::Delete { path } ==> path_of(h) == path && dest_of(h).len() == 0,
        h matches HunkView::Update { path, .. } ==> path_of(h) == path,
        h matches HunkView::Update { move_to: Some(dest), .. } ==> dest_of(h) == dest,
        h matches HunkView::Update { move_to: None, .. } ==> dest_of(h).len() == 0,
{
}

/// What is told of a problem ends by saying what is wrong.
pub proof fn law_problems_say_what_is_wrong(p: ProblemView)
    ensures
        p is NotAHeader ==> text::ends_with(
            problem_message(p),
            "' is not a valid hunk header. Valid hunk headers: '*** Add File: {path}', '*** Delete File: {path}', '*** Update File: {path}'"@,
        ),
        p is UnexpectedUpdateLine ==> text::starts_with(
            problem_message(p),
            "Unexpected line found in update hunk: '"@,
        ) && text::ends_with(
            problem_message(p),
            "'. Every line should start with ' ' (context line), '+' (added line), or '-' (removed line)"@,
        ),
        p is EmptyUpdate ==> text::starts_with(problem_message(p), "Update file hunk for path '"@)
            && text::ends_with(problem_message(p), "' is empty"@),
        p is BadAddLine ==> text::ends_with(
            problem_message(p),
            "' is not a valid line in an Add File hunk: every added line must start with '+'"@,
        ),
        p is ExpectedContext ==> text::starts_with(
            problem_message(p),
            "Expected update hunk to start with a @@ context marker, got: '"@,
        ),
        p is NoLines ==> problem_message(p) == "Update hunk does not contain any lines"@,
        p is MissingState ==> problem_message(p) == "update hunk state is missing"@,
{
    match p {
        ProblemView::NotAHeader(line) => {
            lemma_ends("'"@ + line, problem_end(p));
        },
        ProblemView::UnexpectedUpdateLine(line) => {
            let a = "Unexpected line found in update hunk: '"@;
            lemma_ends(a + line, problem_end(p));
            assert((a + line + problem_end(p)).take(a.len() as int) =~= a);
        },
        ProblemView::EmptyUpdate(path) => {
            let a = "Update file hunk for path '"@;
            lemma_ends(a + path, problem_end(p));
            assert((a + path + problem_end(p)).take(a.len() as int) =~= a);
        },
        ProblemView::BadAddLine(line) => {
            lemma_ends("'"@ + line, problem_end(p));
        },
        ProblemView::ExpectedContext(line) => {
            let a = "Expected update hunk to start with a @@ context marker, got: '"@;
            assert((a + line + "'"@).take(a.len() as int) =~= a);
        },
        _ => {},
    }
}

spec fn problem_end(p: ProblemView) -> Seq<char> {
    match p {
        ProblemView::NotAHeader(_) =>
            "' is not a valid hunk header. Valid hunk headers: '*** Add File: {path}', '*** Delete File: {path}', '*** Update File: {path}'"@,
        ProblemView::UnexpectedUpdateLine(_) =>
            "'. Every line should start with ' ' (context line), '+' (added line), or '-' (removed line)"@,
        ProblemView::EmptyUpdate(_) => "' is empty"@,
        ProblemView::BadAddLine(_) =>
            "' is not a valid line in an Add File hunk: every added line must start with '+'"@,
        _ => Seq::empty(),
    }
}

proof fn lemma_ends(a: Seq<char>, b: Seq<char>)
    ensures
        text::ends_with(a + b, b),
{
    assert((a + b).skip(a.len() as int) =~= b);
}

} // verus!
