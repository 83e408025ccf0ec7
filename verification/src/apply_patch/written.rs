//! Patches as they are written: reading one gives back what was written.

use crate::apply_patch::hunk::{ChunkView, HunkView, PatchErrorView};
use crate::apply_patch::parser;
use crate::apply_patch::parser::{ParseState, PatchParseMode};
use crate::sort;
use crate::text;
use vstd::prelude::*;

verus! {

// ---------------------------------------------------------------------------
// What is written
// ---------------------------------------------------------------------------

/// What a line of a chunk says of the file.
pub enum Mark {
    Kept,
    Added,
    Removed,
}

/// A line of a chunk.
#[verifier::ext_equal]
pub struct BodyLine {
    pub mark: Mark,
    pub text: Seq<char>,
}

/// A chunk of an update hunk.
#[verifier::ext_equal]
pub struct WrittenChunk {
    pub context: Option<Seq<char>>,
    pub body: Seq<BodyLine>,
    pub at_end: bool,
}

/// A hunk of a patch.
#[verifier::ext_equal]
pub enum WrittenHunk {
    Add { path: Seq<char>, lines: Seq<Seq<char>> },
    Delete { path: Seq<char> },
    Update { path: Seq<char>, move_to: Option<Seq<char>>, chunks: Seq<WrittenChunk> },
}

/// A line of a chunk behind its mark.
pub open spec fn body_line(line: BodyLine) -> Seq<char> {
    (match line.mark {
        Mark::Kept => seq![' '],
        Mark::Added => seq!['+'],
        Mark::Removed => seq!['-'],
    }) + line.text
}

/// The lines of a chunk.
pub open spec fn chunk_lines(chunk: WrittenChunk) -> Seq<Seq<char>> {
    seq![
        match chunk.context {
            Some(context) => seq!['@', '@', ' '] + context,
            None => seq!['@', '@'],
        },
    ] + Seq::new(chunk.body.len(), |i: int| body_line(chunk.body[i])) + (if chunk.at_end {
        seq!["*** End of File"@]
    } else {
        Seq::empty()
    })
}

/// The lines of chunks, one chunk behind the other.
pub open spec fn chunks_lines(chunks: Seq<WrittenChunk>) -> Seq<Seq<char>>
    decreases chunks.len(),
{
    if chunks.len() == 0 {
        Seq::empty()
    } else {
        chunks_lines(chunks.drop_last()) + chunk_lines(chunks.last())
    }
}

/// The lines of a hunk.
pub open spec fn hunk_lines(hunk: WrittenHunk) -> Seq<Seq<char>> {
    match hunk {
        WrittenHunk::Add { path, lines } => seq!["*** Add File: "@ + path] + Seq::new(
            lines.len(),
            |i: int| seq!['+'] + lines[i],
        ),
        WrittenHunk::Delete { path } => seq!["*** Delete File: "@ + path],
        WrittenHunk::Update { path, move_to, chunks } => seq!["*** Update File: "@ + path] + (
        match move_to {
            Some(dest) => seq!["*** Move to: "@ + dest],
            None => Seq::empty(),
        }) + chunks_lines(chunks),
    }
}

/// The lines of hunks, one hunk behind the other.
pub open spec fn hunks_lines(hunks: Seq<WrittenHunk>) -> Seq<Seq<char>>
    decreases hunks.len(),
{
    if hunks.len() == 0 {
        Seq::empty()
    } else {
        hunks_lines(hunks.drop_last()) + hunk_lines(hunks.last())
    }
}

/// The lines of a patch.
pub open spec fn patch_lines(hunks: Seq<WrittenHunk>) -> Seq<Seq<char>> {
    seq!["*** Begin Patch"@] + hunks_lines(hunks) + seq!["*** End Patch"@]
}

/// The text of a patch.
pub open spec fn patch_text(hunks: Seq<WrittenHunk>) -> Seq<char> {
    text::join(patch_lines(hunks), seq!['\n'])
}

// ---------------------------------------------------------------------------
// What it stands for
// ---------------------------------------------------------------------------

/// Lines that stand in the file before.
pub open spec fn stands_before() -> spec_fn(BodyLine) -> bool {
    |line: BodyLine| !(line.mark is Added)
}

/// Lines that stand in the file afterwards.
pub open spec fn stands_after() -> spec_fn(BodyLine) -> bool {
    |line: BodyLine| !(line.mark is Removed)
}

/// The texts of some lines of a chunk.
pub open spec fn texts_of(body: Seq<BodyLine>, p: spec_fn(BodyLine) -> bool) -> Seq<Seq<char>> {
    let kept = body.filter(p);
    Seq::new(kept.len(), |i: int| kept[i].text)
}

/// The chunk that is written.
pub open spec fn chunk_of(chunk: WrittenChunk) -> ChunkView {
    ChunkView {
        context: chunk.context,
        old_lines: texts_of(chunk.body, stands_before()),
        new_lines: texts_of(chunk.body, stands_after()),
        at_end: chunk.at_end,
    }
}

/// The chunks that are written.
pub open spec fn chunks_of(chunks: Seq<WrittenChunk>) -> Seq<ChunkView> {
    Seq::new(chunks.len(), |i: int| chunk_of(chunks[i]))
}

/// Text in lines, each ended by a line feed.
pub open spec fn ended_lines(lines: Seq<Seq<char>>) -> Seq<char> {
    if lines.len() == 0 {
        Seq::empty()
    } else {
        text::join(lines, seq!['\n']).push('\n')
    }
}

/// The hunk that is written.
pub open spec fn hunk_of(hunk: WrittenHunk) -> HunkView {
    match hunk {
        WrittenHunk::Add { path, lines } => HunkView::Add { path, contents: ended_lines(lines) },
        WrittenHunk::Delete { path } => HunkView::Delete { path },
        WrittenHunk::Update { path, move_to, chunks } => HunkView::Update {
            path,
            move_to,
            chunks: chunks_of(chunks),
        },
    }
}

/// The hunks that are written.
pub open spec fn hunks_of(hunks: Seq<WrittenHunk>) -> Seq<HunkView> {
    Seq::new(hunks.len(), |i: int| hunk_of(hunks[i]))
}

// ---------------------------------------------------------------------------
// What can be written
// ---------------------------------------------------------------------------

/// Whether a text can stand on a line.
pub open spec fn fits_a_line(s: Seq<char>) -> bool {
    !s.contains('\n') && (s.len() > 0 ==> s.last() != '\r')
}

/// Whether a text can stand for a path.
pub open spec fn is_path(s: Seq<char>) -> bool {
    text::is_trimmed(s) && fits_a_line(s)
}

/// Whether a chunk can be written: it has lines, and its context does not end
/// in white space.
pub open spec fn is_writable_chunk(chunk: WrittenChunk) -> bool {
    &&& chunk.body.len() > 0
    &&& forall|i: int| 0 <= i < chunk.body.len() ==> fits_a_line((#[trigger] chunk.body[i]).text)
    &&& chunk.context matches Some(context) ==> context.len() > 0 && !text::is_white_space(
        context.last(),
    ) && fits_a_line(context)
}

/// Whether a hunk can be written.
pub open spec fn is_writable(hunk: WrittenHunk) -> bool {
    match hunk {
        WrittenHunk::Add { path, lines } => is_path(path) && forall|i: int|
            0 <= i < lines.len() ==> fits_a_line(#[trigger] lines[i]),
        WrittenHunk::Delete { path } => is_path(path),
        WrittenHunk::Update { path, move_to, chunks } => {
            &&& is_path(path)
            &&& move_to matches Some(dest) ==> is_path(dest)
            &&& chunks.len() > 0
            &&& forall|i: int| 0 <= i < chunks.len() ==> is_writable_chunk(#[trigger] chunks[i])
        },
    }
}

/// Whether hunks can be written.
pub open spec fn are_writable(hunks: Seq<WrittenHunk>) -> bool {
    forall|i: int| 0 <= i < hunks.len() ==> is_writable(#[trigger] hunks[i])
}

// ---------------------------------------------------------------------------
// Reading lines one by one
// ---------------------------------------------------------------------------

/// The state after lines that come behind `at` others.
pub open spec fn after_lines(s: ParseState, lines: Seq<Seq<char>>, at: int) -> Result<
    ParseState,
    PatchErrorView,
>
    decreases lines.len(),
{
    if lines.len() == 0 {
        Ok(s)
    } else {
        match after_lines(s, lines.drop_last(), at) {
            Ok(next) => parser::step(next, lines.last(), (at + lines.len()) as usize),
            Err(e) => Err(e),
        }
    }
}

proof fn lemma_after_more(s: ParseState, a: Seq<Seq<char>>, b: Seq<Seq<char>>, at: int)
    ensures
        after_lines(s, a + b, at) == match after_lines(s, a, at) {
            Ok(next) => after_lines(next, b, at + a.len()),
            Err(e) => Err(e),
        },
    decreases b.len(),
{
    if b.len() == 0 {
        assert(a + b =~= a);
    } else {
        lemma_after_more(s, a, b.drop_last(), at);
        assert((a + b).drop_last() =~= a + b.drop_last());
        assert((a + b).last() == b.last());
        assert(at + a.len() + b.len() == at + (a + b).len());
    }
}

proof fn lemma_after_one(s: ParseState, line: Seq<char>, at: int)
    ensures
        after_lines(s, seq![line], at) == parser::step(s, line, (at + 1) as usize),
{
    assert(seq![line].drop_last() =~= Seq::empty());
    assert(after_lines(s, seq![line].drop_last(), at) == Ok::<ParseState, PatchErrorView>(s));
}

proof fn lemma_run_is_after(s: ParseState, lines: Seq<Seq<char>>, from: int)
    requires
        0 <= from <= lines.len(),
    ensures
        parser::run(s, lines, from) == after_lines(s, lines.skip(from), from),
    decreases lines.len() - from,
{
    if from < lines.len() {
        let rest = lines.skip(from + 1);
        assert(lines.skip(from) =~= seq![lines[from]] + rest);
        lemma_after_more(s, seq![lines[from]], rest, from);
        lemma_after_one(s, lines[from], from);
        if let Ok(next) = parser::step(s, lines[from], (from + 1) as usize) {
            lemma_run_is_after(next, lines, from + 1);
        }
    } else {
        assert(lines.skip(from) =~= Seq::empty());
    }
}

/// Lines are read one behind the other: the state after one line more is what
/// that line, under its number, makes of the state before it.
pub proof fn law_lines_are_read_in_order(s: ParseState, lines: Seq<Seq<char>>, line: Seq<char>)
    ensures
        parser::run(s, lines.push(line), 0) == match parser::run(s, lines, 0) {
            Ok(next) => parser::step(next, line, (lines.len() + 1) as usize),
            Err(e) => Err(e),
        },
{
    let all = lines.push(line);
    lemma_run_is_after(s, lines, 0);
    lemma_run_is_after(s, all, 0);
    assert(lines.skip(0) =~= lines);
    assert(all.skip(0) =~= all);
    assert(all.drop_last() =~= lines);
}

// ---------------------------------------------------------------------------
// Lines by their first characters
// ---------------------------------------------------------------------------

proof fn lemma_other(line: Seq<char>, marker: Seq<char>, i: int)
    requires
        0 <= i < marker.len(),
        i >= line.len() || line[i] != marker[i],
    ensures
        !text::starts_with(line, marker),
        line != marker,
{
    if text::starts_with(line, marker) {
        assert(line.take(marker.len() as int)[i] == line[i]);
    }
}

proof fn lemma_first_stays(line: Seq<char>)
    requires
        line.len() > 0,
        !text::is_white_space(line[0]),
    ensures
        text::trim(line) == text::trim_end(line),
        text::trim_end(line).len() > 0,
        text::trim_end(line)[0] == line[0],
        !text::is_white_space(line.last()) ==> text::trim_end(line) == line,
{
    text::lemma_trim_end(line);
    text::law_trimming_takes_space_and_nothing_else(line);
    let i = choose|i: int|
        0 <= i <= line.len() && text::trim_end(line) == line.take(i) && text::is_space(
            #[trigger] line.skip(i),
        );
    if i == 0 {
        assert(line.skip(0)[0] == line[0]);
    }
}

proof fn lemma_markers()
    ensures
        parser::BEGIN_PATCH_MARKER@.len() == 15 && parser::BEGIN_PATCH_MARKER@[0] == '*'
            && parser::BEGIN_PATCH_MARKER@[4] == 'B',
        parser::END_PATCH_MARKER@.len() == 13 && parser::END_PATCH_MARKER@[0] == '*'
            && parser::END_PATCH_MARKER@[4] == 'E' && parser::END_PATCH_MARKER@[6] == 'd'
            && parser::END_PATCH_MARKER@[8] == 'P' && parser::END_PATCH_MARKER@[12] == 'h',
        parser::ADD_FILE_MARKER@.len() == 14 && parser::ADD_FILE_MARKER@[0] == '*'
            && parser::ADD_FILE_MARKER@[4] == 'A',
        parser::DELETE_FILE_MARKER@.len() == 17 && parser::DELETE_FILE_MARKER@[0] == '*'
            && parser::DELETE_FILE_MARKER@[4] == 'D',
        parser::UPDATE_FILE_MARKER@.len() == 17 && parser::UPDATE_FILE_MARKER@[0] == '*'
            && parser::UPDATE_FILE_MARKER@[4] == 'U',
        parser::MOVE_TO_MARKER@.len() == 13 && parser::MOVE_TO_MARKER@[0] == '*'
            && parser::MOVE_TO_MARKER@[4] == 'M',
        parser::EOF_MARKER@.len() == 15 && parser::EOF_MARKER@[0] == '*'
            && parser::EOF_MARKER@[4] == 'E' && parser::EOF_MARKER@[6] == 'd'
            && parser::EOF_MARKER@[8] == 'o' && parser::EOF_MARKER@[14] == 'e',
        parser::ENVIRONMENT_ID_MARKER@.len() == 19 && parser::ENVIRONMENT_ID_MARKER@[0] == '*'
            && parser::ENVIRONMENT_ID_MARKER@[4] == 'E' && parser::ENVIRONMENT_ID_MARKER@[6]
            == 'v',
        parser::CHANGE_CONTEXT_MARKER@ == seq!['@', '@', ' '],
        parser::EMPTY_CHANGE_CONTEXT_MARKER@ == seq!['@', '@'],
{
    reveal_strlit("*** Begin Patch");
    reveal_strlit("*** End Patch");
    reveal_strlit("*** Add File: ");
    reveal_strlit("*** Delete File: ");
    reveal_strlit("*** Update File: ");
    reveal_strlit("*** Move to: ");
    reveal_strlit("*** End of File");
    reveal_strlit("*** Environment ID:");
    reveal_strlit("@@ ");
    reveal_strlit("@@");
    assert(parser::CHANGE_CONTEXT_MARKER@ =~= seq!['@', '@', ' ']);
    assert(parser::EMPTY_CHANGE_CONTEXT_MARKER@ =~= seq!['@', '@']);
}

/// A line that does not begin with a star opens or ends nothing.
proof fn lemma_no_header(s: ParseState, line: Seq<char>, n: usize)
    requires
        line.len() == 0 || line[0] != '*',
    ensures
        parser::header_step(s, line, n) == Ok::<Option<ParseState>, PatchErrorView>(None),
{
    lemma_markers();
    lemma_other(line, parser::ENVIRONMENT_ID_MARKER@, 0);
    lemma_other(line, parser::END_PATCH_MARKER@, 0);
    lemma_other(line, parser::ADD_FILE_MARKER@, 0);
    lemma_other(line, parser::DELETE_FILE_MARKER@, 0);
    lemma_other(line, parser::UPDATE_FILE_MARKER@, 0);
}

proof fn lemma_move_is_no_header(s: ParseState, line: Seq<char>, n: usize)
    requires
        line.len() > 4,
        line[4] == 'M',
    ensures
        parser::header_step(s, line, n) == Ok::<Option<ParseState>, PatchErrorView>(None),
{
    lemma_markers();
    lemma_other(line, parser::ENVIRONMENT_ID_MARKER@, 4);
    lemma_other(line, parser::END_PATCH_MARKER@, 4);
    lemma_other(line, parser::ADD_FILE_MARKER@, 4);
    lemma_other(line, parser::DELETE_FILE_MARKER@, 4);
    lemma_other(line, parser::UPDATE_FILE_MARKER@, 4);
}

proof fn lemma_end_of_file_is_no_header(s: ParseState, n: usize)
    ensures
        parser::header_step(s, parser::EOF_MARKER@, n) == Ok::<Option<ParseState>, PatchErrorView>(
            None,
        ),
{
    lemma_markers();
    lemma_other(parser::EOF_MARKER@, parser::ENVIRONMENT_ID_MARKER@, 6);
    lemma_other(parser::EOF_MARKER@, parser::END_PATCH_MARKER@, 8);
    lemma_other(parser::EOF_MARKER@, parser::ADD_FILE_MARKER@, 4);
    lemma_other(parser::EOF_MARKER@, parser::DELETE_FILE_MARKER@, 4);
    lemma_other(parser::EOF_MARKER@, parser::UPDATE_FILE_MARKER@, 4);
}

// ---------------------------------------------------------------------------
// Reading hunks back
// ---------------------------------------------------------------------------

/// A state with a hunk in progress.
pub open spec fn with_last(s: ParseState, hunk: HunkView) -> ParseState {
    ParseState { hunks: s.hunks.drop_last().push(hunk), ..s }
}

proof fn lemma_add_line(s: ParseState, path: Seq<char>, contents: Seq<char>, line: Seq<char>, n: usize)
    requires
        s.mode is AddFile,
        s.hunks.len() > 0,
        s.hunks.last() == (HunkView::Add { path, contents }),
        fits_a_line(line),
    ensures
        parser::step(s, seq!['+'] + line, n) == Ok::<ParseState, PatchErrorView>(
            with_last(s, HunkView::Add { path, contents: contents + line.push('\n') }),
        ),
{
    let raw = seq!['+'] + line;
    assert(raw.len() > 0 && raw[0] == '+');
    assert(line.len() > 0 ==> raw.last() == line.last());
    assert(text::strip_cr(raw) == raw);
    lemma_first_stays(raw);
    lemma_no_header(s, text::trim(raw), n);
    reveal_strlit("+");
    assert("+"@ =~= seq!['+']);
    reveal_strlit("\n");
    text::law_stripping_undoes_putting(line, "+"@);
    assert(contents + line + "\n"@ =~= contents + line.push('\n'));
}

proof fn lemma_add_lines(
    s: ParseState,
    path: Seq<char>,
    lines: Seq<Seq<char>>,
    at: int,
)
    requires
        s.mode is AddFile,
        s.hunks.len() > 0,
        s.hunks.last() == (HunkView::Add { path, contents: Seq::empty() }),
        forall|i: int| 0 <= i < lines.len() ==> fits_a_line(#[trigger] lines[i]),
    ensures
        after_lines(s, Seq::new(lines.len(), |i: int| seq!['+'] + lines[i]), at) == Ok::<
            ParseState,
            PatchErrorView,
        >(with_last(s, HunkView::Add { path, contents: ended_lines(lines) })),
    decreases lines.len(),
{
    let raw = Seq::new(lines.len(), |i: int| seq!['+'] + lines[i]);
    if lines.len() == 0 {
        assert(raw =~= Seq::empty());
        assert(s.hunks.drop_last().push(s.hunks.last()) =~= s.hunks);
    } else {
        let front = lines.drop_last();
        assert forall|i: int| 0 <= i < front.len() implies fits_a_line(#[trigger] front[i]) by {
            assert(front[i] == lines[i]);
        }
        lemma_add_lines(s, path, front, at);
        assert(raw.drop_last() =~= Seq::new(front.len(), |i: int| seq!['+'] + front[i]));
        let mid = with_last(s, HunkView::Add { path, contents: ended_lines(front) });
        assert(fits_a_line(lines[lines.len() - 1]));
        lemma_add_line(mid, path, ended_lines(front), lines.last(), (at + raw.len()) as usize);
        assert(ended_lines(front) + lines.last().push('\n') =~= ended_lines(lines)) by {
            if front.len() == 0 {
                assert(lines =~= seq![lines.last()]);
            } else {
                assert(text::join(lines, seq!['\n']) == text::join(front, seq!['\n']) + seq!['\n']
                    + lines.last());
            }
        }
        assert(mid.hunks.drop_last() =~= s.hunks.drop_last());
    }
}

/// Whether a state is inside an update hunk.
pub open spec fn is_updating(
    s: ParseState,
    path: Seq<char>,
    move_to: Option<Seq<char>>,
    chunks: Seq<ChunkView>,
) -> bool {
    &&& s.mode is UpdateFile
    &&& s.hunks.len() > 0
    &&& s.hunks.last() == (HunkView::Update { path, move_to, chunks })
}

/// A chunk in progress that stands for some lines.
pub open spec fn open_chunk(context: Option<Seq<char>>, body: Seq<BodyLine>) -> ChunkView {
    ChunkView {
        context,
        old_lines: texts_of(body, stands_before()),
        new_lines: texts_of(body, stands_after()),
        at_end: false,
    }
}

proof fn lemma_texts_of(body: Seq<BodyLine>, line: BodyLine, p: spec_fn(BodyLine) -> bool)
    ensures
        texts_of(body.push(line), p) == if p(line) {
            texts_of(body, p).push(line.text)
        } else {
            texts_of(body, p)
        },
{
    sort::lemma_filter_last(body, line, p);
    assert(texts_of(body.push(line), p) =~= if p(line) {
        texts_of(body, p).push(line.text)
    } else {
        texts_of(body, p)
    });
}

proof fn lemma_body_line(
    s: ParseState,
    path: Seq<char>,
    move_to: Option<Seq<char>>,
    done: Seq<ChunkView>,
    context: Option<Seq<char>>,
    body: Seq<BodyLine>,
    line: BodyLine,
    n: usize,
)
    requires
        is_updating(s, path, move_to, done.push(open_chunk(context, body))),
        fits_a_line(line.text),
    ensures
        parser::step(s, body_line(line), n) == Ok::<ParseState, PatchErrorView>(
            with_last(
                s,
                HunkView::Update {
                    path,
                    move_to,
                    chunks: done.push(open_chunk(context, body.push(line))),
                },
            ),
        ),
{
    let raw = body_line(line);
    let chunks = done.push(open_chunk(context, body));
    assert(raw.len() > 0);
    assert(line.text.len() > 0 ==> raw.last() == line.text.last());
    assert(text::strip_cr(raw) == raw);
    text::lemma_trim_end(raw);
    let cut = text::trim_end(raw);
    assert(cut.len() > 0 ==> cut[0] == raw[0]);
    lemma_no_header(s, cut, n);
    lemma_markers();
    lemma_other(cut, parser::MOVE_TO_MARKER@, 0);
    lemma_other(cut, parser::CHANGE_CONTEXT_MARKER@, 0);
    lemma_other(cut, parser::EMPTY_CHANGE_CONTEXT_MARKER@, 0);
    lemma_other(cut, parser::EOF_MARKER@, 0);
    reveal_strlit(" ");
    reveal_strlit("+");
    reveal_strlit("-");
    assert(" "@ =~= seq![' ']);
    assert("+"@ =~= seq!['+']);
    assert("-"@ =~= seq!['-']);
    lemma_texts_of(body, line, stands_before());
    lemma_texts_of(body, line, stands_after());
    assert(chunks.drop_last() =~= done);
    match line.mark {
        Mark::Kept => {
            text::law_stripping_undoes_putting(line.text, " "@);
        },
        Mark::Added => {
            text::law_stripping_undoes_putting(line.text, "+"@);
            lemma_other(raw, " "@, 0);
        },
        Mark::Removed => {
            text::law_stripping_undoes_putting(line.text, "-"@);
            lemma_other(raw, " "@, 0);
            lemma_other(raw, "+"@, 0);
        },
    }
}

proof fn lemma_body_lines(
    s: ParseState,
    path: Seq<char>,
    move_to: Option<Seq<char>>,
    done: Seq<ChunkView>,
    context: Option<Seq<char>>,
    body: Seq<BodyLine>,
    at: int,
)
    requires
        is_updating(s, path, move_to, done.push(open_chunk(context, Seq::empty()))),
        forall|i: int| 0 <= i < body.len() ==> fits_a_line((#[trigger] body[i]).text),
    ensures
        after_lines(s, Seq::new(body.len(), |i: int| body_line(body[i])), at) == Ok::<
            ParseState,
            PatchErrorView,
        >(
            with_last(
                s,
                HunkView::Update { path, move_to, chunks: done.push(open_chunk(context, body)) },
            ),
        ),
    decreases body.len(),
{
    let raw = Seq::new(body.len(), |i: int| body_line(body[i]));
    if body.len() == 0 {
        assert(raw =~= Seq::empty());
        assert(body =~= Seq::empty());
        assert(s.hunks.drop_last().push(s.hunks.last()) =~= s.hunks);
    } else {
        let front = body.drop_last();
        assert forall|i: int| 0 <= i < front.len() implies fits_a_line(
            (#[trigger] front[i]).text,
        ) by {
            assert(front[i] == body[i]);
        }
        lemma_body_lines(s, path, move_to, done, context, front, at);
        assert(raw.drop_last() =~= Seq::new(front.len(), |i: int| body_line(front[i])));
        let mid = with_last(
            s,
            HunkView::Update { path, move_to, chunks: done.push(open_chunk(context, front)) },
        );
        assert(fits_a_line(body[body.len() - 1].text));
        lemma_body_line(
            mid,
            path,
            move_to,
            done,
            context,
            front,
            body.last(),
            (at + raw.len()) as usize,
        );
        assert(front.push(body.last()) =~= body);
        assert(mid.hunks.drop_last() =~= s.hunks.drop_last());
    }
}

proof fn lemma_filled(body: Seq<BodyLine>)
    requires
        body.len() > 0,
    ensures
        texts_of(body, stands_before()).len() > 0 || texts_of(body, stands_after()).len() > 0,
{
    let line = body.last();
    assert(body.drop_last().push(line) =~= body);
    lemma_texts_of(body.drop_last(), line, stands_before());
    lemma_texts_of(body.drop_last(), line, stands_after());
}

proof fn lemma_open_line(
    s: ParseState,
    path: Seq<char>,
    move_to: Option<Seq<char>>,
    done: Seq<ChunkView>,
    context: Option<Seq<char>>,
    n: usize,
)
    requires
        is_updating(s, path, move_to, done),
        !parser::ends_blank(done),
        context matches Some(c) ==> c.len() > 0 && !text::is_white_space(c.last()),
    ensures
        parser::step(
            s,
            match context {
                Some(c) => seq!['@', '@', ' '] + c,
                None => seq!['@', '@'],
            },
            n,
        ) == Ok::<ParseState, PatchErrorView>(
            with_last(
                s,
                HunkView::Update {
                    path,
                    move_to,
                    chunks: done.push(open_chunk(context, Seq::empty())),
                },
            ),
        ),
{
    let line = match context {
        Some(c) => seq!['@', '@', ' '] + c,
        None => seq!['@', '@'],
    };
    lemma_markers();
    assert(line[0] == '@');
    assert(!text::is_white_space(line.last()));
    assert(text::strip_cr(line) == line);
    lemma_first_stays(line);
    lemma_no_header(s, line, n);
    lemma_other(line, parser::MOVE_TO_MARKER@, 0);
    sort::lemma_filter_empty(stands_before());
    sort::lemma_filter_empty(stands_after());
    assert(open_chunk(context, Seq::empty()) =~= parser::blank_chunk(context));
    if let Some(c) = context {
        text::law_stripping_undoes_putting(c, parser::CHANGE_CONTEXT_MARKER@);
        assert(line.len() > 2);
    } else {
        lemma_other(line, parser::CHANGE_CONTEXT_MARKER@, 2);
    }
}

proof fn lemma_end_line(
    s: ParseState,
    path: Seq<char>,
    move_to: Option<Seq<char>>,
    done: Seq<ChunkView>,
    chunk: ChunkView,
    n: usize,
)
    requires
        is_updating(s, path, move_to, done.push(chunk)),
        !parser::is_blank(chunk),
        !chunk.at_end,
    ensures
        parser::step(s, parser::EOF_MARKER@, n) == Ok::<ParseState, PatchErrorView>(
            with_last(
                s,
                HunkView::Update {
                    path,
                    move_to,
                    chunks: done.push(ChunkView { at_end: true, ..chunk }),
                },
            ),
        ),
{
    let line = parser::EOF_MARKER@;
    lemma_markers();
    assert(text::strip_cr(line) == line);
    lemma_first_stays(line);
    lemma_end_of_file_is_no_header(s, n);
    lemma_other(line, parser::CHANGE_CONTEXT_MARKER@, 0);
    lemma_other(line, parser::EMPTY_CHANGE_CONTEXT_MARKER@, 0);
    assert(done.push(chunk).drop_last() =~= done);
}

proof fn lemma_chunk(
    s: ParseState,
    path: Seq<char>,
    move_to: Option<Seq<char>>,
    done: Seq<ChunkView>,
    chunk: WrittenChunk,
    at: int,
)
    requires
        is_updating(s, path, move_to, done),
        !parser::ends_blank(done),
        is_writable_chunk(chunk),
    ensures
        after_lines(s, chunk_lines(chunk), at) == Ok::<ParseState, PatchErrorView>(
            with_last(s, HunkView::Update { path, move_to, chunks: done.push(chunk_of(chunk)) }),
        ),
        !parser::ends_blank(done.push(chunk_of(chunk))),
{
    let head = match chunk.context {
        Some(c) => seq!['@', '@', ' '] + c,
        None => seq!['@', '@'],
    };
    let body = Seq::new(chunk.body.len(), |i: int| body_line(chunk.body[i]));
    let end = if chunk.at_end {
        seq!["*** End of File"@]
    } else {
        Seq::empty()
    };
    lemma_after_one(s, head, at);
    lemma_open_line(s, path, move_to, done, chunk.context, (at + 1) as usize);
    let a = with_last(
        s,
        HunkView::Update {
            path,
            move_to,
            chunks: done.push(open_chunk(chunk.context, Seq::empty())),
        },
    );
    lemma_after_more(s, seq![head], body, at);
    lemma_body_lines(a, path, move_to, done, chunk.context, chunk.body, at + 1);
    let open = open_chunk(chunk.context, chunk.body);
    let b = with_last(a, HunkView::Update { path, move_to, chunks: done.push(open) });
    assert(a.hunks.drop_last() =~= s.hunks.drop_last());
    lemma_filled(chunk.body);
    lemma_after_more(s, seq![head] + body, end, at);
    let here = at + 1 + body.len();
    if chunk.at_end {
        lemma_after_one(b, "*** End of File"@, here);
        lemma_end_line(b, path, move_to, done, open, (here + 1) as usize);
        assert(b.hunks.drop_last() =~= s.hunks.drop_last());
    } else {
        assert(end =~= Seq::empty());
    }
    assert(ChunkView { at_end: chunk.at_end, ..open } == chunk_of(chunk));
}

proof fn lemma_chunks(
    s: ParseState,
    path: Seq<char>,
    move_to: Option<Seq<char>>,
    chunks: Seq<WrittenChunk>,
    at: int,
)
    requires
        is_updating(s, path, move_to, Seq::empty()),
        forall|i: int| 0 <= i < chunks.len() ==> is_writable_chunk(#[trigger] chunks[i]),
    ensures
        after_lines(s, chunks_lines(chunks), at) == Ok::<ParseState, PatchErrorView>(
            with_last(s, HunkView::Update { path, move_to, chunks: chunks_of(chunks) }),
        ),
        !parser::ends_blank(chunks_of(chunks)),
    decreases chunks.len(),
{
    if chunks.len() == 0 {
        assert(chunks_of(chunks) =~= Seq::empty());
        assert(s.hunks.drop_last().push(s.hunks.last()) =~= s.hunks);
    } else {
        let front = chunks.drop_last();
        assert forall|i: int| 0 <= i < front.len() implies is_writable_chunk(
            #[trigger] front[i],
        ) by {
            assert(front[i] == chunks[i]);
        }
        lemma_chunks(s, path, move_to, front, at);
        let mid = with_last(s, HunkView::Update { path, move_to, chunks: chunks_of(front) });
        assert(is_writable_chunk(chunks[chunks.len() - 1]));
        lemma_after_more(s, chunks_lines(front), chunk_lines(chunks.last()), at);
        lemma_chunk(
            mid,
            path,
            move_to,
            chunks_of(front),
            chunks.last(),
            at + chunks_lines(front).len(),
        );
        assert(chunks_of(front).push(chunk_of(chunks.last())) =~= chunks_of(chunks));
        assert(mid.hunks.drop_last() =~= s.hunks.drop_last());
    }
}

/// Whether the next hunk may begin, whatever its line.
pub open spec fn is_between_hunks(s: ParseState) -> bool {
    &&& s.mode is StartedPatch || s.mode is AddFile || s.mode is DeleteFile || s.mode is UpdateFile
    &&& forall|line: Seq<char>, n: usize| #[trigger]
        parser::closing_error(s.hunks, s.mode, line, n) is None
}

proof fn lemma_header_line(s: ParseState, marker: Seq<char>, path: Seq<char>, n: usize)
    requires
        is_between_hunks(s),
        is_path(path),
        marker == parser::ADD_FILE_MARKER@ || marker == parser::DELETE_FILE_MARKER@ || marker
            == parser::UPDATE_FILE_MARKER@,
    ensures
        parser::step(s, marker + path, n) == Ok::<ParseState, PatchErrorView>(
            ParseState {
                hunks: s.hunks.push(
                    if marker == parser::ADD_FILE_MARKER@ {
                        HunkView::Add { path, contents: Seq::empty() }
                    } else if marker == parser::DELETE_FILE_MARKER@ {
                        HunkView::Delete { path }
                    } else {
                        HunkView::Update { path, move_to: None, chunks: Seq::empty() }
                    },
                ),
                mode: if marker == parser::ADD_FILE_MARKER@ {
                    PatchParseMode::AddFile
                } else if marker == parser::DELETE_FILE_MARKER@ {
                    PatchParseMode::DeleteFile
                } else {
                    PatchParseMode::UpdateFile { hunk_line_number: n }
                },
                ..s
            },
        ),
{
    let line = marker + path;
    lemma_markers();
    assert(line.last() == path.last());
    assert(line[0] == '*' && line[4] == marker[4]);
    assert(!text::is_white_space('*'));
    assert(text::strip_cr(line) == line);
    lemma_first_stays(line);
    lemma_other(line, parser::ENVIRONMENT_ID_MARKER@, 4);
    lemma_other(line, parser::END_PATCH_MARKER@, 4);
    text::law_stripping_undoes_putting(path, marker);
    let none = Seq::<char>::empty();
    assert(path =~= none + path + none);
    text::law_trimming_finds_the_core(none, path, none);
    assert(parser::closing_error(s.hunks, s.mode, line, n) is None);
    if marker == parser::ADD_FILE_MARKER@ {
    } else if marker == parser::DELETE_FILE_MARKER@ {
        lemma_other(line, parser::ADD_FILE_MARKER@, 4);
        lemma_other(marker, parser::ADD_FILE_MARKER@, 4);
    } else {
        lemma_other(line, parser::ADD_FILE_MARKER@, 4);
        lemma_other(line, parser::DELETE_FILE_MARKER@, 4);
        lemma_other(marker, parser::ADD_FILE_MARKER@, 4);
        lemma_other(marker, parser::DELETE_FILE_MARKER@, 4);
    }
}

proof fn lemma_move_line(s: ParseState, path: Seq<char>, dest: Seq<char>, n: usize)
    requires
        is_updating(s, path, None, Seq::empty()),
        is_path(dest),
    ensures
        parser::step(s, "*** Move to: "@ + dest, n) == Ok::<ParseState, PatchErrorView>(
            with_last(
                s,
                HunkView::Update { path, move_to: Some(dest), chunks: Seq::empty() },
            ),
        ),
{
    let line = "*** Move to: "@ + dest;
    lemma_markers();
    assert(line.last() == dest.last());
    assert(line[0] == '*' && line[4] == 'M');
    assert(text::strip_cr(line) == line);
    lemma_first_stays(line);
    lemma_move_is_no_header(s, line, n);
    text::law_stripping_undoes_putting(dest, parser::MOVE_TO_MARKER@);
    let none = Seq::<char>::empty();
    assert(dest =~= none + dest + none);
    text::law_trimming_finds_the_core(none, dest, none);
}

proof fn lemma_hunk(s: ParseState, hunk: WrittenHunk, at: int) -> (next: ParseState)
    requires
        is_between_hunks(s),
        is_writable(hunk),
    ensures
        after_lines(s, hunk_lines(hunk), at) == Ok::<ParseState, PatchErrorView>(next),
        is_between_hunks(next),
        next.hunks == s.hunks.push(hunk_of(hunk)),
{
    let n = (at + 1) as usize;
    match hunk {
        WrittenHunk::Add { path, lines } => {
            let head = "*** Add File: "@ + path;
            let rest = Seq::new(lines.len(), |i: int| seq!['+'] + lines[i]);
            lemma_header_line(s, parser::ADD_FILE_MARKER@, path, n);
            lemma_after_one(s, head, at);
            let mid = parser::step(s, head, n)->Ok_0;
            lemma_after_more(s, seq![head], rest, at);
            lemma_add_lines(mid, path, lines, at + 1);
            let next = with_last(mid, HunkView::Add { path, contents: ended_lines(lines) });
            assert(next.hunks =~= s.hunks.push(hunk_of(hunk)));
            assert(next.hunks.last() is Add);
            next
        },
        WrittenHunk::Delete { path } => {
            let head = "*** Delete File: "@ + path;
            lemma_header_line(s, parser::DELETE_FILE_MARKER@, path, n);
            lemma_markers();
            lemma_other(parser::DELETE_FILE_MARKER@, parser::ADD_FILE_MARKER@, 4);
            lemma_after_one(s, head, at);
            let next = parser::step(s, head, n)->Ok_0;
            assert(next.hunks.last() is Delete);
            next
        },
        WrittenHunk::Update { path, move_to, chunks } => {
            let head = "*** Update File: "@ + path;
            lemma_header_line(s, parser::UPDATE_FILE_MARKER@, path, n);
            lemma_markers();
            lemma_other(parser::UPDATE_FILE_MARKER@, parser::ADD_FILE_MARKER@, 4);
            lemma_other(parser::UPDATE_FILE_MARKER@, parser::DELETE_FILE_MARKER@, 4);
            lemma_after_one(s, head, at);
            let opened = parser::step(s, head, n)->Ok_0;
            let moved = match move_to {
                Some(dest) => seq!["*** Move to: "@ + dest],
                None => Seq::empty(),
            };
            lemma_after_more(s, seq![head], moved, at);
            let mid = with_last(
                opened,
                HunkView::Update { path, move_to, chunks: Seq::empty() },
            );
            if let Some(dest) = move_to {
                lemma_after_one(opened, "*** Move to: "@ + dest, at + 1);
                lemma_move_line(opened, path, dest, (at + 2) as usize);
            } else {
                assert(moved =~= Seq::empty());
                assert(mid.hunks =~= opened.hunks);
            }
            let so_far = at + 1 + moved.len();
            lemma_after_more(s, seq![head] + moved, chunks_lines(chunks), at);
            lemma_chunks(mid, path, move_to, chunks, so_far);
            let next = with_last(
                mid,
                HunkView::Update { path, move_to, chunks: chunks_of(chunks) },
            );
            assert(next.hunks =~= s.hunks.push(hunk_of(hunk)));
            next
        },
    }
}

proof fn lemma_hunks(s: ParseState, hunks: Seq<WrittenHunk>, at: int) -> (next: ParseState)
    requires
        is_between_hunks(s),
        are_writable(hunks),
    ensures
        after_lines(s, hunks_lines(hunks), at) == Ok::<ParseState, PatchErrorView>(next),
        is_between_hunks(next),
        next.hunks == s.hunks + hunks_of(hunks),
    decreases hunks.len(),
{
    if hunks.len() == 0 {
        assert(s.hunks + hunks_of(hunks) =~= s.hunks);
        s
    } else {
        let front = hunks.drop_last();
        assert forall|i: int| 0 <= i < front.len() implies is_writable(#[trigger] front[i]) by {
            assert(front[i] == hunks[i]);
        }
        let mid = lemma_hunks(s, front, at);
        assert(is_writable(hunks[hunks.len() - 1]));
        lemma_after_more(s, hunks_lines(front), hunk_lines(hunks.last()), at);
        let next = lemma_hunk(mid, hunks.last(), at + hunks_lines(front).len());
        assert(next.hunks =~= s.hunks + hunks_of(hunks));
        next
    }
}

/// The lines of a written patch are read as the hunks that were written.
pub proof fn law_written_lines_are_read_back(hunks: Seq<WrittenHunk>)
    requires
        are_writable(hunks),
    ensures
        parser::run(parser::start_state(), patch_lines(hunks), 0) matches Ok(end)
            && end.mode is EndedPatch && end.hunks == hunks_of(hunks),
{
    let begin = "*** Begin Patch"@;
    let end = "*** End Patch"@;
    let s = parser::start_state();
    lemma_markers();
    reveal_strlit("*** Begin Patch");
    reveal_strlit("*** End Patch");
    assert(text::strip_cr(begin) == begin);
    lemma_first_stays(begin);
    lemma_after_one(s, begin, 0);
    let a = ParseState { mode: PatchParseMode::StartedPatch, ..s };
    let middle = hunks_lines(hunks);
    lemma_after_more(s, seq![begin], middle, 0);
    let b = lemma_hunks(a, hunks, 1);
    assert(b.hunks =~= hunks_of(hunks));
    lemma_after_more(s, seq![begin] + middle, seq![end], 0);
    let here = 1 + middle.len() as int;
    lemma_after_one(b, end, here);
    assert(text::strip_cr(end) == end);
    lemma_first_stays(end);
    lemma_other(end, parser::ENVIRONMENT_ID_MARKER@, 6);
    assert(parser::closing_error(b.hunks, b.mode, end, (here + 1) as usize) is None);
    let all = patch_lines(hunks);
    lemma_run_is_after(s, all, 0);
    assert(all.skip(0) =~= all);
}

// ---------------------------------------------------------------------------
// Reading the text back
// ---------------------------------------------------------------------------

/// Whether each line can stand on one.
pub open spec fn all_fit(lines: Seq<Seq<char>>) -> bool {
    forall|i: int| 0 <= i < lines.len() ==> fits_a_line(#[trigger] lines[i])
}

proof fn lemma_all_fit(a: Seq<Seq<char>>, b: Seq<Seq<char>>)
    requires
        all_fit(a),
        all_fit(b),
    ensures
        all_fit(a + b),
{
    assert forall|i: int| 0 <= i < (a + b).len() implies fits_a_line(#[trigger] (a + b)[i]) by {
        if i < a.len() {
            assert((a + b)[i] == a[i]);
        } else {
            assert((a + b)[i] == b[i - a.len()]);
        }
    }
}

proof fn lemma_behind_fits(front: Seq<char>, s: Seq<char>)
    requires
        front.len() > 0,
        fits_a_line(front),
        fits_a_line(s),
    ensures
        fits_a_line(front + s),
{
    let all = front + s;
    assert forall|i: int| 0 <= i < all.len() implies all[i] != '\n' by {
        if i < front.len() {
            assert(front.contains(front[i]));
        } else {
            assert(s.contains(s[i - front.len()]));
        }
    }
    if s.len() > 0 {
        assert(all.last() == s.last());
    } else {
        assert(all.last() == front.last());
    }
}

proof fn lemma_markers_fit()
    ensures
        fits_a_line("*** Begin Patch"@),
        fits_a_line("*** End Patch"@),
        fits_a_line("*** Add File: "@) && "*** Add File: "@.len() > 0,
        fits_a_line("*** Delete File: "@) && "*** Delete File: "@.len() > 0,
        fits_a_line("*** Update File: "@) && "*** Update File: "@.len() > 0,
        fits_a_line("*** Move to: "@) && "*** Move to: "@.len() > 0,
        fits_a_line("*** End of File"@),
{
    reveal_strlit("*** Begin Patch");
    reveal_strlit("*** End Patch");
    reveal_strlit("*** Add File: ");
    reveal_strlit("*** Delete File: ");
    reveal_strlit("*** Update File: ");
    reveal_strlit("*** Move to: ");
    reveal_strlit("*** End of File");
}

proof fn lemma_chunk_fits(chunk: WrittenChunk)
    requires
        is_writable_chunk(chunk),
    ensures
        all_fit(chunk_lines(chunk)),
{
    lemma_markers_fit();
    let head = match chunk.context {
        Some(c) => seq!['@', '@', ' '] + c,
        None => seq!['@', '@'],
    };
    if let Some(c) = chunk.context {
        lemma_behind_fits(seq!['@', '@', ' '], c);
    }
    assert(fits_a_line(head));
    let body = Seq::new(chunk.body.len(), |i: int| body_line(chunk.body[i]));
    assert forall|i: int| 0 <= i < body.len() implies fits_a_line(#[trigger] body[i]) by {
        assert(fits_a_line(chunk.body[i].text));
        match chunk.body[i].mark {
            Mark::Kept => lemma_behind_fits(seq![' '], chunk.body[i].text),
            Mark::Added => lemma_behind_fits(seq!['+'], chunk.body[i].text),
            Mark::Removed => lemma_behind_fits(seq!['-'], chunk.body[i].text),
        }
    }
    let end = if chunk.at_end {
        seq!["*** End of File"@]
    } else {
        Seq::empty()
    };
    lemma_all_fit(seq![head], body);
    lemma_all_fit(seq![head] + body, end);
}

proof fn lemma_chunks_fit(chunks: Seq<WrittenChunk>)
    requires
        forall|i: int| 0 <= i < chunks.len() ==> is_writable_chunk(#[trigger] chunks[i]),
    ensures
        all_fit(chunks_lines(chunks)),
    decreases chunks.len(),
{
    if chunks.len() > 0 {
        let front = chunks.drop_last();
        assert forall|i: int| 0 <= i < front.len() implies is_writable_chunk(
            #[trigger] front[i],
        ) by {
            assert(front[i] == chunks[i]);
        }
        lemma_chunks_fit(front);
        assert(is_writable_chunk(chunks[chunks.len() - 1]));
        lemma_chunk_fits(chunks.last());
        lemma_all_fit(chunks_lines(front), chunk_lines(chunks.last()));
    }
}

proof fn lemma_hunk_fits(hunk: WrittenHunk)
    requires
        is_writable(hunk),
    ensures
        all_fit(hunk_lines(hunk)),
{
    lemma_markers_fit();
    match hunk {
        WrittenHunk::Add { path, lines } => {
            lemma_behind_fits("*** Add File: "@, path);
            let rest = Seq::new(lines.len(), |i: int| seq!['+'] + lines[i]);
            assert forall|i: int| 0 <= i < rest.len() implies fits_a_line(#[trigger] rest[i]) by {
                assert(fits_a_line(lines[i]));
                lemma_behind_fits(seq!['+'], lines[i]);
            }
            lemma_all_fit(seq!["*** Add File: "@ + path], rest);
        },
        WrittenHunk::Delete { path } => {
            lemma_behind_fits("*** Delete File: "@, path);
        },
        WrittenHunk::Update { path, move_to, chunks } => {
            lemma_behind_fits("*** Update File: "@, path);
            let head = seq!["*** Update File: "@ + path];
            let moved = match move_to {
                Some(dest) => seq!["*** Move to: "@ + dest],
                None => Seq::empty(),
            };
            if let Some(dest) = move_to {
                lemma_behind_fits("*** Move to: "@, dest);
            }
            lemma_chunks_fit(chunks);
            lemma_all_fit(head, moved);
            lemma_all_fit(head + moved, chunks_lines(chunks));
        },
    }
}

proof fn lemma_hunks_fit(hunks: Seq<WrittenHunk>)
    requires
        are_writable(hunks),
    ensures
        all_fit(hunks_lines(hunks)),
    decreases hunks.len(),
{
    if hunks.len() > 0 {
        let front = hunks.drop_last();
        assert forall|i: int| 0 <= i < front.len() implies is_writable(#[trigger] front[i]) by {
            assert(front[i] == hunks[i]);
        }
        lemma_hunks_fit(front);
        assert(is_writable(hunks[hunks.len() - 1]));
        lemma_hunk_fits(hunks.last());
        lemma_all_fit(hunks_lines(front), hunk_lines(hunks.last()));
    }
}

proof fn lemma_joined_lines(lines: Seq<Seq<char>>)
    requires
        lines.len() > 0,
        all_fit(lines),
        lines.last().len() > 0,
    ensures
        text::lines(text::join(lines, seq!['\n'])) == lines,
{
    let s = text::join(lines, seq!['\n']);
    assert forall|i: int| 0 <= i < lines.len() implies !(#[trigger] lines[i]).contains('\n') by {
        assert(fits_a_line(lines[i]));
    }
    text::law_split_undoes_join(lines, '\n');
    text::law_lines_are_pieces(s);
    assert forall|i: int| 0 <= i < lines.len() implies #[trigger] text::lines(s)[i] == lines[i] by {
        assert(fits_a_line(lines[i]));
        if i < lines.len() - 1 {
            assert(text::split(s, '\n')[i] == lines[i]);
        }
    }
    assert(text::lines(s) =~= lines);
}

proof fn lemma_ends_of_join(lines: Seq<Seq<char>>)
    requires
        lines.len() > 0,
        lines[0].len() > 0,
        lines.last().len() > 0,
    ensures
        text::join(lines, seq!['\n']).len() > 0,
        text::join(lines, seq!['\n'])[0] == lines[0][0],
        text::join(lines, seq!['\n']).last() == lines.last().last(),
{
    if lines.len() > 1 {
        let rest = lines.drop_first();
        assert(lines =~= seq![lines[0]] + rest);
        text::lemma_join_first(lines[0], rest, seq!['\n']);
        let front = text::join(lines.drop_last(), seq!['\n']);
        assert(text::join(lines, seq!['\n']) == front + seq!['\n'] + lines.last());
    }
}

/// Reading a written patch gives back the hunks that were written: their
/// paths, the text to add line for line, and of each chunk the context, the
/// lines expected, the lines to put there and whether it ends the file. White
/// space round the patch does not count.
pub proof fn law_written_patches_are_read_back(
    before: Seq<char>,
    hunks: Seq<WrittenHunk>,
    behind: Seq<char>,
)
    requires
        are_writable(hunks),
        hunks.len() > 0,
        text::is_space(before),
        text::is_space(behind),
    ensures
        parser::parse(before + patch_text(hunks) + behind) == Ok::<Seq<HunkView>, PatchErrorView>(
            hunks_of(hunks),
        ),
{
    let lines = patch_lines(hunks);
    let s = patch_text(hunks);
    lemma_written_patch(hunks);
    text::law_trimming_finds_the_core(before, s, behind);
    law_written_lines_are_read_back(hunks);
}

proof fn lemma_written_patch(hunks: Seq<WrittenHunk>)
    requires
        are_writable(hunks),
    ensures
        all_fit(patch_lines(hunks)),
        text::lines(patch_text(hunks)) == patch_lines(hunks),
        patch_text(hunks).len() > 0,
        !text::is_white_space(patch_text(hunks)[0]),
        !text::is_white_space(patch_text(hunks).last()),
        parser::envelope_error(patch_lines(hunks)) is None,
{
    let lines = patch_lines(hunks);
    lemma_markers();
    lemma_markers_fit();
    lemma_hunks_fit(hunks);
    let begin = seq!["*** Begin Patch"@];
    let end = seq!["*** End Patch"@];
    lemma_all_fit(begin, hunks_lines(hunks));
    lemma_all_fit(begin + hunks_lines(hunks), end);
    assert(lines[0] == "*** Begin Patch"@);
    assert(lines.last() == "*** End Patch"@);
    reveal_strlit("*** Begin Patch");
    reveal_strlit("*** End Patch");
    lemma_joined_lines(lines);
    lemma_ends_of_join(lines);
    lemma_first_stays("*** Begin Patch"@);
    lemma_first_stays("*** End Patch"@);
}

/// A patch between the marks of a here-document is read as the patch.
pub proof fn law_here_documents_are_read_as_the_patch(hunks: Seq<WrittenHunk>, mark: Seq<char>)
    requires
        are_writable(hunks),
        hunks.len() > 0,
        mark == "<<EOF"@ || mark == "<<'EOF'"@ || mark == "<<\"EOF\""@,
    ensures
        parser::parse(mark + seq!['\n'] + patch_text(hunks) + seq!['\n'] + "EOF"@)
            == parser::parse(patch_text(hunks)),
{
    let inner = patch_lines(hunks);
    lemma_written_patch(hunks);
    reveal_strlit("<<EOF");
    reveal_strlit("<<'EOF'");
    reveal_strlit("<<\"EOF\"");
    reveal_strlit("EOF");
    let all = seq![mark] + inner + seq!["EOF"@];
    assert(fits_a_line(mark));
    assert(fits_a_line("EOF"@));
    lemma_all_fit(seq![mark], inner);
    lemma_all_fit(seq![mark] + inner, seq!["EOF"@]);
    lemma_joined_lines(all);
    lemma_ends_of_join(all);
    let s = text::join(all, seq!['\n']);
    assert(s =~= mark + seq!['\n'] + patch_text(hunks) + seq!['\n'] + "EOF"@) by {
        assert((seq![mark] + inner).len() > 1);
        assert(all.drop_last() =~= seq![mark] + inner);
        text::lemma_join_first(mark, inner, seq!['\n']);
    }
    let none = Seq::<char>::empty();
    assert(s =~= none + s + none);
    text::law_trimming_finds_the_core(none, s, none);
    assert(all.subrange(1, all.len() - 1) =~= inner);
    lemma_markers();
    assert(all[0] == mark);
    lemma_first_stays(mark);
    lemma_other(mark, parser::BEGIN_PATCH_MARKER@, 0);
    assert(all.last() == "EOF"@);
    text::law_stripping_undoes_putting(none, "EOF"@);
    assert(none + "EOF"@ =~= "EOF"@);
    let t = patch_text(hunks);
    assert(t =~= none + t + none);
    text::law_trimming_finds_the_core(none, t, none);
    if hunks_lines(hunks).len() == 0 {
        lemma_hunk_is_written(hunks.last());
    }
    assert(inner.len() >= 2);
    assert(all.len() >= 4);
}

proof fn lemma_hunk_is_written(hunk: WrittenHunk)
    ensures
        hunk_lines(hunk).len() > 0,
{
}

/// What may stand in front of the first hunk: one line that names an
/// environment. It changes no hunk, must not be empty, and must not come
/// twice.
pub proof fn law_one_environment_may_be_named(s: ParseState, name: Seq<char>, n: usize)
    requires
        s.mode is StartedPatch,
        name.len() == 0 || (text::is_trimmed(name) && fits_a_line(name)),
    ensures
        parser::header_step(s, "*** Environment ID:"@ + name, n) == if s.environment_id is Some {
            Err::<Option<ParseState>, PatchErrorView>(PatchErrorView::RepeatedEnvironment)
        } else if name.len() == 0 {
            Err(PatchErrorView::EmptyEnvironment)
        } else {
            Ok(Some(ParseState { environment_id: Some(name), ..s }))
        },
{
    text::law_stripping_undoes_putting(name, parser::ENVIRONMENT_ID_MARKER@);
    let none = Seq::<char>::empty();
    assert(name =~= none + name + none);
    text::law_trimming_finds_the_core(none, name, none);
}

/// A patch has to begin and end with its markers, inside a here-document too;
/// text that does not is refused and says which is missing.
pub proof fn law_patches_have_an_envelope(input: Seq<char>)
    ensures
        parser::parse(input) is Ok ==> exists|lines: Seq<Seq<char>>|
            #![trigger parser::envelope_error(lines)]
            lines.len() > 0 && text::trim(lines[0]) == "*** Begin Patch"@ && text::trim(
                lines.last(),
            ) == "*** End Patch"@ && (lines == text::lines(text::trim(input)) || lines
                == text::lines(text::trim(input)).subrange(
                1,
                text::lines(text::trim(input)).len() - 1,
            )),
        text::trim(input).len() == 0 ==> parser::parse(input) == Err::<
            Seq<HunkView>,
            PatchErrorView,
        >(PatchErrorView::MissingEnd),
{
    let all = text::lines(text::trim(input));
    if parser::parse(input) is Ok {
        if parser::envelope_error(all) is None {
            assert(all.len() > 0 && text::trim(all[0]) == "*** Begin Patch"@);
        } else {
            let inner = all.subrange(1, all.len() - 1);
            assert(parser::envelope_error(inner) is None);
        }
    }
    if text::trim(input).len() == 0 {
        text::lemma_first_char(text::trim(input), '\n');
        assert(all =~= Seq::empty());
    }
}

// ---------------------------------------------------------------------------
// Lines of an update hunk
// ---------------------------------------------------------------------------

/// What a marked line adds to the last chunk: the expected lines grow by a
/// kept or removed line, the new ones by a kept or added line. The first chunk
/// may begin without its marker, and an empty line is an empty kept one.
pub proof fn law_marked_lines_go_to_the_last_chunk(
    move_to: Option<Seq<char>>,
    done: Seq<ChunkView>,
    last: ChunkView,
    line: BodyLine,
    n: usize,
)
    requires
        !last.at_end,
        fits_a_line(line.text),
    ensures
        parser::update_step(move_to, done.push(last), body_line(line), n) == Ok::<
            (Option<Seq<char>>, Seq<ChunkView>),
            PatchErrorView,
        >(
            (
                move_to,
                done.push(
                    ChunkView {
                        old_lines: if line.mark is Added {
                            last.old_lines
                        } else {
                            last.old_lines.push(line.text)
                        },
                        new_lines: if line.mark is Removed {
                            last.new_lines
                        } else {
                            last.new_lines.push(line.text)
                        },
                        ..last
                    },
                ),
            ),
        ),
        parser::update_step(move_to, Seq::empty(), body_line(line), n) == parser::update_step(
            move_to,
            seq![
                ChunkView {
                    context: None,
                    old_lines: Seq::empty(),
                    new_lines: Seq::empty(),
                    at_end: false,
                },
            ],
            body_line(line),
            n,
        ),
        parser::update_step(move_to, done.push(last), Seq::empty(), n) == parser::update_step(
            move_to,
            done.push(last),
            seq![' '],
            n,
        ),
{
    let raw = body_line(line);
    text::lemma_trim_end(raw);
    let cut = text::trim_end(raw);
    assert(cut.len() > 0 ==> cut[0] == raw[0]);
    lemma_markers();
    lemma_other(cut, parser::MOVE_TO_MARKER@, 0);
    lemma_other(cut, parser::CHANGE_CONTEXT_MARKER@, 0);
    lemma_other(cut, parser::EMPTY_CHANGE_CONTEXT_MARKER@, 0);
    lemma_other(cut, parser::EOF_MARKER@, 0);
    reveal_strlit(" ");
    reveal_strlit("+");
    reveal_strlit("-");
    assert(" "@ =~= seq![' ']);
    assert("+"@ =~= seq!['+']);
    assert("-"@ =~= seq!['-']);
    let chunks = done.push(last);
    assert(chunks.drop_last() =~= done);
    match line.mark {
        Mark::Kept => {
            text::law_stripping_undoes_putting(line.text, " "@);
        },
        Mark::Added => {
            text::law_stripping_undoes_putting(line.text, "+"@);
            lemma_other(raw, " "@, 0);
        },
        Mark::Removed => {
            text::law_stripping_undoes_putting(line.text, "-"@);
            lemma_other(raw, " "@, 0);
            lemma_other(raw, "+"@, 0);
        },
    }
    let none = Seq::<char>::empty();
    let space = seq![' '];
    text::lemma_trim_end(none);
    assert(text::trim_end(none) == none);
    assert(space.drop_last() =~= none);
    assert(text::trim_end(space) == text::trim_end(none));
    assert(space =~= " "@ + none);
    text::law_stripping_undoes_putting(none, " "@);
    lemma_other(none, parser::MOVE_TO_MARKER@, 0);
    lemma_other(none, parser::CHANGE_CONTEXT_MARKER@, 0);
    lemma_other(none, parser::EMPTY_CHANGE_CONTEXT_MARKER@, 0);
    lemma_other(none, parser::EOF_MARKER@, 0);
}

/// Behind the mark of the end of the file blank lines are passed over, a new
/// chunk may begin, and anything else is refused.
pub proof fn law_nothing_follows_the_end_of_file(
    move_to: Option<Seq<char>>,
    chunks: Seq<ChunkView>,
    line: Seq<char>,
    n: usize,
)
    requires
        chunks.len() > 0,
        chunks.last().at_end,
    ensures
        text::trim(line).len() == 0 ==> parser::update_step(move_to, chunks, line, n) == Ok::<
            (Option<Seq<char>>, Seq<ChunkView>),
            PatchErrorView,
        >((move_to, chunks)),
        line.len() > 0 && !text::is_white_space(line[0]) && line[0] != '@' ==> parser::update_step(
            move_to,
            chunks,
            line,
            n,
        ) == Err::<(Option<Seq<char>>, Seq<ChunkView>), PatchErrorView>(
            PatchErrorView::InvalidHunk(
                n,
                crate::apply_patch::hunk::ProblemView::ExpectedContext(line),
            ),
        ),
{
    lemma_markers();
    if line.len() > 0 && !text::is_white_space(line[0]) && line[0] != '@' {
        lemma_first_stays(line);
        let cut = text::trim_end(line);
        lemma_other(cut, parser::CHANGE_CONTEXT_MARKER@, 0);
        lemma_other(cut, parser::EMPTY_CHANGE_CONTEXT_MARKER@, 0);
    }
    if text::trim(line).len() == 0 {
        text::law_trimming_takes_space_and_nothing_else(line);
        let (i, j) = choose|i: int, j: int|
            0 <= i <= j <= line.len() && text::trim(line) == line.subrange(i, j) && text::is_space(
                #[trigger] line.take(i),
            ) && text::is_space(#[trigger] line.skip(j));
        let cut = text::trim_end(line);
        text::lemma_trim_end(line);
        if cut.len() > 0 {
            let k = cut.len() - 1;
            assert(cut[k] == line[k]);
            if k < i {
                assert(line.take(i)[k] == line[k]);
            } else {
                assert(line.skip(j)[k - j] == line[k]);
            }
        }
    }
}

/// A line of an update hunk without a mark is refused, and so is a chunk that
/// is opened or ended before it has a line. The error names the line.
pub proof fn law_unmarked_lines_are_refused(
    move_to: Option<Seq<char>>,
    done: Seq<ChunkView>,
    last: ChunkView,
    line: Seq<char>,
    n: usize,
)
    requires
        !last.at_end,
        line.len() > 0,
        line[0] != ' ' && line[0] != '+' && line[0] != '-' && line[0] != '@' && line[0] != '*',
        !text::is_white_space(line[0]),
    ensures
        parser::update_step(move_to, done.push(last), line, n) matches Err(e) && e == (
        PatchErrorView::InvalidHunk(
            n,
            if parser::is_blank(last) {
                crate::apply_patch::hunk::ProblemView::UnexpectedUpdateLine(line)
            } else {
                crate::apply_patch::hunk::ProblemView::ExpectedContext(line)
            },
        )),
        last.old_lines.len() == 0 && last.new_lines.len() == 0 ==> parser::update_step(
            move_to,
            done.push(last),
            seq!['@', '@'],
            n,
        ) is Err && parser::update_step(move_to, done.push(last), "*** End of File"@, n) is Err,
{
    lemma_markers();
    lemma_first_stays(line);
    let cut = text::trim_end(line);
    lemma_other(cut, parser::MOVE_TO_MARKER@, 0);
    lemma_other(cut, parser::CHANGE_CONTEXT_MARKER@, 0);
    lemma_other(cut, parser::EMPTY_CHANGE_CONTEXT_MARKER@, 0);
    lemma_other(cut, parser::EOF_MARKER@, 0);
    reveal_strlit(" ");
    reveal_strlit("+");
    reveal_strlit("-");
    lemma_other(line, " "@, 0);
    lemma_other(line, "+"@, 0);
    lemma_other(line, "-"@, 0);
    let chunks = done.push(last);
    lemma_first_stays(seq!['@', '@']);
    let end = parser::EOF_MARKER@;
    lemma_first_stays(end);
    lemma_other(end, parser::CHANGE_CONTEXT_MARKER@, 0);
    lemma_other(end, parser::EMPTY_CHANGE_CONTEXT_MARKER@, 0);
}

/// An update hunk without a chunk, or whose last chunk has no line, cannot be
/// closed; every other hunk can.
pub proof fn law_only_filled_hunks_are_closed(
    done: Seq<HunkView>,
    last: HunkView,
    mode: PatchParseMode,
    line: Seq<char>,
    n: usize,
)
    ensures
        parser::closing_error(done.push(last), mode, line, n) is None <==> match last {
            HunkView::Update { chunks, .. } => if chunks.len() == 0 {
                !(mode is UpdateFile)
            } else {
                chunks.last().old_lines.len() + chunks.last().new_lines.len() > 0
            },
            _ => true,
        },
        mode matches PatchParseMode::UpdateFile { hunk_line_number } ==> (
        last matches HunkView::Update { path, chunks, .. } ==> chunks.len() == 0
            ==> parser::closing_error(done.push(last), mode, line, n) == Some(
            PatchErrorView::InvalidHunk(
                hunk_line_number,
                crate::apply_patch::hunk::ProblemView::EmptyUpdate(path),
            ),
        )),
        parser::closing_error(Seq::empty(), mode, line, n) is None,
{
}

/// A line inside an added file that has no plus sign is refused under its
/// number, whether it looks like a header or not.
pub proof fn law_added_lines_need_a_plus_sign(s: ParseState, line: Seq<char>, n: usize)
    requires
        s.mode is AddFile,
        line.len() == 0 || (line[0] != '+' && line[0] != '*' && !text::is_white_space(line[0])),
    ensures
        parser::step(s, line, n) matches Err(PatchErrorView::InvalidHunk(at, _)) && at == n,
{
    let cut = text::strip_cr(line);
    reveal_strlit("+");
    lemma_other(cut, "+"@, 0);
    if cut.len() > 0 {
        lemma_first_stays(cut);
    } else {
        text::lemma_trim(cut);
        assert(text::trim(cut).len() == 0);
    }
    lemma_no_header(s, text::trim(cut), n);
}

} // verus!
