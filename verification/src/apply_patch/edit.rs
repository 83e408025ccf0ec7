//! Placing the chunks of an update hunk in a file and carrying them out.

use crate::apply_patch::hunk;
use crate::apply_patch::hunk::{ChunkView, UpdateFileChunk};
use crate::sort;
use crate::sort::{stable_sort, Ranked};
use crate::text;
use crate::text::{
    cat4, clone_texts, join_texts, owned, split_on, str_eq, trimmed, trimmed_end,
};
use vstd::prelude::*;
use vstd::slice::slice_subrange;

verus! {

// ---------------------------------------------------------------------------
// Looking for lines
// ---------------------------------------------------------------------------

/// How closely lines have to agree.
#[derive(Debug, Clone, Copy, PartialEq, Eq, Structural)]
pub enum Tolerance {
    Exact,
    TrailingSpace,
    SurroundingSpace,
}

/// What of a line counts at a tolerance.
pub open spec fn compared(t: Tolerance, line: Seq<char>) -> Seq<char> {
    match t {
        Tolerance::Exact => line,
        Tolerance::TrailingSpace => text::trim_end(line),
        Tolerance::SurroundingSpace => text::trim(line),
    }
}

/// Whether `pattern` stands in `lines` at `i`, at a tolerance.
pub open spec fn matches_at(
    lines: Seq<Seq<char>>,
    pattern: Seq<Seq<char>>,
    i: int,
    t: Tolerance,
) -> bool {
    &&& 0 <= i
    &&& i + pattern.len() <= lines.len()
    &&& forall|k: int|
        0 <= k < pattern.len() ==> compared(t, lines[i + k]) == compared(t, #[trigger] pattern[k])
}

/// The first place from `from` on where `pattern` stands, at a tolerance.
pub open spec fn first_match(
    lines: Seq<Seq<char>>,
    pattern: Seq<Seq<char>>,
    from: int,
    t: Tolerance,
) -> Option<int>
    decreases lines.len() - from,
{
    if from + pattern.len() > lines.len() || from >= lines.len() {
        None
    } else if matches_at(lines, pattern, from, t) {
        Some(from)
    } else {
        first_match(lines, pattern, from + 1, t)
    }
}

/// Where `pattern` stands in `lines`: at the first exact match, else at the
/// first that differs in trailing space, else at the first that differs in
/// surrounding space. The search begins at `start`, or at the only place
/// where the pattern ends with the file.
pub open spec fn seek(
    lines: Seq<Seq<char>>,
    pattern: Seq<Seq<char>>,
    start: int,
    at_end: bool,
) -> Option<int> {
    let from = if at_end {
        lines.len() - pattern.len()
    } else {
        start
    };
    if pattern.len() == 0 {
        Some(start)
    } else if pattern.len() > lines.len() {
        None
    } else if let Some(i) = first_match(lines, pattern, from, Tolerance::Exact) {
        Some(i)
    } else if let Some(i) = first_match(lines, pattern, from, Tolerance::TrailingSpace) {
        Some(i)
    } else {
        first_match(lines, pattern, from, Tolerance::SurroundingSpace)
    }
}

proof fn lemma_first_match(lines: Seq<Seq<char>>, pattern: Seq<Seq<char>>, from: int, t: Tolerance)
    requires
        from >= 0,
    ensures
        first_match(lines, pattern, from, t) matches Some(i) ==> from <= i && matches_at(
            lines,
            pattern,
            i,
            t,
        ),
    decreases lines.len() - from,
{
    if from + pattern.len() > lines.len() || from >= lines.len() {
    } else if !matches_at(lines, pattern, from, t) {
        lemma_first_match(lines, pattern, from + 1, t);
    }
}

/// A found place lies inside the file.
proof fn lemma_seek(lines: Seq<Seq<char>>, pattern: Seq<Seq<char>>, start: int, at_end: bool)
    requires
        0 <= start <= lines.len(),
    ensures
        seek(lines, pattern, start, at_end) matches Some(i) ==> 0 <= i && i + pattern.len()
            <= lines.len(),
{
    let from = if at_end {
        lines.len() - pattern.len()
    } else {
        start
    };
    if pattern.len() <= lines.len() {
        lemma_first_match(lines, pattern, from, Tolerance::Exact);
        lemma_first_match(lines, pattern, from, Tolerance::TrailingSpace);
        lemma_first_match(lines, pattern, from, Tolerance::SurroundingSpace);
    }
}

/// What of a line counts at a tolerance.
fn compared_part(t: Tolerance, line: &str) -> (r: &str)
    ensures
        r@ == compared(t, line@),
{
    match t {
        Tolerance::Exact => line,
        Tolerance::TrailingSpace => trimmed_end(line),
        Tolerance::SurroundingSpace => trimmed(line),
    }
}

/// Whether `pattern` stands in `lines` at `i`, at a tolerance.
fn stands_at(lines: &[String], pattern: &[String], i: usize, t: Tolerance) -> (r: bool)
    requires
        i + pattern@.len() <= lines@.len(),
    ensures
        r == matches_at(text::texts(lines@), text::texts(pattern@), i as int, t),
{
    let total: usize = lines.len();
    let mut k: usize = 0;
    while k < pattern.len()
        invariant
            k <= pattern@.len(),
            i + pattern@.len() <= lines@.len(),
            total == lines@.len(),
            forall|j: int|
                0 <= j < k ==> compared(t, text::texts(lines@)[i + j]) == compared(
                    t,
                    #[trigger] text::texts(pattern@)[j],
                ),
        decreases pattern@.len() - k,
    {
        if !str_eq(
            compared_part(t, lines[i + k].as_str()),
            compared_part(t, pattern[k].as_str()),
        ) {
            assert(compared(t, text::texts(lines@)[i + k]) != compared(
                t,
                text::texts(pattern@)[k as int],
            ));
            return false;
        }
        k = k + 1;
    }
    true
}

/// The first place from `from` on where `pattern` stands, at a tolerance.
fn find_match(lines: &[String], pattern: &[String], from: usize, t: Tolerance) -> (r: Option<usize>)
    requires
        0 < pattern@.len() <= lines@.len(),
    ensures
        match first_match(text::texts(lines@), text::texts(pattern@), from as int, t) {
            Some(i) => r is Some && r->0 == i,
            None => r is None,
        },
{
    let total: usize = lines.len();
    let last: usize = total - pattern.len();
    let mut i: usize = from;
    while i <= last
        invariant
            total == lines@.len(),
            0 < pattern@.len() <= lines@.len(),
            last == lines@.len() - pattern@.len(),
            first_match(text::texts(lines@), text::texts(pattern@), from as int, t) == first_match(
                text::texts(lines@),
                text::texts(pattern@),
                i as int,
                t,
            ),
        decreases last + 1 - i,
    {
        if stands_at(lines, pattern, i, t) {
            return Some(i);
        }
        i = i + 1;
    }
    None
}

/// Where `pattern` stands in `lines`.
pub fn seek_sequence(lines: &[String], pattern: &[String], start: usize, eof: bool) -> (r: Option<
    usize,
>)
    ensures
        match seek(text::texts(lines@), text::texts(pattern@), start as int, eof) {
            Some(i) => r is Some && r->0 == i,
            None => r is None,
        },
{
    if pattern.len() == 0 {
        return Some(start);
    }
    if pattern.len() > lines.len() {
        return None;
    }
    let from: usize = if eof {
        lines.len() - pattern.len()
    } else {
        start
    };
    if let Some(i) = find_match(lines, pattern, from, Tolerance::Exact) {
        return Some(i);
    }
    if let Some(i) = find_match(lines, pattern, from, Tolerance::TrailingSpace) {
        return Some(i);
    }
    find_match(lines, pattern, from, Tolerance::SurroundingSpace)
}

// ---------------------------------------------------------------------------
// Placing chunks
// ---------------------------------------------------------------------------

/// Lines to put in the place of `old_len` lines from `start` on.
#[derive(Debug)]
pub struct Replacement {
    pub start: usize,
    pub old_len: usize,
    pub new_lines: Vec<String>,
}

/// What a [`Replacement`] stands for.
#[verifier::ext_equal]
pub struct ReplacementView {
    pub start: int,
    pub old_len: int,
    pub new_lines: Seq<Seq<char>>,
}

impl View for Replacement {
    type V = ReplacementView;

    open spec fn view(&self) -> ReplacementView {
        ReplacementView {
            start: self.start as int,
            old_len: self.old_len as int,
            new_lines: text::texts(self.new_lines@),
        }
    }
}

/// Replacements go by where they start.
pub open spec fn starts_no_later() -> spec_fn(ReplacementView, ReplacementView) -> bool {
    |a: ReplacementView, b: ReplacementView| a.start <= b.start
}

impl Ranked for Replacement {
    open spec fn order() -> spec_fn(ReplacementView, ReplacementView) -> bool {
        starts_no_later()
    }

    fn not_after(&self, other: &Self) -> (r: bool) {
        self.start <= other.start
    }
}

/// Why a chunk could not be placed; `path` is the file's.
#[derive(Debug)]
pub enum UpdateError {
    MissingContext { context: String, path: String },
    MissingLines { path: String, lines: Vec<String> },
}

/// What an [`UpdateError`] stands for, the path left out.
pub enum UpdateErrorView {
    MissingContext(Seq<char>),
    MissingLines(Seq<Seq<char>>),
}

/// The text of an error about the file at `path`.
pub open spec fn update_message(path: Seq<char>, e: UpdateErrorView) -> Seq<char> {
    match e {
        UpdateErrorView::MissingContext(context) => "Failed to find context '"@ + context
            + "' in "@ + path,
        UpdateErrorView::MissingLines(lines) => "Failed to find expected lines in "@ + path
            + ":\n"@ + text::join(lines, "\n"@),
    }
}

impl UpdateError {
    /// Whether this error says `e` of the file at `path`.
    pub open spec fn says(self, path: Seq<char>, e: UpdateErrorView) -> bool {
        match (self, e) {
            (
                UpdateError::MissingContext { context, path: p },
                UpdateErrorView::MissingContext(c),
            ) => context@ == c && p@ == path,
            (
                UpdateError::MissingLines { path: p, lines },
                UpdateErrorView::MissingLines(ls),
            ) => text::texts(lines@) == ls && p@ == path,
            _ => false,
        }
    }

    /// The text of this error.
    pub fn message(&self) -> (r: String)
        ensures
            match *self {
                UpdateError::MissingContext { context, path } => r@ == "Failed to find context '"@
                    + context@ + "' in "@ + path@,
                UpdateError::MissingLines { path, lines } => r@
                    == "Failed to find expected lines in "@ + path@ + ":\n"@ + text::join(
                    text::texts(lines@),
                    "\n"@,
                ),
            },
    {
        match self {
            UpdateError::MissingContext { context, path } => cat4(
                "Failed to find context '",
                context.as_str(),
                "' in ",
                path.as_str(),
            ),
            UpdateError::MissingLines { path, lines } => cat4(
                "Failed to find expected lines in ",
                path.as_str(),
                ":\n",
                join_texts(lines, "\n").as_str(),
            ),
        }
    }
}

/// Whether the last line is there and empty.
pub open spec fn ends_empty(lines: Seq<Seq<char>>) -> bool {
    lines.len() > 0 && lines.last().len() == 0
}

/// `lines` without the last where it is empty.
pub open spec fn without_empty_end(lines: Seq<Seq<char>>) -> Seq<Seq<char>> {
    if ends_empty(lines) {
        lines.drop_last()
    } else {
        lines
    }
}

/// Where the search for a chunk begins: behind its context line, which is
/// looked for from `from` on.
pub open spec fn after_context(lines: Seq<Seq<char>>, chunk: ChunkView, from: int) -> Result<
    int,
    UpdateErrorView,
> {
    match chunk.context {
        None => Ok(from),
        Some(context) => match seek(lines, seq![context], from, false) {
            Some(i) => Ok(i + 1),
            None => Err(UpdateErrorView::MissingContext(context)),
        },
    }
}

/// The place of one chunk, looked for from `from` on, and where the search
/// for the next one begins. A chunk that expects no line goes to the end. An
/// empty last line of what is expected is given up where nothing else fits.
pub open spec fn place_chunk(lines: Seq<Seq<char>>, chunk: ChunkView, from: int) -> Result<
    (ReplacementView, int),
    UpdateErrorView,
> {
    match after_context(lines, chunk, from) {
        Err(e) => Err(e),
        Ok(start) => if chunk.old_lines.len() == 0 {
            Ok(
                (
                    ReplacementView {
                        start: without_empty_end(lines).len() as int,
                        old_len: 0,
                        new_lines: chunk.new_lines,
                    },
                    start,
                ),
            )
        } else if let Some(i) = seek(lines, chunk.old_lines, start, chunk.at_end) {
            Ok(
                (
                    ReplacementView {
                        start: i,
                        old_len: chunk.old_lines.len() as int,
                        new_lines: chunk.new_lines,
                    },
                    i + chunk.old_lines.len(),
                ),
            )
        } else if !ends_empty(chunk.old_lines) {
            Err(UpdateErrorView::MissingLines(chunk.old_lines))
        } else {
            let shorter = chunk.old_lines.drop_last();
            match seek(lines, shorter, start, chunk.at_end) {
                Some(i) => Ok(
                    (
                        ReplacementView {
                            start: i,
                            old_len: shorter.len() as int,
                            new_lines: without_empty_end(chunk.new_lines),
                        },
                        i + shorter.len(),
                    ),
                ),
                None => Err(UpdateErrorView::MissingLines(chunk.old_lines)),
            }
        },
    }
}

/// `done` with the places of the chunks from the `k`-th on behind it.
pub open spec fn place_rest(
    lines: Seq<Seq<char>>,
    chunks: Seq<ChunkView>,
    k: int,
    from: int,
    done: Seq<ReplacementView>,
) -> Result<Seq<ReplacementView>, UpdateErrorView>
    decreases chunks.len() - k,
{
    if k >= chunks.len() {
        Ok(done)
    } else {
        match place_chunk(lines, chunks[k], from) {
            Err(e) => Err(e),
            Ok((r, next)) => place_rest(lines, chunks, k + 1, next, done.push(r)),
        }
    }
}

/// The places of the chunks, ordered by where they start.
pub open spec fn replacements(lines: Seq<Seq<char>>, chunks: Seq<ChunkView>) -> Result<
    Seq<ReplacementView>,
    UpdateErrorView,
> {
    match place_rest(lines, chunks, 0, 0, Seq::empty()) {
        Ok(places) => Ok(sort::sorted(places, starts_no_later())),
        Err(e) => Err(e),
    }
}

/// Whether each replacement starts inside the file or at its end.
pub open spec fn starts_inside(rs: Seq<ReplacementView>, len: int) -> bool {
    forall|i: int| 0 <= i < rs.len() ==> 0 <= (#[trigger] rs[i]).start <= len
}

proof fn lemma_place_chunk(lines: Seq<Seq<char>>, chunk: ChunkView, from: int)
    requires
        0 <= from <= lines.len(),
    ensures
        place_chunk(lines, chunk, from) matches Ok((r, next)) ==> 0 <= r.start <= lines.len() && 0
            <= next <= lines.len(),
        after_context(lines, chunk, from) matches Ok(start) ==> 0 <= start <= lines.len(),
{
    if let Some(context) = chunk.context {
        lemma_seek(lines, seq![context], from, false);
    }
    if let Ok(start) = after_context(lines, chunk, from) {
        lemma_seek(lines, chunk.old_lines, start, chunk.at_end);
        if chunk.old_lines.len() > 0 {
            lemma_seek(lines, chunk.old_lines.drop_last(), start, chunk.at_end);
        }
    }
}

proof fn lemma_place_rest(
    lines: Seq<Seq<char>>,
    chunks: Seq<ChunkView>,
    k: int,
    from: int,
    done: Seq<ReplacementView>,
)
    requires
        0 <= from <= lines.len(),
        0 <= k,
        starts_inside(done, lines.len() as int),
    ensures
        place_rest(lines, chunks, k, from, done) matches Ok(rs) ==> starts_inside(
            rs,
            lines.len() as int,
        ),
    decreases chunks.len() - k,
{
    if k < chunks.len() {
        lemma_place_chunk(lines, chunks[k], from);
        if let Ok((r, next)) = place_chunk(lines, chunks[k], from) {
            lemma_place_rest(lines, chunks, k + 1, next, done.push(r));
        }
    }
}

/// The places of chunks start inside the file and in order.
pub proof fn law_replacements_are_ordered(lines: Seq<Seq<char>>, chunks: Seq<ChunkView>)
    ensures
        replacements(lines, chunks) matches Ok(rs) ==> starts_inside(rs, lines.len() as int)
            && sort::in_order(rs, starts_no_later()),
{
    lemma_place_rest(lines, chunks, 0, 0, Seq::empty());
    if let Ok(places) = place_rest(lines, chunks, 0, 0, Seq::empty()) {
        sort::law_sorted_is_in_order(places, starts_no_later());
        sort::lemma_sorted_all(
            places,
            starts_no_later(),
            |r: ReplacementView| 0 <= r.start <= lines.len(),
        );
    }
}

/// Whether the last of `lines` is there and empty.
fn last_is_empty(lines: &[String]) -> (r: bool)
    ensures
        r == ends_empty(text::texts(lines@)),
{
    if lines.len() == 0 {
        return false;
    }
    proof {
        reveal_strlit("");
        assert(lines@.last()@.len() == 0 ==> lines@.last()@ =~= ""@);
    }
    str_eq(lines[lines.len() - 1].as_str(), "")
}

/// An owned copy of `lines`.
fn copied(lines: &[String]) -> (r: Vec<String>)
    ensures
        text::texts(r@) == text::texts(lines@),
{
    let mut r: Vec<String> = Vec::new();
    for i in 0..lines.len()
        invariant
            text::texts(r@) == text::texts(lines@).take(i as int),
    {
        let line = owned(lines[i].as_str());
        proof {
            text::lemma_texts_push(r@, line);
            assert(text::texts(lines@).take(i + 1) =~= text::texts(lines@).take(i as int).push(
                line@,
            ));
        }
        r.push(line);
    }
    assert(text::texts(lines@).take(lines@.len() as int) =~= text::texts(lines@));
    r
}

/// The place of one chunk, and where the search for the next one begins.
fn find_chunk(lines: &[String], path: &str, chunk: &UpdateFileChunk, from: usize) -> (r: Result<
    (Replacement, usize),
    UpdateError,
>)
    requires
        from <= lines@.len(),
    ensures
        match place_chunk(text::texts(lines@), chunk@, from as int) {
            Ok((place, next)) => r is Ok && r->Ok_0.0@ == place && r->Ok_0.1 == next,
            Err(e) => r is Err && r->Err_0.says(path@, e),
        },
{
    let ghost views = text::texts(lines@);
    let total: usize = lines.len();
    proof {
        lemma_place_chunk(views, chunk@, from as int);
        assert(views.len() == total);
    }
    let start: usize = match &chunk.change_context {
        None => from,
        Some(context) => {
            let mut needle: Vec<String> = Vec::new();
            needle.push(owned(context.as_str()));
            assert(text::texts(needle@) =~= seq![context@]);
            match seek_sequence(lines, needle.as_slice(), from, false) {
                Some(i) => {
                    proof {
                        lemma_seek(views, seq![context@], from as int, false);
                    }
                    i + 1
                },
                None => return Err(
                    UpdateError::MissingContext {
                        context: owned(context.as_str()),
                        path: owned(path),
                    },
                ),
            }
        },
    };
    assert(after_context(views, chunk@, from as int) == Ok::<int, UpdateErrorView>(start as int));
    let all = chunk.old_lines.as_slice();
    if all.len() == 0 {
        let end: usize = if last_is_empty(lines) {
            lines.len() - 1
        } else {
            lines.len()
        };
        let place = Replacement {
            start: end,
            old_len: 0,
            new_lines: clone_texts(&chunk.new_lines),
        };
        return Ok((place, start));
    }
    proof {
        lemma_seek(views, chunk@.old_lines, start as int, chunk@.at_end);
    }
    if let Some(i) = seek_sequence(lines, all, start, chunk.is_end_of_file) {
        let place = Replacement {
            start: i,
            old_len: all.len(),
            new_lines: clone_texts(&chunk.new_lines),
        };
        return Ok((place, i + all.len()));
    }
    if last_is_empty(all) {
        let shorter = slice_subrange(all, 0, all.len() - 1);
        let wanted = chunk.new_lines.as_slice();
        let kept = if last_is_empty(wanted) {
            slice_subrange(wanted, 0, wanted.len() - 1)
        } else {
            wanted
        };
        proof {
            assert(text::texts(shorter@) =~= chunk@.old_lines.drop_last());
            assert(text::texts(kept@) =~= without_empty_end(chunk@.new_lines));
            lemma_seek(views, chunk@.old_lines.drop_last(), start as int, chunk@.at_end);
        }
        if let Some(i) = seek_sequence(lines, shorter, start, chunk.is_end_of_file) {
            let place = Replacement { start: i, old_len: shorter.len(), new_lines: copied(kept) };
            return Ok((place, i + shorter.len()));
        }
    }
    Err(UpdateError::MissingLines { path: owned(path), lines: clone_texts(&chunk.old_lines) })
}

/// The places of the chunks in a file, ordered by where they start.
pub fn compute_replacements(original_lines: &[String], path: &str, chunks: &[UpdateFileChunk]) -> (r:
    Result<Vec<Replacement>, UpdateError>)
    ensures
        match replacements(text::texts(original_lines@), hunk::chunk_views(chunks@)) {
            Ok(rs) => r is Ok && sort::views(r->Ok_0@) == rs,
            Err(e) => r is Err && r->Err_0.says(path@, e),
        },
{
    let ghost lines = text::texts(original_lines@);
    let ghost cs = hunk::chunk_views(chunks@);
    let mut places: Vec<Replacement> = Vec::new();
    let mut from: usize = 0;
    let mut k: usize = 0;
    assert(sort::views(places@) =~= Seq::<ReplacementView>::empty());
    while k < chunks.len()
        invariant
            k <= chunks@.len(),
            from <= original_lines@.len(),
            lines == text::texts(original_lines@),
            cs == hunk::chunk_views(chunks@),
            place_rest(lines, cs, 0, 0, Seq::empty()) == place_rest(
                lines,
                cs,
                k as int,
                from as int,
                sort::views(places@),
            ),
        decreases chunks@.len() - k,
    {
        proof {
            lemma_place_chunk(lines, cs[k as int], from as int);
            assert(cs[k as int] == chunks@[k as int]@);
        }
        match find_chunk(original_lines, path, &chunks[k], from) {
            Err(e) => return Err(e),
            Ok((place, next)) => {
                proof {
                    sort::lemma_views_push(places@, place);
                }
                places.push(place);
                from = next;
            },
        }
        k = k + 1;
    }
    Ok(stable_sort(places))
}

// ---------------------------------------------------------------------------
// Carrying replacements out
// ---------------------------------------------------------------------------

/// `lines` with one replacement carried out. Lines that are not there are not
/// removed.
pub open spec fn splice(lines: Seq<Seq<char>>, r: ReplacementView) -> Seq<Seq<char>> {
    if r.start >= lines.len() {
        lines + r.new_lines
    } else if r.start + r.old_len >= lines.len() {
        lines.take(r.start) + r.new_lines
    } else {
        lines.take(r.start) + r.new_lines + lines.skip(r.start + r.old_len)
    }
}

/// `lines` with all replacements carried out, the last one first.
pub open spec fn splice_all(lines: Seq<Seq<char>>, rs: Seq<ReplacementView>) -> Seq<Seq<char>>
    decreases rs.len(),
{
    if rs.len() == 0 {
        lines
    } else {
        splice_all(splice(lines, rs.last()), rs.drop_last())
    }
}

/// Whether every replacement finds its place when its turn comes: no new line
/// may go behind a gap.
pub open spec fn can_splice_all(lines: Seq<Seq<char>>, rs: Seq<ReplacementView>) -> bool
    decreases rs.len(),
{
    rs.len() == 0 || ((rs.last().start <= lines.len() || rs.last().new_lines.len() == 0)
        && can_splice_all(splice(lines, rs.last()), rs.drop_last()))
}

/// Replacements that start inside the file and in order all find their place.
pub proof fn law_ordered_replacements_fit(lines: Seq<Seq<char>>, rs: Seq<ReplacementView>)
    requires
        starts_inside(rs, lines.len() as int),
        sort::in_order(rs, starts_no_later()),
        forall|i: int| 0 <= i < rs.len() ==> 0 <= (#[trigger] rs[i]).old_len,
    ensures
        can_splice_all(lines, rs),
    decreases rs.len(),
{
    if rs.len() > 0 {
        let last = rs[rs.len() - 1];
        let next = splice(lines, last);
        assert(next.len() >= last.start);
        assert forall|i: int| 0 <= i < rs.drop_last().len() implies 0 <= (
        #[trigger] rs.drop_last()[i]).start <= next.len() by {
            assert(rs.drop_last()[i] == rs[i]);
            assert(starts_no_later()(rs[i], rs[rs.len() - 1]));
        }
        assert forall|i: int, j: int| 0 <= i < j < rs.drop_last().len() implies starts_no_later()(
            #[trigger] rs.drop_last()[i],
            #[trigger] rs.drop_last()[j],
        ) by {
            assert(rs.drop_last()[i] == rs[i] && rs.drop_last()[j] == rs[j]);
        }
        assert forall|i: int| 0 <= i < rs.drop_last().len() implies 0 <= (
        #[trigger] rs.drop_last()[i]).old_len by {
            assert(rs.drop_last()[i] == rs[i]);
        }
        law_ordered_replacements_fit(next, rs.drop_last());
    }
}

/// Carries one replacement out.
fn carry_out(lines: &mut Vec<String>, r: &Replacement)
    requires
        r.start <= old(lines)@.len() || r.new_lines@.len() == 0,
    ensures
        text::texts(final(lines)@) == splice(text::texts(old(lines)@), r@),
{
    let ghost all = text::texts(lines@);
    let len: usize = lines.len();
    if r.start >= len {
        assert(all =~= all.take(len as int));
    }
    let at: usize = if r.start < len {
        r.start
    } else {
        len
    };
    let gone: usize = if r.old_len < len - at {
        r.old_len
    } else {
        len - at
    };
    let mut k: usize = 0;
    assert(all =~= all.take(at as int) + all.skip(at as int));
    while k < gone
        invariant
            k <= gone,
            at + gone <= all.len(),
            text::texts(lines@) == all.take(at as int) + all.skip(at + k),
        decreases gone - k,
    {
        let ghost was = lines@;
        assert(text::texts(was).len() == all.len() - k);
        lines.remove(at);
        assert forall|i: int| 0 <= i < lines@.len() implies #[trigger] text::texts(lines@)[i] == (
        all.take(at as int) + all.skip(at + k + 1))[i] by {
            if i < at {
                assert(text::texts(was)[i] == all[i]);
            } else {
                assert(text::texts(was)[i + 1] == all[i + 1 + k]);
            }
        }
        assert(text::texts(lines@) =~= all.take(at as int) + all.skip(at + k + 1));
        k = k + 1;
    }
    let ghost new = text::texts(r.new_lines@);
    let mut j: usize = 0;
    assert(all.take(at as int) + new.take(0) + all.skip(at + gone) =~= all.take(at as int)
        + all.skip(at + gone));
    while j < r.new_lines.len()
        invariant
            j <= new.len(),
            new == text::texts(r.new_lines@),
            at + gone <= all.len(),
            text::texts(lines@) == all.take(at as int) + new.take(j as int) + all.skip(at + gone),
        decreases new.len() - j,
    {
        let ghost was = lines@;
        assert(text::texts(was).len() == at + j + all.len() - at - gone);
        let line = owned(r.new_lines[j].as_str());
        let total: usize = lines.len();
        lines.insert(at + j, line);
        assert forall|i: int| 0 <= i < lines@.len() implies #[trigger] text::texts(lines@)[i] == (
        all.take(at as int) + new.take(j + 1) + all.skip(at + gone))[i] by {
            if i < at + j {
                assert(text::texts(lines@)[i] == text::texts(was)[i]);
            } else if i > at + j {
                assert(text::texts(lines@)[i] == text::texts(was)[i - 1]);
            }
        }
        assert(text::texts(lines@) =~= all.take(at as int) + new.take(j + 1) + all.skip(at + gone));
        j = j + 1;
    }
    assert(new.take(new.len() as int) =~= new);
    assert(text::texts(lines@) =~= splice(all, r@));
}

/// `lines` with all replacements carried out, the last one first.
pub fn apply_replacements(lines: Vec<String>, replacements: &[Replacement]) -> (r: Vec<String>)
    requires
        can_splice_all(text::texts(lines@), sort::views(replacements@)),
    ensures
        text::texts(r@) == splice_all(text::texts(lines@), sort::views(replacements@)),
{
    let ghost rs = sort::views(replacements@);
    let ghost all = text::texts(lines@);
    let mut r = lines;
    let mut k: usize = replacements.len();
    assert(rs.take(k as int) =~= rs);
    while k > 0
        invariant
            k <= replacements@.len(),
            rs == sort::views(replacements@),
            can_splice_all(text::texts(r@), rs.take(k as int)),
            splice_all(all, rs) == splice_all(text::texts(r@), rs.take(k as int)),
        decreases k,
    {
        k = k - 1;
        proof {
            assert(rs.take(k + 1).last() == replacements@[k as int]@);
            assert(rs.take(k + 1).drop_last() =~= rs.take(k as int));
        }
        carry_out(&mut r, &replacements[k]);
    }
    r
}

// ---------------------------------------------------------------------------
// Updating a file
// ---------------------------------------------------------------------------

/// `lines` with an empty last line, so that joining ends in a line feed.
pub open spec fn with_empty_end(lines: Seq<Seq<char>>) -> Seq<Seq<char>> {
    if ends_empty(lines) {
        lines
    } else {
        lines.push(Seq::empty())
    }
}

/// The lines of a file that replacements count by.
pub open spec fn file_lines(contents: Seq<char>) -> Seq<Seq<char>> {
    without_empty_end(text::split(contents, '\n'))
}

/// The contents of a file after the chunks of an update hunk.
pub open spec fn updated(contents: Seq<char>, chunks: Seq<ChunkView>) -> Result<
    Seq<char>,
    UpdateErrorView,
> {
    match replacements(file_lines(contents), chunks) {
        Ok(rs) => Ok(
            text::join(with_empty_end(splice_all(file_lines(contents), rs)), "\n"@),
        ),
        Err(e) => Err(e),
    }
}

proof fn lemma_old_len(lines: Seq<Seq<char>>, chunks: Seq<ChunkView>, k: int, from: int, done: Seq<ReplacementView>)
    requires
        0 <= k,
        forall|i: int| 0 <= i < done.len() ==> 0 <= (#[trigger] done[i]).old_len,
    ensures
        place_rest(lines, chunks, k, from, done) matches Ok(rs) ==> forall|i: int|
            0 <= i < rs.len() ==> 0 <= (#[trigger] rs[i]).old_len,
    decreases chunks.len() - k,
{
    if k < chunks.len() {
        if let Ok((r, next)) = place_chunk(lines, chunks[k], from) {
            lemma_old_len(lines, chunks, k + 1, next, done.push(r));
        }
    }
}

/// The places found for chunks can always be carried out.
pub proof fn law_placed_chunks_fit(lines: Seq<Seq<char>>, chunks: Seq<ChunkView>)
    ensures
        replacements(lines, chunks) matches Ok(rs) ==> can_splice_all(lines, rs),
{
    law_replacements_are_ordered(lines, chunks);
    lemma_old_len(lines, chunks, 0, 0, Seq::empty());
    if let Ok(places) = place_rest(lines, chunks, 0, 0, Seq::empty()) {
        sort::lemma_sorted_all(places, starts_no_later(), |r: ReplacementView| 0 <= r.old_len);
        law_ordered_replacements_fit(lines, sort::sorted(places, starts_no_later()));
    }
}

/// The contents of the file at `path` before and after the chunks of an
/// update hunk.
pub fn apply_update_chunks(path: &str, contents: &str, chunks: &[UpdateFileChunk]) -> (r: Result<
    (String, String),
    UpdateError,
>)
    ensures
        match updated(contents@, hunk::chunk_views(chunks@)) {
            Ok(after) => r is Ok && r->Ok_0.0@ == contents@ && r->Ok_0.1@ == after,
            Err(e) => r is Err && r->Err_0.says(path@, e),
        },
{
    let mut lines = split_on(contents, '\n');
    let ghost split = text::texts(lines@);
    if last_is_empty(lines.as_slice()) {
        lines.pop();
        assert(text::texts(lines@) =~= split.drop_last());
    }
    proof {
        law_placed_chunks_fit(text::texts(lines@), hunk::chunk_views(chunks@));
    }
    let places = match compute_replacements(lines.as_slice(), path, chunks) {
        Ok(places) => places,
        Err(e) => return Err(e),
    };
    let mut after = apply_replacements(lines, places.as_slice());
    if !last_is_empty(after.as_slice()) {
        let end = String::new();
        proof {
            text::lemma_texts_push(after@, end);
            assert(end@ =~= Seq::<char>::empty());
        }
        after.push(end);
    }
    Ok((owned(contents), join_texts(&after, "\n")))
}

// ---------------------------------------------------------------------------
// Laws
// ---------------------------------------------------------------------------

/// An updated file is empty or ends in a line feed.
pub proof fn law_updated_file_ends_in_line_feed(contents: Seq<char>, chunks: Seq<ChunkView>)
    ensures
        updated(contents, chunks) matches Ok(after) ==> after.len() == 0 || after.last() == '\n',
{
    reveal_strlit("\n");
    if let Ok(rs) = replacements(file_lines(contents), chunks) {
        let lines = with_empty_end(splice_all(file_lines(contents), rs));
        assert(lines.last().len() == 0);
        if lines.len() > 1 {
            let front = text::join(lines.drop_last(), "\n"@);
            assert(text::join(lines, "\n"@) =~= front.push('\n'));
        }
    }
}

/// Whether a text is a line feed alone or ends in two.
pub open spec fn ends_in_blank_line(s: Seq<char>) -> bool {
    s.len() > 0 && s.last() == '\n' && (s.len() == 1 || s[s.len() - 2] == '\n')
}

/// An update hunk without chunks only sees to the end of the file: a missing
/// line feed is added, and one blank line is given up.
pub proof fn law_no_chunks_only_see_to_the_end(contents: Seq<char>)
    ensures
        updated(contents, Seq::empty()) == Ok::<Seq<char>, UpdateErrorView>(
            if ends_in_blank_line(contents) {
                contents.drop_last()
            } else if contents.len() == 0 || contents.last() == '\n' {
                contents
            } else {
                contents.push('\n')
            },
        ),
{
    reveal_strlit("\n");
    assert("\n"@ =~= seq!['\n']);
    let all = text::split(contents, '\n');
    text::law_join_undoes_split(contents, '\n');
    text::lemma_split_end(contents, '\n');
    let lines = file_lines(contents);
    let rs = sort::sorted(Seq::<ReplacementView>::empty(), starts_no_later());
    assert(replacements(lines, Seq::empty()) == Ok::<Seq<ReplacementView>, UpdateErrorView>(rs));
    assert(splice_all(lines, rs) == lines);
    if contents.len() == 0 {
        assert(all.drop_last() =~= Seq::empty());
        assert(text::join(seq![Seq::<char>::empty()], "\n"@) =~= contents);
        assert(lines.push(Seq::empty()) =~= seq![Seq::<char>::empty()]);
    } else if contents.last() == '\n' {
        let front = contents.drop_last();
        text::law_join_undoes_split(front, '\n');
        text::lemma_split_end(front, '\n');
        assert(lines =~= text::split(front, '\n'));
        if !ends_empty(lines) {
            assert(with_empty_end(lines) =~= all);
        }
    } else {
        assert(lines.push(Seq::empty()).drop_last() =~= lines);
        assert(text::join(lines.push(Seq::empty()), "\n"@) =~= contents.push('\n'));
    }
}

/// Whether replacements lie one behind the other inside the first `end` lines.
pub open spec fn lie_apart(rs: Seq<ReplacementView>, end: int) -> bool {
    &&& forall|i: int|
        0 <= i < rs.len() ==> 0 <= (#[trigger] rs[i]).start && 0 <= rs[i].old_len && rs[i].start
            + rs[i].old_len <= end
    &&& forall|i: int, j: int|
        0 <= i < j < rs.len() ==> (#[trigger] rs[i]).start + rs[i].old_len <= (
        #[trigger] rs[j]).start
}

/// The first `end` lines with each replaced range given up for its new lines
/// and everything between the ranges kept.
pub open spec fn woven(lines: Seq<Seq<char>>, rs: Seq<ReplacementView>, end: int) -> Seq<Seq<char>>
    decreases rs.len(),
{
    if rs.len() == 0 {
        lines.take(end)
    } else {
        let r = rs.last();
        woven(lines, rs.drop_last(), r.start) + r.new_lines + lines.subrange(
            r.start + r.old_len,
            end,
        )
    }
}

proof fn lemma_lie_apart_front(rs: Seq<ReplacementView>, end: int)
    requires
        lie_apart(rs, end),
        rs.len() > 0,
    ensures
        lie_apart(rs.drop_last(), rs.last().start),
{
    let front = rs.drop_last();
    assert(rs.last() == rs[rs.len() - 1]);
    assert forall|i: int| 0 <= i < front.len() implies 0 <= (#[trigger] front[i]).start && 0
        <= front[i].old_len && front[i].start + front[i].old_len <= rs.last().start by {
        assert(front[i] == rs[i]);
    }
    assert forall|i: int, j: int| 0 <= i < j < front.len() implies (#[trigger] front[i]).start
        + front[i].old_len <= (#[trigger] front[j]).start by {
        assert(front[i] == rs[i] && front[j] == rs[j]);
    }
}

proof fn lemma_woven_prefix(a: Seq<Seq<char>>, b: Seq<Seq<char>>, rs: Seq<ReplacementView>, end: int)
    requires
        lie_apart(rs, end),
        0 <= end <= a.len(),
        end <= b.len(),
        a.take(end) == b.take(end),
    ensures
        woven(a, rs, end) == woven(b, rs, end),
    decreases rs.len(),
{
    if rs.len() > 0 {
        let r = rs.last();
        assert(r == rs[rs.len() - 1]);
        lemma_lie_apart_front(rs, end);
        assert(a.take(r.start) =~= a.take(end).take(r.start));
        assert(b.take(r.start) =~= b.take(end).take(r.start));
        lemma_woven_prefix(a, b, rs.drop_last(), r.start);
        assert(a.subrange(r.start + r.old_len, end) =~= a.take(end).subrange(
            r.start + r.old_len,
            end,
        ));
        assert(b.subrange(r.start + r.old_len, end) =~= b.take(end).subrange(
            r.start + r.old_len,
            end,
        ));
    }
}

proof fn lemma_splice_all_weaves(lines: Seq<Seq<char>>, rs: Seq<ReplacementView>, end: int)
    requires
        lie_apart(rs, end),
        0 <= end <= lines.len(),
    ensures
        splice_all(lines, rs) == woven(lines, rs, end) + lines.skip(end),
    decreases rs.len(),
{
    if rs.len() == 0 {
        assert(lines =~= lines.take(end) + lines.skip(end));
    } else {
        let r = rs.last();
        let front = rs.drop_last();
        assert(r == rs[rs.len() - 1]);
        let next = splice(lines, r);
        lemma_lie_apart_front(rs, end);
        assert(next =~= lines.take(r.start) + r.new_lines + lines.skip(r.start + r.old_len));
        lemma_splice_all_weaves(next, front, r.start);
        assert(next.take(r.start) =~= lines.take(r.start));
        lemma_woven_prefix(next, lines, front, r.start);
        assert(next.skip(r.start) =~= r.new_lines + lines.subrange(r.start + r.old_len, end)
            + lines.skip(end));
        assert(splice_all(lines, rs) =~= woven(lines, rs, end) + lines.skip(end));
    }
}

/// Replacements that lie apart change their own ranges and nothing else.
pub proof fn law_replacements_change_only_their_ranges(
    lines: Seq<Seq<char>>,
    rs: Seq<ReplacementView>,
)
    requires
        lie_apart(rs, lines.len() as int),
    ensures
        splice_all(lines, rs) == woven(lines, rs, lines.len() as int),
{
    lemma_splice_all_weaves(lines, rs, lines.len() as int);
    assert(lines.skip(lines.len() as int) =~= Seq::empty());
    assert(woven(lines, rs, lines.len() as int) + Seq::<Seq<char>>::empty() =~= woven(
        lines,
        rs,
        lines.len() as int,
    ));
}

/// Whether each chunk expects a line and none is tied to the end of the file.
pub open spec fn go_forward(chunks: Seq<ChunkView>) -> bool {
    forall|i: int|
        0 <= i < chunks.len() ==> (#[trigger] chunks[i]).old_lines.len() > 0 && !chunks[i].at_end
}

proof fn lemma_seek_forward(lines: Seq<Seq<char>>, pattern: Seq<Seq<char>>, start: int)
    requires
        0 <= start <= lines.len(),
    ensures
        seek(lines, pattern, start, false) matches Some(i) ==> start <= i && i + pattern.len()
            <= lines.len(),
{
    lemma_seek(lines, pattern, start, false);
    lemma_first_match(lines, pattern, start, Tolerance::Exact);
    lemma_first_match(lines, pattern, start, Tolerance::TrailingSpace);
    lemma_first_match(lines, pattern, start, Tolerance::SurroundingSpace);
}

proof fn lemma_place_forward(
    lines: Seq<Seq<char>>,
    chunks: Seq<ChunkView>,
    k: int,
    from: int,
    done: Seq<ReplacementView>,
)
    requires
        go_forward(chunks),
        0 <= k,
        0 <= from <= lines.len(),
        lie_apart(done, from),
    ensures
        place_rest(lines, chunks, k, from, done) matches Ok(rs) ==> lie_apart(
            rs,
            lines.len() as int,
        ),
    decreases chunks.len() - k,
{
    if k < chunks.len() {
        let chunk = chunks[k];
        lemma_place_chunk(lines, chunk, from);
        if let Some(context) = chunk.context {
            lemma_seek_forward(lines, seq![context], from);
        }
        if let Ok((r, next)) = place_chunk(lines, chunk, from) {
            let start = after_context(lines, chunk, from)->Ok_0;
            lemma_seek_forward(lines, chunk.old_lines, start);
            lemma_seek_forward(lines, chunk.old_lines.drop_last(), start);
            lemma_place_forward(lines, chunks, k + 1, next, done.push(r));
        }
    }
}

/// Chunks that expect lines and are not tied to the end of the file are
/// placed one behind the other: the file changes in their ranges and nowhere
/// else.
pub proof fn law_chunks_change_only_their_ranges(lines: Seq<Seq<char>>, chunks: Seq<ChunkView>)
    requires
        go_forward(chunks),
    ensures
        replacements(lines, chunks) matches Ok(rs) ==> {
            &&& place_rest(lines, chunks, 0, 0, Seq::empty()) == replacements(lines, chunks)
            &&& lie_apart(rs, lines.len() as int)
            &&& splice_all(lines, rs) == woven(lines, rs, lines.len() as int)
        },
{
    lemma_place_forward(lines, chunks, 0, 0, Seq::empty());
    if let Ok(rs) = place_rest(lines, chunks, 0, 0, Seq::empty()) {
        assert forall|i: int, j: int| 0 <= i < j < rs.len() implies starts_no_later()(
            #[trigger] rs[i],
            #[trigger] rs[j],
        ) by {
            assert(rs[i].start + rs[i].old_len <= rs[j].start);
        }
        sort::law_sorting_keeps_order(rs, starts_no_later());
        law_replacements_change_only_their_ranges(lines, rs);
    }
}

/// Whether two runs of lines are the same but for white space at the ends of
/// lines.
pub open spec fn same_but_for_trailing_space(a: Seq<Seq<char>>, b: Seq<Seq<char>>) -> bool {
    a.len() == b.len() && forall|k: int|
        0 <= k < a.len() ==> text::trim_end(#[trigger] a[k]) == text::trim_end(b[k])
}

/// Whether two runs of lines are the same but for white space round lines.
pub open spec fn same_but_for_space(a: Seq<Seq<char>>, b: Seq<Seq<char>>) -> bool {
    a.len() == b.len() && forall|k: int|
        0 <= k < a.len() ==> text::trim(#[trigger] a[k]) == text::trim(b[k])
}

/// Whether a run of `n` lines that is looked for from `start` on may stand at
/// `i`; one tied to the end of the file stands at the end alone.
pub open spec fn may_stand(lines: Seq<Seq<char>>, n: nat, start: int, at_end: bool, i: int) -> bool {
    i + n <= lines.len() && if at_end {
        i + n == lines.len()
    } else {
        start <= i
    }
}

proof fn lemma_matches_are_runs(lines: Seq<Seq<char>>, pattern: Seq<Seq<char>>, i: int)
    requires
        0 <= i,
        i + pattern.len() <= lines.len(),
    ensures
        matches_at(lines, pattern, i, Tolerance::Exact) <==> lines.subrange(i, i + pattern.len())
            == pattern,
        matches_at(lines, pattern, i, Tolerance::TrailingSpace) <==> same_but_for_trailing_space(
            lines.subrange(i, i + pattern.len()),
            pattern,
        ),
        matches_at(lines, pattern, i, Tolerance::SurroundingSpace) <==> same_but_for_space(
            lines.subrange(i, i + pattern.len()),
            pattern,
        ),
{
    let run = lines.subrange(i, i + pattern.len());
    assert forall|k: int| 0 <= k < pattern.len() implies #[trigger] run[k] == lines[i + k] by {}
    if matches_at(lines, pattern, i, Tolerance::Exact) {
        assert forall|k: int| 0 <= k < pattern.len() implies run[k] == pattern[k] by {
            assert(compared(Tolerance::Exact, lines[i + k]) == compared(
                Tolerance::Exact,
                pattern[k],
            ));
        }
        assert(run =~= pattern);
    }
    if matches_at(lines, pattern, i, Tolerance::TrailingSpace) {
        assert forall|k: int| 0 <= k < run.len() implies text::trim_end(#[trigger] run[k])
            == text::trim_end(pattern[k]) by {
            assert(compared(Tolerance::TrailingSpace, lines[i + k]) == compared(
                Tolerance::TrailingSpace,
                pattern[k],
            ));
        }
    }
    if matches_at(lines, pattern, i, Tolerance::SurroundingSpace) {
        assert forall|k: int| 0 <= k < run.len() implies text::trim(#[trigger] run[k])
            == text::trim(pattern[k]) by {
            assert(compared(Tolerance::SurroundingSpace, lines[i + k]) == compared(
                Tolerance::SurroundingSpace,
                pattern[k],
            ));
        }
    }
    if run == pattern {
        assert forall|k: int| 0 <= k < pattern.len() implies compared(
            Tolerance::Exact,
            lines[i + k],
        ) == compared(Tolerance::Exact, #[trigger] pattern[k]) by {
            assert(run[k] == lines[i + k]);
        }
    }
    if same_but_for_trailing_space(run, pattern) {
        assert forall|k: int| 0 <= k < pattern.len() implies compared(
            Tolerance::TrailingSpace,
            lines[i + k],
        ) == compared(Tolerance::TrailingSpace, #[trigger] pattern[k]) by {
            assert(text::trim_end(run[k]) == text::trim_end(pattern[k]));
        }
    }
    if same_but_for_space(run, pattern) {
        assert forall|k: int| 0 <= k < pattern.len() implies compared(
            Tolerance::SurroundingSpace,
            lines[i + k],
        ) == compared(Tolerance::SurroundingSpace, #[trigger] pattern[k]) by {
            assert(text::trim(run[k]) == text::trim(pattern[k]));
        }
    }
}

proof fn lemma_first_match_is(
    lines: Seq<Seq<char>>,
    pattern: Seq<Seq<char>>,
    from: int,
    t: Tolerance,
    j: int,
)
    requires
        0 <= from <= j,
        pattern.len() > 0,
        matches_at(lines, pattern, j, t),
    ensures
        first_match(lines, pattern, from, t) matches Some(i) && i <= j,
    decreases j - from,
{
    if from < j && !matches_at(lines, pattern, from, t) {
        lemma_first_match_is(lines, pattern, from + 1, t, j);
    }
}

/// Lines are found where they may stand and agree with what is looked for, but
/// for white space round them. Of several places an exact one comes before one
/// that differs at the ends of lines, that before any other, and the first of
/// its kind before later ones. Where they agree nowhere nothing is found.
pub proof fn law_lines_are_found_where_they_stand(
    lines: Seq<Seq<char>>,
    pattern: Seq<Seq<char>>,
    start: int,
    at_end: bool,
    j: int,
)
    requires
        0 <= start,
        pattern.len() > 0,
    ensures
        seek(lines, pattern, start, at_end) matches Some(i) ==> 0 <= i && may_stand(
            lines,
            pattern.len(),
            start,
            at_end,
            i,
        ) && same_but_for_space(lines.subrange(i, i + pattern.len()), pattern),
        0 <= j && may_stand(lines, pattern.len(), start, at_end, j) ==> {
            let run = lines.subrange(j, j + pattern.len());
            &&& run == pattern ==> (seek(lines, pattern, start, at_end) matches Some(i) && i <= j
                && lines.subrange(i, i + pattern.len()) == pattern)
            &&& same_but_for_trailing_space(run, pattern) ==> (seek(
                lines,
                pattern,
                start,
                at_end,
            ) matches Some(i) && (lines.subrange(i, i + pattern.len()) == pattern || (i <= j
                && same_but_for_trailing_space(lines.subrange(i, i + pattern.len()), pattern))))
            &&& same_but_for_space(run, pattern) ==> (seek(lines, pattern, start, at_end) matches Some(
                i,
            ) && (i <= j || same_but_for_trailing_space(
                lines.subrange(i, i + pattern.len()),
                pattern,
            )))
        },
{
    let from = if at_end {
        lines.len() - pattern.len()
    } else {
        start
    };
    if pattern.len() <= lines.len() {
        lemma_first_match(lines, pattern, from, Tolerance::Exact);
        lemma_first_match(lines, pattern, from, Tolerance::TrailingSpace);
        lemma_first_match(lines, pattern, from, Tolerance::SurroundingSpace);
        if let Some(i) = seek(lines, pattern, start, at_end) {
            lemma_matches_are_runs(lines, pattern, i);
            lemma_looser(lines.subrange(i, i + pattern.len()), pattern);
        }
        if 0 <= j && may_stand(lines, pattern.len(), start, at_end, j) {
            lemma_matches_are_runs(lines, pattern, j);
            let run = lines.subrange(j, j + pattern.len());
            if run == pattern {
                lemma_first_match_is(lines, pattern, from, Tolerance::Exact, j);
            }
            if same_but_for_trailing_space(run, pattern) {
                lemma_first_match_is(lines, pattern, from, Tolerance::TrailingSpace, j);
            }
            if same_but_for_space(run, pattern) {
                lemma_first_match_is(lines, pattern, from, Tolerance::SurroundingSpace, j);
            }
        }
    }
}

proof fn lemma_trim_by_trim_end(s: Seq<char>)
    ensures
        text::trim(s) == text::trim(text::trim_end(s)),
{
    text::law_trimming_takes_space_and_nothing_else(s);
    let (i, j) = choose|i: int, j: int|
        0 <= i <= j <= s.len() && text::trim(s) == s.subrange(i, j) && text::is_space(
            #[trigger] s.take(i),
        ) && text::is_space(#[trigger] s.skip(j));
    let core = s.subrange(i, j);
    let e = text::trim_end(s);
    let n = choose|n: int|
        0 <= n <= s.len() && e == s.take(n) && text::is_space(#[trigger] s.skip(n));
    if core.len() == 0 {
        assert forall|k: int| 0 <= k < e.len() implies text::is_white_space(#[trigger] e[k]) by {
            if k < i {
                assert(s.take(i)[k] == e[k]);
            } else {
                assert(s.skip(j)[k - j] == e[k]);
            }
        }
        assert(e =~= e + core + core);
        text::law_trimming_finds_the_core(e, core, core);
    } else {
        if n < j {
            assert(s.skip(n)[j - 1 - n] == core.last());
        }
        let tail = s.subrange(j, n);
        assert forall|k: int| 0 <= k < tail.len() implies text::is_white_space(
            #[trigger] tail[k],
        ) by {
            assert(s.skip(j)[k] == tail[k]);
        }
        assert(e =~= s.take(i) + core + tail);
        text::law_trimming_finds_the_core(s.take(i), core, tail);
    }
}

proof fn lemma_looser(a: Seq<Seq<char>>, b: Seq<Seq<char>>)
    ensures
        a == b ==> same_but_for_trailing_space(a, b),
        same_but_for_trailing_space(a, b) ==> same_but_for_space(a, b),
{
    if same_but_for_trailing_space(a, b) {
        assert forall|k: int| 0 <= k < a.len() implies text::trim(#[trigger] a[k]) == text::trim(
            b[k],
        ) by {
            lemma_trim_by_trim_end(a[k]);
            lemma_trim_by_trim_end(b[k]);
        }
    }
}

/// The lines put in the place of a chunk. A chunk that expects no line removes
/// none and adds all of its new ones at the end of the file, in front of an
/// empty last line. Where the expected lines are found, as many are replaced
/// as are expected, by exactly the new lines of the chunk, a blank last one
/// included. Only where they are found nowhere is an empty last line given up,
/// of what is expected and of the new lines.
pub proof fn law_found_lines_give_way_to_the_new_ones(
    lines: Seq<Seq<char>>,
    chunk: ChunkView,
    from: int,
    j: int,
)
    requires
        0 <= from <= lines.len(),
        place_chunk(lines, chunk, from) is Ok,
    ensures
        ({
            let (r, next) = place_chunk(lines, chunk, from)->Ok_0;
            let start = after_context(lines, chunk, from)->Ok_0;
            let run = lines.subrange(r.start, r.start + r.old_len);
            &&& after_context(lines, chunk, from) is Ok
            &&& 0 <= r.start && r.start + r.old_len <= lines.len()
            &&& if chunk.old_lines.len() == 0 {
                &&& r.old_len == 0
                &&& r.new_lines == chunk.new_lines
                &&& next == start
                &&& lines.skip(r.start) == if lines.len() > 0 && lines.last().len() == 0 {
                    seq![Seq::<char>::empty()]
                } else {
                    Seq::empty()
                }
            } else {
                &&& next == r.start + r.old_len
                &&& may_stand(lines, r.old_len as nat, start, chunk.at_end, r.start) || r.old_len == 0
                &&& {
                    ||| {
                        &&& r.new_lines == chunk.new_lines
                        &&& same_but_for_space(run, chunk.old_lines)
                    }
                    ||| {
                        &&& chunk.old_lines.last().len() == 0
                        &&& same_but_for_space(run, chunk.old_lines.drop_last())
                        &&& if chunk.new_lines.len() > 0 && chunk.new_lines.last().len() == 0 {
                            r.new_lines.push(chunk.new_lines.last()) == chunk.new_lines
                        } else {
                            r.new_lines == chunk.new_lines
                        }
                    }
                }
                &&& 0 <= j && may_stand(lines, chunk.old_lines.len(), start, chunk.at_end, j)
                    && same_but_for_space(lines.subrange(j, j + chunk.old_lines.len()), chunk.old_lines)
                    ==> r.old_len == chunk.old_lines.len() && r.new_lines == chunk.new_lines
                &&& 0 <= j && may_stand(lines, chunk.old_lines.len(), start, chunk.at_end, j)
                    && lines.subrange(j, j + chunk.old_lines.len()) == chunk.old_lines ==> run
                    == chunk.old_lines && r.new_lines == chunk.new_lines && r.start <= j
            }
        }),
{
    lemma_place_chunk(lines, chunk, from);
    let (r, next) = place_chunk(lines, chunk, from)->Ok_0;
    let start = after_context(lines, chunk, from)->Ok_0;
    if chunk.old_lines.len() == 0 {
        if lines.len() > 0 && lines.last().len() == 0 {
            assert(lines.last() =~= Seq::<char>::empty());
            assert(lines.skip(r.start) =~= seq![Seq::<char>::empty()]);
        } else {
            assert(lines.skip(r.start) =~= Seq::empty());
        }
    } else {
        law_lines_are_found_where_they_stand(lines, chunk.old_lines, start, chunk.at_end, j);
        let found = seek(lines, chunk.old_lines, start, chunk.at_end);
        if found is Some {
            assert(r.new_lines == chunk.new_lines && r.old_len == chunk.old_lines.len());
        } else {
            let shorter = chunk.old_lines.drop_last();
            if shorter.len() > 0 {
                law_lines_are_found_where_they_stand(lines, shorter, start, chunk.at_end, 0);
            } else {
                assert(r.start == start);
                assert(lines.subrange(r.start, r.start + r.old_len) =~= shorter);
            }
            if chunk.new_lines.len() > 0 && chunk.new_lines.last().len() == 0 {
                assert(r.new_lines.push(chunk.new_lines.last()) =~= chunk.new_lines);
            }
        }
    }
}

/// A chunk has no place for one of two reasons: no line from where the search
/// begins is its context line, or its lines stand nowhere behind it. The error
/// names the context, or all the lines that were expected.
pub proof fn law_unplaced_chunks_stand_nowhere(
    lines: Seq<Seq<char>>,
    chunk: ChunkView,
    from: int,
    j: int,
)
    requires
        0 <= from <= lines.len(),
    ensures
        chunk.context matches Some(context) ==> (from <= j < lines.len() && text::trim(lines[j])
            == text::trim(context) ==> after_context(lines, chunk, from) is Ok),
        chunk.context is None ==> after_context(lines, chunk, from) == Ok::<int, UpdateErrorView>(
            from,
        ),
        after_context(lines, chunk, from) matches Ok(start) ==> chunk.context matches Some(
            context,
        ) ==> from < start && text::trim(lines[start - 1]) == text::trim(context),
        after_context(lines, chunk, from) is Err ==> place_chunk(lines, chunk, from) == Err::<
            (ReplacementView, int),
            UpdateErrorView,
        >(UpdateErrorView::MissingContext(chunk.context->0)) && chunk.context is Some,
        after_context(lines, chunk, from) matches Ok(start) ==> {
            &&& place_chunk(lines, chunk, from) matches Err(e) ==> e
                == UpdateErrorView::MissingLines(chunk.old_lines)
            &&& chunk.old_lines.len() == 0 ==> place_chunk(lines, chunk, from) is Ok
            &&& 0 <= j && may_stand(lines, chunk.old_lines.len(), start, chunk.at_end, j)
                && same_but_for_space(
                lines.subrange(j, j + chunk.old_lines.len()),
                chunk.old_lines,
            ) ==> place_chunk(lines, chunk, from) is Ok
            &&& chunk.old_lines.len() > 1 && chunk.old_lines.last().len() == 0 && 0 <= j
                && may_stand(
                lines,
                (chunk.old_lines.len() - 1) as nat,
                start,
                chunk.at_end,
                j,
            ) && same_but_for_space(
                lines.subrange(j, j + chunk.old_lines.len() - 1),
                chunk.old_lines.drop_last(),
            ) ==> place_chunk(lines, chunk, from) is Ok
        },
{
    lemma_place_chunk(lines, chunk, from);
    if let Some(context) = chunk.context {
        law_lines_are_found_where_they_stand(lines, seq![context], from, false, j);
        if from <= j < lines.len() {
            let run = lines.subrange(j, j + 1);
            assert(run =~= seq![lines[j]]);
            if text::trim(lines[j]) == text::trim(context) {
                assert(same_but_for_space(run, seq![context]));
            }
        }
        if let Some(i) = seek(lines, seq![context], from, false) {
            let run = lines.subrange(i, i + 1);
            assert(text::trim(run[0]) == text::trim(seq![context][0]));
        }
    }
    if let Ok(start) = after_context(lines, chunk, from) {
        if chunk.old_lines.len() > 0 {
            law_lines_are_found_where_they_stand(lines, chunk.old_lines, start, chunk.at_end, j);
            let shorter = chunk.old_lines.drop_last();
            if shorter.len() > 0 {
                law_lines_are_found_where_they_stand(lines, shorter, start, chunk.at_end, j);
            }
        }
    }
}

/// A replacement takes its lines out, puts the new ones there, and keeps what
/// stands before and behind them.
pub proof fn law_replacements_keep_what_is_round_them(
    before: Seq<Seq<char>>,
    old_lines: Seq<Seq<char>>,
    new_lines: Seq<Seq<char>>,
    behind: Seq<Seq<char>>,
)
    ensures
        splice(
            before + old_lines + behind,
            ReplacementView {
                start: before.len() as int,
                old_len: old_lines.len() as int,
                new_lines,
            },
        ) == before + new_lines + behind,
{
    let lines = before + old_lines + behind;
    let end = before.len() + old_lines.len();
    assert(lines.take(before.len() as int) =~= before);
    assert(lines.skip(end as int) =~= behind);
    if behind.len() == 0 {
        assert(before + new_lines + behind =~= before + new_lines);
        if old_lines.len() == 0 {
            assert(lines =~= before);
        }
    }
}

/// A chunk whose new lines are the lines of the file at its place leaves the
/// lines of the file as they are.
pub proof fn law_equal_lines_change_nothing(lines: Seq<Seq<char>>, r: ReplacementView)
    requires
        0 <= r.start,
        0 <= r.old_len,
        r.start + r.old_len <= lines.len(),
        r.new_lines == lines.subrange(r.start, r.start + r.old_len),
    ensures
        splice(lines, r) == lines,
{
    let before = lines.take(r.start);
    let behind = lines.skip(r.start + r.old_len);
    assert(lines =~= before + r.new_lines + behind);
    law_replacements_keep_what_is_round_them(before, r.new_lines, r.new_lines, behind);
}

/// Whether a chunk, looked for from `from` on, has no place for the reason
/// that `e` gives.
pub open spec fn is_without_place(
    lines: Seq<Seq<char>>,
    chunks: Seq<ChunkView>,
    i: int,
    from: int,
    e: UpdateErrorView,
) -> bool {
    0 <= i < chunks.len() && place_chunk(lines, chunks[i], from) == Err::<
        (ReplacementView, int),
        UpdateErrorView,
    >(e)
}

proof fn lemma_place_rest_is(
    lines: Seq<Seq<char>>,
    chunks: Seq<ChunkView>,
    k: int,
    from: int,
    done: Seq<ReplacementView>,
    starts: Seq<int>,
) -> (all: (Seq<int>, int, int))
    requires
        0 <= k <= chunks.len(),
        are_places(lines, chunks.take(k), done, starts),
        starts[k] == from,
    ensures
        place_rest(lines, chunks, k, from, done) matches Ok(rs) ==> are_places(
            lines,
            chunks,
            rs,
            all.0,
        ),
        place_rest(lines, chunks, k, from, done) matches Err(e) ==> is_without_place(
            lines,
            chunks,
            all.1,
            all.2,
            e,
        ),
    decreases chunks.len() - k,
{
    if k < chunks.len() {
        if let Ok((r, next)) = place_chunk(lines, chunks[k], from) {
            let more = done.push(r);
            let further = starts.push(next);
            assert forall|i: int| #![trigger more[i]] 0 <= i < k + 1 implies place_chunk(
                lines,
                chunks.take(k + 1)[i],
                further[i],
            ) == Ok::<(ReplacementView, int), UpdateErrorView>((more[i], further[i + 1])) by {
                if i < k {
                    assert(more[i] == done[i]);
                    assert(chunks.take(k + 1)[i] == chunks.take(k)[i]);
                    assert(further[i] == starts[i] && further[i + 1] == starts[i + 1]);
                }
            }
            lemma_place_rest_is(lines, chunks, k + 1, next, more, further)
        } else {
            (starts, k, from)
        }
    } else {
        assert(chunks.take(k) =~= chunks);
        (starts, k, from)
    }
}

/// Whether `rs` are the places of the chunks, one of each and in their order,
/// where `starts` says from where each was looked for: the first from the
/// start of the file, and each further one from where the one before ended.
pub open spec fn are_places(
    lines: Seq<Seq<char>>,
    chunks: Seq<ChunkView>,
    rs: Seq<ReplacementView>,
    starts: Seq<int>,
) -> bool {
    &&& rs.len() == chunks.len()
    &&& starts.len() == chunks.len() + 1
    &&& starts[0] == 0
    &&& forall|i: int| #![trigger rs[i]]
        0 <= i < chunks.len() ==> place_chunk(lines, chunks[i], starts[i]) == Ok::<
            (ReplacementView, int),
            UpdateErrorView,
        >((rs[i], starts[i + 1]))
}

/// Every chunk has its place among the replacements, and no other is there. A
/// single chunk is looked for from the start of the file.
pub proof fn law_every_chunk_has_its_place(lines: Seq<Seq<char>>, chunks: Seq<ChunkView>)
    ensures
        match replacements(lines, chunks) {
            Ok(rs) => rs.len() == chunks.len() && exists|places: Seq<ReplacementView>, starts: Seq<
                int,
            >| #[trigger]
                are_places(lines, chunks, places, starts) && places.to_multiset()
                    == rs.to_multiset(),
            Err(e) => exists|i: int, at: int| #[trigger] is_without_place(lines, chunks, i, at, e),
        },
        chunks.len() == 1 ==> match place_chunk(lines, chunks[0], 0) {
            Ok((r, _)) => replacements(lines, chunks) == Ok::<
                Seq<ReplacementView>,
                UpdateErrorView,
            >(seq![r]),
            Err(e) => replacements(lines, chunks) == Err::<Seq<ReplacementView>, UpdateErrorView>(
                e,
            ),
        },
{
    let all = lemma_place_rest_is(lines, chunks, 0, 0, Seq::empty(), seq![0]);
    match place_rest(lines, chunks, 0, 0, Seq::empty()) {
        Ok(places) => {
            sort::law_sorted_is_permutation(places, starts_no_later());
            let rs = sort::sorted(places, starts_no_later());
            places.to_multiset_ensures();
            rs.to_multiset_ensures();
            assert(are_places(lines, chunks, places, all.0) && places.to_multiset()
                == rs.to_multiset());
        },
        Err(e) => {
            assert(is_without_place(lines, chunks, all.1, all.2, e));
        },
    }
    if chunks.len() == 1 {
        reveal_with_fuel(place_rest, 2);
        if let Ok((r, next)) = place_chunk(lines, chunks[0], 0) {
            let one = Seq::<ReplacementView>::empty().push(r);
            assert(one =~= seq![r]);
            sort::law_sorting_keeps_order(one, starts_no_later());
        }
    }
}

/// Whether a run of lines stands in a file at a place, to the letter.
pub open spec fn stands_whole(lines: Seq<Seq<char>>, run: Seq<Seq<char>>, i: int) -> bool {
    0 <= i && i + run.len() <= lines.len() && lines.subrange(i, i + run.len()) == run
}

/// A file whose lines are some lines, the expected lines of a chunk, and some
/// lines, where the expected ones stand nowhere before, has the new lines of
/// the chunk in their place afterwards and is otherwise as it was.
pub proof fn law_a_chunk_swaps_its_lines(
    before: Seq<Seq<char>>,
    chunk: ChunkView,
    behind: Seq<Seq<char>>,
)
    requires
        chunk.context is None,
        !chunk.at_end,
        chunk.old_lines.len() > 0,
        forall|j: int|
            0 <= j < before.len() ==> !#[trigger] stands_whole(
                before + chunk.old_lines + behind,
                chunk.old_lines,
                j,
            ),
    ensures
        ({
            let lines = before + chunk.old_lines + behind;
            &&& replacements(lines, seq![chunk]) matches Ok(rs)
            &&& splice_all(lines, rs) == before + chunk.new_lines + behind
        }),
{
    let lines = before + chunk.old_lines + behind;
    let n = before.len() as int;
    let m = chunk.old_lines.len();
    let r = ReplacementView { start: n, old_len: m as int, new_lines: chunk.new_lines };
    assert(place_chunk(lines, chunk, 0) is Ok && place_chunk(lines, chunk, 0)->Ok_0.0 == r) by {
        assert(lines.subrange(n, n + m) =~= chunk.old_lines);
        assert(may_stand(lines, m, 0, false, n));
        lemma_looser(chunk.old_lines, chunk.old_lines);
        law_unplaced_chunks_stand_nowhere(lines, chunk, 0, n);
        law_found_lines_give_way_to_the_new_ones(lines, chunk, 0, n);
        let found = place_chunk(lines, chunk, 0)->Ok_0.0;
        assert(found.old_len == m);
        assert(stands_whole(lines, chunk.old_lines, found.start));
        assert(found =~= r);
    }
    law_every_chunk_has_its_place(lines, seq![chunk]);
    let rs = seq![r];
    assert(splice_all(lines, rs) == splice(lines, r)) by {
        assert(rs.drop_last() =~= Seq::empty());
        reveal_with_fuel(splice_all, 2);
    }
    law_replacements_keep_what_is_round_them(before, chunk.old_lines, chunk.new_lines, behind);
}

/// An updated file is written line by line with a line feed behind each: it
/// splits into the lines left by the replacements, an empty one at the end
/// counted once.
pub proof fn law_updated_file_holds_the_lines_left(
    contents: Seq<char>,
    chunks: Seq<ChunkView>,
    rs: Seq<ReplacementView>,
)
    requires
        replacements(file_lines(contents), chunks) == Ok::<Seq<ReplacementView>, UpdateErrorView>(
            rs,
        ),
        forall|i: int|
            0 <= i < splice_all(file_lines(contents), rs).len() ==> !(#[trigger] splice_all(
                file_lines(contents),
                rs,
            )[i]).contains('\n'),
    ensures
        ({
            let left = splice_all(file_lines(contents), rs);
            let after = updated(contents, chunks)->Ok_0;
            &&& updated(contents, chunks) is Ok
            &&& text::split(after, '\n') == if left.len() > 0 && left.last().len() == 0 {
                left
            } else {
                left.push(Seq::empty())
            }
        }),
{
    reveal_strlit("\n");
    assert("\n"@ =~= seq!['\n']);
    let left = splice_all(file_lines(contents), rs);
    let ended = if left.len() > 0 && left.last().len() == 0 {
        left
    } else {
        left.push(Seq::empty())
    };
    assert(ended == with_empty_end(left));
    assert forall|i: int| 0 <= i < ended.len() implies !(#[trigger] ended[i]).contains('\n') by {
        if i < left.len() {
            assert(ended[i] == left[i]);
        }
    }
    text::law_split_undoes_join(ended, '\n');
}

/// The lines of a file are its pieces between line feeds, without the empty
/// one behind a line feed at the end.
pub proof fn law_file_lines_are_its_pieces(contents: Seq<char>)
    ensures
        contents.len() > 0 && contents.last() == '\n' ==> file_lines(contents).push(Seq::empty())
            == text::split(contents, '\n'),
        contents.len() > 0 && contents.last() != '\n' ==> file_lines(contents) == text::split(
            contents,
            '\n',
        ),
        contents.len() == 0 ==> file_lines(contents).len() == 0,
{
    text::lemma_split_end(contents, '\n');
    let all = text::split(contents, '\n');
    if contents.len() > 0 && contents.last() == '\n' {
        assert(all.last() =~= Seq::<char>::empty());
        assert(file_lines(contents).push(Seq::empty()) =~= all);
    }
}

/// The text of an error names the file, and what was looked for in it.
pub proof fn law_update_errors_name_what_is_missing(
    path: Seq<char>,
    context: Seq<char>,
    lines: Seq<Seq<char>>,
)
    ensures
        text::ends_with(update_message(path, UpdateErrorView::MissingContext(context)), path),
        text::contains(update_message(path, UpdateErrorView::MissingContext(context)), context),
        text::contains(update_message(path, UpdateErrorView::MissingLines(lines)), path),
        text::ends_with(
            update_message(path, UpdateErrorView::MissingLines(lines)),
            text::join(lines, "\n"@),
        ),
{
    let a = "Failed to find context '"@;
    let b = "' in "@;
    text::law_stripping_undoes_putting(a + context + b, path);
    assert(update_message(path, UpdateErrorView::MissingContext(context)) =~= a + context + (b
        + path));
    text::law_searching_finds_the_first_place(a, context, b + path);
    let c = "Failed to find expected lines in "@;
    let d = ":\n"@;
    let all = text::join(lines, "\n"@);
    text::law_stripping_undoes_putting(c + path + d, all);
    assert(update_message(path, UpdateErrorView::MissingLines(lines)) =~= c + path + (d + all));
    text::law_searching_finds_the_first_place(c, path, d + all);
}

} // verus!
