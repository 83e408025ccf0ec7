//! What a run of a patch reports: one outcome for each hunk, told in two
//! styles.

use crate::apply_patch::hunk;
use crate::apply_patch::hunk::{HunkView, PatchHunk};
use crate::apply_patch::summary;
use crate::apply_patch::summary::{build_file_touch_preview, generate_diff_summary};
use crate::text;
use crate::text::{
    cat2, cat3, cat4, cat5, decimal_of_usize, has, join_texts, owned, to_ascii_lower, trimmed,
};
use vstd::prelude::*;

verus! {

// ---------------------------------------------------------------------------
// Outcomes
// ---------------------------------------------------------------------------

/// How carrying out a hunk went. An old text that is not there could not be
/// read as text.
#[allow(inconsistent_fields)]
#[derive(Debug)]
pub enum HunkOutcome {
    /// A file was written anew.
    Created { existed: bool, old: Option<String> },
    /// A protected path was not deleted.
    Refused,
    Deleted { old: Option<String> },
    DeleteFailed,
    /// A file was updated in place.
    Written { old: String, new: String },
    /// A file was updated and moved.
    Moved { old: String, new: String, dest_existed: bool, dest_old: Option<String> },
    /// The destination was written, but the source could not be removed.
    LeftOriginal { old: String, new: String, dest_existed: bool, dest_old: Option<String> },
    /// The chunks could not be placed.
    UpdateFailed { message: String },
}

/// What an outcome stands for.
#[verifier::ext_equal]
pub enum OutcomeView {
    Created { existed: bool, old: Option<Seq<char>> },
    Refused,
    Deleted { old: Option<Seq<char>> },
    DeleteFailed,
    Written { old: Seq<char>, new: Seq<char> },
    Moved { old: Seq<char>, new: Seq<char>, dest_existed: bool, dest_old: Option<Seq<char>> },
    LeftOriginal { old: Seq<char>, new: Seq<char>, dest_existed: bool, dest_old: Option<Seq<char>> },
    UpdateFailed { message: Seq<char> },
}

impl View for HunkOutcome {
    type V = OutcomeView;

    open spec fn view(&self) -> OutcomeView {
        match *self {
            HunkOutcome::Created { existed, old } => OutcomeView::Created {
                existed,
                old: text::opt_text(old),
            },
            HunkOutcome::Refused => OutcomeView::Refused,
            HunkOutcome::Deleted { old } => OutcomeView::Deleted { old: text::opt_text(old) },
            HunkOutcome::DeleteFailed => OutcomeView::DeleteFailed,
            HunkOutcome::Written { old, new } => OutcomeView::Written { old: old@, new: new@ },
            HunkOutcome::Moved { old, new, dest_existed, dest_old } => OutcomeView::Moved {
                old: old@,
                new: new@,
                dest_existed,
                dest_old: text::opt_text(dest_old),
            },
            HunkOutcome::LeftOriginal {
                old,
                new,
                dest_existed,
                dest_old,
            } => OutcomeView::LeftOriginal {
                old: old@,
                new: new@,
                dest_existed,
                dest_old: text::opt_text(dest_old),
            },
            HunkOutcome::UpdateFailed { message } => OutcomeView::UpdateFailed {
                message: message@,
            },
        }
    }
}

/// Whether an outcome is one that a hunk can have.
pub open spec fn fits(hunk: HunkView, outcome: OutcomeView) -> bool {
    match hunk {
        HunkView::Add { .. } => outcome is Created,
        HunkView::Delete { .. } => outcome is Refused || outcome is Deleted
            || outcome is DeleteFailed,
        HunkView::Update { move_to: None, .. } => outcome is Written || outcome is UpdateFailed,
        HunkView::Update { move_to: Some(_), .. } => outcome is Moved || outcome is LeftOriginal
            || outcome is UpdateFailed,
    }
}

/// A text that may be missing, or nothing.
pub open spec fn text_or_nothing(o: Option<Seq<char>>) -> Seq<char> {
    match o {
        Some(s) => s,
        None => Seq::empty(),
    }
}

/// The two texts whose difference is told of an outcome.
pub open spec fn told_texts(hunk: HunkView, outcome: OutcomeView) -> (Seq<char>, Seq<char>) {
    match outcome {
        OutcomeView::Created { .. } => (Seq::empty(), hunk->contents),
        OutcomeView::Deleted { old } => (text_or_nothing(old), Seq::empty()),
        OutcomeView::Written { old, new } => (old, new),
        OutcomeView::Moved { old, new, .. } => (old, new),
        OutcomeView::LeftOriginal { old, new, .. } => (old, new),
        _ => (Seq::empty(), Seq::empty()),
    }
}

// ---------------------------------------------------------------------------
// The report
// ---------------------------------------------------------------------------

/// The report of a run, hunk by hunk.
#[derive(Debug)]
pub struct PatchReport {
    /// One entry for each hunk.
    pub results: Vec<String>,
    /// The paths that were written or removed.
    pub touched_paths: Vec<String>,
    pub added_paths: Vec<String>,
    pub modified_paths: Vec<String>,
    pub deleted_paths: Vec<String>,
    /// One entry for each hunk that failed.
    pub failure_lines: Vec<String>,
}

/// What a [`PatchReport`] stands for.
#[verifier::ext_equal]
pub struct ReportView {
    pub results: Seq<Seq<char>>,
    pub touched: Seq<Seq<char>>,
    pub added: Seq<Seq<char>>,
    pub modified: Seq<Seq<char>>,
    pub deleted: Seq<Seq<char>>,
    pub failures: Seq<Seq<char>>,
}

impl View for PatchReport {
    type V = ReportView;

    open spec fn view(&self) -> ReportView {
        ReportView {
            results: text::texts(self.results@),
            touched: text::texts(self.touched_paths@),
            added: text::texts(self.added_paths@),
            modified: text::texts(self.modified_paths@),
            deleted: text::texts(self.deleted_paths@),
            failures: text::texts(self.failure_lines@),
        }
    }
}

/// The report of a run that has done nothing yet.
pub open spec fn empty_report() -> ReportView {
    ReportView {
        results: Seq::empty(),
        touched: Seq::empty(),
        added: Seq::empty(),
        modified: Seq::empty(),
        deleted: Seq::empty(),
        failures: Seq::empty(),
    }
}

/// A result line with the diff below it, where there is one.
pub open spec fn with_diff(line: Seq<char>, diff: Seq<char>) -> Seq<char> {
    if diff.len() == 0 {
        line
    } else {
        line + "\n"@ + diff
    }
}

/// The report with a success behind it.
pub open spec fn succeed(s: ReportView, line: Seq<char>, touched: Seq<Seq<char>>) -> ReportView {
    ReportView { results: s.results.push("✓ "@ + line), touched: s.touched + touched, ..s }
}

/// The report with a failure behind it.
pub open spec fn fail(s: ReportView, line: Seq<char>) -> ReportView {
    ReportView {
        results: s.results.push("✗ "@ + line),
        failures: s.failures.push(line),
        ..s
    }
}

/// The report after one more hunk.
pub open spec fn reported(
    s: ReportView,
    hunk: HunkView,
    outcome: OutcomeView,
    diff: Seq<char>,
) -> ReportView {
    let path = hunk::path_of(hunk);
    let count = text::decimal(hunk::chunk_count(hunk));
    let dest = hunk::dest_of(hunk);
    match outcome {
        OutcomeView::Created { .. } => ReportView {
            added: s.added.push(path),
            ..succeed(s, with_diff(path + ": created"@, diff), seq![path])
        },
        OutcomeView::Refused => fail(
            s,
            path
                + ": refused, this path is protected and must never be deleted by an agent"@,
        ),
        OutcomeView::Deleted { .. } => ReportView {
            deleted: s.deleted.push(path),
            ..succeed(s, with_diff(path + ": deleted"@, diff), seq![path])
        },
        OutcomeView::DeleteFailed => fail(s, path + ": failed to delete"@),
        OutcomeView::Written { .. } => ReportView {
            modified: s.modified.push(path),
            ..succeed(
                s,
                with_diff(path + ": modified ("@ + count + " hunks)"@, diff),
                seq![path],
            )
        },
        OutcomeView::Moved { .. } => ReportView {
            modified: s.modified.push(path),
            ..succeed(
                s,
                with_diff(path + ": modified ("@ + count + " hunks), moved to "@ + dest, diff),
                seq![path, dest],
            )
        },
        OutcomeView::LeftOriginal { .. } => ReportView {
            touched: s.touched.push(dest),
            ..fail(s, path + ": failed to remove original after writing "@ + dest)
        },
        OutcomeView::UpdateFailed { message } => fail(s, path + ": "@ + message),
    }
}

/// Whether each result is a success of one kind or a failure.
pub open spec fn is_balanced(s: ReportView) -> bool {
    s.results.len() == s.added.len() + s.modified.len() + s.deleted.len() + s.failures.len()
}

/// Every hunk is reported once: as added, as modified, as deleted, or as a
/// failure.
pub proof fn law_every_hunk_is_reported_once(
    s: ReportView,
    hunk: HunkView,
    outcome: OutcomeView,
    diff: Seq<char>,
)
    ensures
        is_balanced(empty_report()),
        reported(s, hunk, outcome, diff).results.len() == s.results.len() + 1,
        is_balanced(s) ==> is_balanced(reported(s, hunk, outcome, diff)),
{
}

// ---------------------------------------------------------------------------
// What else a hunk leaves behind
// ---------------------------------------------------------------------------

/// One edit for the statistics: the text before and after, and whether the
/// text before could not be read.
#[derive(Debug)]
pub struct EditRecord {
    pub old: String,
    pub new: String,
    pub unreadable: bool,
}

/// What an [`EditRecord`] stands for.
#[verifier::ext_equal]
pub struct EditView {
    pub old: Seq<char>,
    pub new: Seq<char>,
    pub unreadable: bool,
}

impl View for EditRecord {
    type V = EditView;

    open spec fn view(&self) -> EditView {
        EditView { old: self.old@, new: self.new@, unreadable: self.unreadable }
    }
}

/// The edits that an outcome counts as.
pub open spec fn edits(hunk: HunkView, outcome: OutcomeView) -> Seq<EditView> {
    match outcome {
        OutcomeView::Created { existed, old } => seq![
            EditView {
                old: text_or_nothing(old),
                new: hunk->contents,
                unreadable: existed && old is None,
            },
        ],
        OutcomeView::Deleted { old } => seq![
            EditView { old: text_or_nothing(old), new: Seq::empty(), unreadable: old is None },
        ],
        OutcomeView::Written { old, new } => seq![
            EditView { old: old, new: new, unreadable: false },
        ],
        OutcomeView::Moved { old, new, dest_existed, dest_old } => {
            let moved = EditView { old: old, new: new, unreadable: false };
            if dest_existed {
                seq![
                    moved,
                    EditView {
                        old: text_or_nothing(dest_old),
                        new: Seq::empty(),
                        unreadable: dest_old is None,
                    },
                ]
            } else {
                seq![moved]
            }
        },
        OutcomeView::LeftOriginal { new, dest_existed, dest_old, .. } => seq![
            EditView {
                old: text_or_nothing(dest_old),
                new: new,
                unreadable: dest_existed && dest_old is None,
            },
        ],
        _ => Seq::empty(),
    }
}

/// A notice that a file was touched.
#[derive(Debug)]
pub struct FileTouchNote {
    /// The path as the patch names it.
    pub path: String,
    pub intent: Option<String>,
    pub summary: String,
    pub detail: Option<String>,
}

/// What a [`FileTouchNote`] stands for.
#[verifier::ext_equal]
pub struct TouchView {
    pub path: Seq<char>,
    pub intent: Option<Seq<char>>,
    pub summary: Seq<char>,
    pub detail: Option<Seq<char>>,
}

impl View for FileTouchNote {
    type V = TouchView;

    open spec fn view(&self) -> TouchView {
        TouchView {
            path: self.path@,
            intent: text::opt_text(self.intent),
            summary: self.summary@,
            detail: text::opt_text(self.detail),
        }
    }
}

/// An intent without surrounding space; a blank one is none.
pub open spec fn clean_intent(intent: Option<Seq<char>>) -> Option<Seq<char>> {
    match intent {
        Some(i) => if text::trim(i).len() == 0 {
            None
        } else {
            Some(text::trim(i))
        },
        None => None,
    }
}

/// The notice for a path.
pub open spec fn touch(
    path: Seq<char>,
    verb: Seq<char>,
    diff: Seq<char>,
    intent: Option<Seq<char>>,
) -> TouchView {
    TouchView {
        path,
        intent: clean_intent(intent),
        summary: verb + " via apply_patch"@,
        detail: summary::preview(diff),
    }
}

/// The notices that an outcome calls for.
pub open spec fn touches(
    hunk: HunkView,
    outcome: OutcomeView,
    diff: Seq<char>,
    intent: Option<Seq<char>>,
) -> Seq<TouchView> {
    let path = hunk::path_of(hunk);
    let dest = hunk::dest_of(hunk);
    match outcome {
        OutcomeView::Created { .. } => seq![touch(path, "created"@, diff, intent)],
        OutcomeView::Deleted { .. } => seq![touch(path, "deleted"@, diff, intent)],
        OutcomeView::Written { .. } => seq![touch(path, "modified"@, diff, intent)],
        OutcomeView::Moved { .. } => seq![
            touch(path, "modified"@, diff, intent),
            touch(dest, "modified"@, diff, intent),
        ],
        OutcomeView::LeftOriginal { .. } => seq![touch(dest, "modified"@, diff, intent)],
        _ => Seq::empty(),
    }
}

// ---------------------------------------------------------------------------
// Keeping the report
// ---------------------------------------------------------------------------

/// A text that may be missing, or nothing.
fn text_or_empty(o: &Option<String>) -> (r: String)
    ensures
        r@ == text_or_nothing(text::opt_text(*o)),
{
    match o {
        Some(s) => owned(s.as_str()),
        None => String::new(),
    }
}

/// Whether `s` is empty.
fn is_empty(s: &str) -> (r: bool)
    ensures
        r == (s@.len() == 0),
{
    s.unicode_len() == 0
}

/// A result line with the diff below it, where there is one.
fn line_with_diff(line: String, diff: &str) -> (r: String)
    ensures
        r@ == with_diff(line@, diff@),
{
    if is_empty(diff) {
        line
    } else {
        cat3(line.as_str(), "\n", diff)
    }
}

/// The path that a hunk is about.
pub fn hunk_path(h: &PatchHunk) -> (r: &str)
    ensures
        r@ == hunk::path_of(h@),
{
    match h {
        PatchHunk::AddFile { path, .. } => path.as_str(),
        PatchHunk::DeleteFile { path } => path.as_str(),
        PatchHunk::UpdateFile { path, .. } => path.as_str(),
    }
}

/// Where a hunk moves its file.
pub fn hunk_dest(h: &PatchHunk) -> (r: Option<&str>)
    ensures
        match r {
            Some(dest) => h@ is Update && h@->move_to == Some(dest@) && dest@ == hunk::dest_of(h@),
            None => hunk::dest_of(h@) == Seq::<char>::empty() && !(h@ is Update && h@->move_to is Some),
        },
{
    match h {
        PatchHunk::UpdateFile { move_to: Some(dest), .. } => Some(dest.as_str()),
        _ => None,
    }
}

/// Where a hunk moves its file, or nothing.
fn dest_or_empty(h: &PatchHunk) -> (r: String)
    ensures
        r@ == hunk::dest_of(h@),
{
    match hunk_dest(h) {
        Some(dest) => owned(dest),
        None => String::new(),
    }
}

/// How many chunks a hunk has.
fn hunk_chunks(h: &PatchHunk) -> (r: usize)
    ensures
        r == hunk::chunk_count(h@),
{
    match h {
        PatchHunk::UpdateFile { chunks, .. } => chunks.len(),
        _ => 0,
    }
}

impl PatchReport {
    /// The report of a run that has done nothing yet.
    pub fn new() -> (r: Self)
        ensures
            r@ == empty_report(),
    {
        let r = PatchReport {
            results: Vec::new(),
            touched_paths: Vec::new(),
            added_paths: Vec::new(),
            modified_paths: Vec::new(),
            deleted_paths: Vec::new(),
            failure_lines: Vec::new(),
        };
        assert(r@ =~= empty_report());
        r
    }

    /// Reports a success.
    fn push_success(&mut self, line: &str, touched: &str)
        ensures
            final(self)@ == succeed(old(self)@, line@, seq![touched@]),
    {
        let result = cat2("✓ ", line);
        let path = owned(touched);
        proof {
            text::lemma_texts_push(self.results@, result);
            text::lemma_texts_push(self.touched_paths@, path);
        }
        self.results.push(result);
        self.touched_paths.push(path);
        assert(self@ =~= succeed(old(self)@, line@, seq![touched@]));
    }

    /// Reports a failure.
    fn push_failure(&mut self, line: &str)
        ensures
            final(self)@ == fail(old(self)@, line@),
    {
        let result = cat2("✗ ", line);
        let failure = owned(line);
        proof {
            text::lemma_texts_push(self.results@, result);
            text::lemma_texts_push(self.failure_lines@, failure);
        }
        self.results.push(result);
        self.failure_lines.push(failure);
        assert(self@ =~= fail(old(self)@, line@));
    }

    /// Reports a touched path.
    fn push_touched(&mut self, path: &str)
        ensures
            final(self)@ == (ReportView { touched: old(self)@.touched.push(path@), ..old(self)@ }),
    {
        let path = owned(path);
        proof {
            text::lemma_texts_push(self.touched_paths@, path);
        }
        self.touched_paths.push(path);
        assert(self@ =~= ReportView { touched: old(self)@.touched.push(path@), ..old(self)@ });
    }

    /// Reports how a hunk went, given the diff to tell.
    pub fn record_with_diff(&mut self, h: &PatchHunk, outcome: &HunkOutcome, diff: &str)
        ensures
            final(self)@ == reported(old(self)@, h@, outcome@, diff@),
    {
        let path = hunk_path(h);
        let dest_text = dest_or_empty(h);
        let dest = dest_text.as_str();
        let count_text = decimal_of_usize(hunk_chunks(h));
        let count = count_text.as_str();
        let ghost before = self@;
        match outcome {
            HunkOutcome::Created { .. } => {
                let line = line_with_diff(cat2(path, ": created"), diff);
                self.push_success(line.as_str(), path);
                let added = owned(path);
                proof {
                    text::lemma_texts_push(self.added_paths@, added);
                }
                self.added_paths.push(added);
            },
            HunkOutcome::Refused => {
                let line = cat2(
                    path,
                    ": refused, this path is protected and must never be deleted by an agent",
                );
                self.push_failure(line.as_str());
            },
            HunkOutcome::Deleted { .. } => {
                let line = line_with_diff(cat2(path, ": deleted"), diff);
                self.push_success(line.as_str(), path);
                let deleted = owned(path);
                proof {
                    text::lemma_texts_push(self.deleted_paths@, deleted);
                }
                self.deleted_paths.push(deleted);
            },
            HunkOutcome::DeleteFailed => {
                let line = cat2(path, ": failed to delete");
                self.push_failure(line.as_str());
            },
            HunkOutcome::Written { .. } => {
                let line = line_with_diff(cat4(path, ": modified (", count, " hunks)"), diff);
                self.push_success(line.as_str(), path);
                let modified = owned(path);
                proof {
                    text::lemma_texts_push(self.modified_paths@, modified);
                }
                self.modified_paths.push(modified);
            },
            HunkOutcome::Moved { .. } => {
                let line = line_with_diff(
                    cat5(path, ": modified (", count, " hunks), moved to ", dest),
                    diff,
                );
                self.push_success(line.as_str(), path);
                self.push_touched(dest);
                let modified = owned(path);
                proof {
                    text::lemma_texts_push(self.modified_paths@, modified);
                }
                self.modified_paths.push(modified);
            },
            HunkOutcome::LeftOriginal { .. } => {
                let line = cat3(path, ": failed to remove original after writing ", dest);
                self.push_failure(line.as_str());
                self.push_touched(dest);
            },
            HunkOutcome::UpdateFailed { message } => {
                let line = cat3(path, ": ", message.as_str());
                self.push_failure(line.as_str());
            },
        }
        assert(self@ =~= reported(before, h@, outcome@, diff@));
    }

    /// Reports how a hunk went and gives back the diff that it told.
    pub fn record(&mut self, h: &PatchHunk, outcome: &HunkOutcome) -> (diff: String)
        requires
            fits(h@, outcome@),
        ensures
            diff@ == told_diff(h@, outcome@),
            final(self)@ == reported(old(self)@, h@, outcome@, diff@),
    {
        let diff = outcome_diff(h, outcome);
        self.record_with_diff(h, outcome, diff.as_str());
        diff
    }
}

/// The diff that an outcome tells: none where nothing was changed.
pub open spec fn told_diff(hunk: HunkView, outcome: OutcomeView) -> Seq<char> {
    if outcome is Refused || outcome is DeleteFailed || outcome is UpdateFailed {
        Seq::empty()
    } else {
        let texts = told_texts(hunk, outcome);
        summary::summary(summary::line_changes(texts.0, texts.1))
    }
}

/// The diff that an outcome tells.
pub fn outcome_diff(h: &PatchHunk, outcome: &HunkOutcome) -> (r: String)
    requires
        fits(h@, outcome@),
    ensures
        r@ == told_diff(h@, outcome@),
{
    let nothing = String::new();
    proof {
        assert(nothing@ =~= Seq::<char>::empty());
    }
    match outcome {
        HunkOutcome::Created { .. } => match h {
            PatchHunk::AddFile { contents, .. } => generate_diff_summary(
                nothing.as_str(),
                contents.as_str(),
            ),
            _ => nothing,
        },
        HunkOutcome::Deleted { old } => generate_diff_summary(
            text_or_empty(old).as_str(),
            nothing.as_str(),
        ),
        HunkOutcome::Written { old, new } => generate_diff_summary(old.as_str(), new.as_str()),
        HunkOutcome::Moved { old, new, .. } => generate_diff_summary(old.as_str(), new.as_str()),
        HunkOutcome::LeftOriginal { old, new, .. } => generate_diff_summary(
            old.as_str(),
            new.as_str(),
        ),
        _ => nothing,
    }
}

/// What a list of edits stands for.
pub open spec fn edit_views(edits: Seq<EditRecord>) -> Seq<EditView> {
    Seq::new(edits.len(), |i: int| edits[i]@)
}

/// The edits that an outcome counts as.
pub fn edits_of(h: &PatchHunk, outcome: &HunkOutcome) -> (r: Vec<EditRecord>)
    requires
        fits(h@, outcome@),
    ensures
        edit_views(r@) == edits(h@, outcome@),
{
    let mut r: Vec<EditRecord> = Vec::new();
    match outcome {
        HunkOutcome::Created { existed, old } => {
            if let PatchHunk::AddFile { contents, .. } = h {
                r.push(
                    EditRecord {
                        old: text_or_empty(old),
                        new: owned(contents.as_str()),
                        unreadable: *existed && old.is_none(),
                    },
                );
            }
        },
        HunkOutcome::Deleted { old } => {
            r.push(
                EditRecord {
                    old: text_or_empty(old),
                    new: String::new(),
                    unreadable: old.is_none(),
                },
            );
        },
        HunkOutcome::Written { old, new } => {
            r.push(
                EditRecord {
                    old: owned(old.as_str()),
                    new: owned(new.as_str()),
                    unreadable: false,
                },
            );
        },
        HunkOutcome::Moved { old, new, dest_existed, dest_old } => {
            r.push(
                EditRecord {
                    old: owned(old.as_str()),
                    new: owned(new.as_str()),
                    unreadable: false,
                },
            );
            if *dest_existed {
                r.push(
                    EditRecord {
                        old: text_or_empty(dest_old),
                        new: String::new(),
                        unreadable: dest_old.is_none(),
                    },
                );
            }
        },
        HunkOutcome::LeftOriginal { new, dest_existed, dest_old, .. } => {
            r.push(
                EditRecord {
                    old: text_or_empty(dest_old),
                    new: owned(new.as_str()),
                    unreadable: *dest_existed && dest_old.is_none(),
                },
            );
        },
        _ => {},
    }
    assert(edit_views(r@) =~~= edits(h@, outcome@));
    r
}

/// What a list of notices stands for.
pub open spec fn touch_views(touches: Seq<FileTouchNote>) -> Seq<TouchView> {
    Seq::new(touches.len(), |i: int| touches[i]@)
}

/// The notice for a path.
pub fn file_touch(path: &str, verb: &str, diff: &str, intent: Option<&str>) -> (r: FileTouchNote)
    ensures
        r@ == touch(path@, verb@, diff@, text::opt_str(intent)),
{
    let intent = match intent {
        Some(intent) => {
            let cut = trimmed(intent);
            if is_empty(cut) {
                None
            } else {
                Some(owned(cut))
            }
        },
        None => None,
    };
    FileTouchNote {
        path: owned(path),
        intent,
        summary: cat2(verb, " via apply_patch"),
        detail: build_file_touch_preview(diff),
    }
}

/// The notices that an outcome calls for, given the diff that it told.
pub fn touches_of(h: &PatchHunk, outcome: &HunkOutcome, diff: &str, intent: Option<&str>) -> (r: Vec<
    FileTouchNote,
>)
    ensures
        touch_views(r@) == touches(h@, outcome@, diff@, text::opt_str(intent)),
{
    let path = hunk_path(h);
    let dest_text = dest_or_empty(h);
    let dest = dest_text.as_str();
    let mut r: Vec<FileTouchNote> = Vec::new();
    match outcome {
        HunkOutcome::Created { .. } => r.push(file_touch(path, "created", diff, intent)),
        HunkOutcome::Deleted { .. } => r.push(file_touch(path, "deleted", diff, intent)),
        HunkOutcome::Written { .. } => r.push(file_touch(path, "modified", diff, intent)),
        HunkOutcome::Moved { .. } => {
            r.push(file_touch(path, "modified", diff, intent));
            r.push(file_touch(dest, "modified", diff, intent));
        },
        HunkOutcome::LeftOriginal { .. } => r.push(file_touch(dest, "modified", diff, intent)),
        _ => {},
    }
    assert(touch_views(r@) =~= touches(h@, outcome@, diff@, text::opt_str(intent)));
    r
}

// ---------------------------------------------------------------------------
// Telling the report
// ---------------------------------------------------------------------------

/// Each of `lines` behind `prefix`.
pub open spec fn prefixed(prefix: Seq<char>, lines: Seq<Seq<char>>) -> Seq<Seq<char>> {
    Seq::new(lines.len(), |i: int| prefix + lines[i])
}

/// The lines of the short style: the paths that changed, then the failures.
pub open spec fn short_lines(s: ReportView) -> Seq<Seq<char>> {
    let changed = prefixed("A "@, s.added) + prefixed("M "@, s.modified) + prefixed(
        "D "@,
        s.deleted,
    );
    let head = if changed.len() == 0 {
        Seq::empty()
    } else {
        seq!["Success. Updated the following files:"@]
    };
    head + changed + prefixed("error: "@, s.failures)
}

/// The body of the report. The short style lists paths alone.
pub open spec fn body(s: ReportView, short: bool) -> Seq<char> {
    if s.results.len() == 0 {
        "No changes applied"@
    } else if short {
        text::join(short_lines(s), "\n"@)
    } else {
        text::join(s.results, "\n"@)
    }
}

/// The title of the report, where anything was done.
pub open spec fn title(s: ReportView) -> Option<Seq<char>> {
    if s.results.len() == 0 {
        None
    } else if s.touched.len() == 1 {
        Some(s.touched[0])
    } else {
        Some(text::decimal(s.touched.len()) + " files"@)
    }
}

/// Adds each of `lines` behind `prefix`.
fn push_prefixed(out: &mut Vec<String>, prefix: &str, lines: &Vec<String>)
    ensures
        text::texts(final(out)@) == text::texts(old(out)@) + prefixed(
            prefix@,
            text::texts(lines@),
        ),
{
    let ghost all = prefixed(prefix@, text::texts(lines@));
    let ghost before = text::texts(out@);
    let mut i: usize = 0;
    assert(before + all.take(0) =~= before);
    while i < lines.len()
        invariant
            i <= lines@.len(),
            all == prefixed(prefix@, text::texts(lines@)),
            text::texts(out@) == before + all.take(i as int),
        decreases lines@.len() - i,
    {
        let line = cat2(prefix, lines[i].as_str());
        proof {
            text::lemma_texts_push(out@, line);
            assert(before + all.take(i + 1) =~= (before + all.take(i as int)).push(line@));
        }
        out.push(line);
        i = i + 1;
    }
    assert(all.take(all.len() as int) =~= all);
}

impl PatchReport {
    /// The body of the report.
    pub fn body(&self, short: bool) -> (r: String)
        ensures
            r@ == body(self@, short),
    {
        if self.results.len() == 0 {
            return owned("No changes applied");
        }
        if !short {
            return join_texts(&self.results, "\n");
        }
        let mut lines: Vec<String> = Vec::new();
        assert(text::texts(lines@) =~= Seq::<Seq<char>>::empty());
        if self.added_paths.len() > 0 || self.modified_paths.len() > 0
            || self.deleted_paths.len() > 0 {
            lines.push(owned("Success. Updated the following files:"));
        }
        let ghost head = text::texts(lines@);
        proof {
            if self.added_paths@.len() > 0 || self.modified_paths@.len() > 0
                || self.deleted_paths@.len() > 0 {
                assert(head =~= seq!["Success. Updated the following files:"@]);
            }
        }
        push_prefixed(&mut lines, "A ", &self.added_paths);
        push_prefixed(&mut lines, "M ", &self.modified_paths);
        push_prefixed(&mut lines, "D ", &self.deleted_paths);
        push_prefixed(&mut lines, "error: ", &self.failure_lines);
        assert(text::texts(lines@) =~= short_lines(self@));
        join_texts(&lines, "\n")
    }

    /// The title of the report.
    pub fn title(&self) -> (r: Option<String>)
        ensures
            text::opt_text(r) == title(self@),
    {
        if self.results.len() == 0 {
            None
        } else if self.touched_paths.len() == 1 {
            Some(owned(self.touched_paths[0].as_str()))
        } else {
            Some(cat2(decimal_of_usize(self.touched_paths.len()).as_str(), " files"))
        }
    }
}

// ---------------------------------------------------------------------------
// Freeform calls
// ---------------------------------------------------------------------------

/// The message for a call without a patch.
pub const MISSING_PATCH_TEXT: &'static str = "missing patch text: expected 'input' string";

/// The patch of a freeform call: the raw input, or else the named text.
pub fn freeform_patch_text(input: Option<String>, patch_text: Option<String>) -> (r: Result<
    String,
    String,
>)
    ensures
        match (input, patch_text) {
            (Some(text), _) => r == Ok::<String, String>(text),
            (None, Some(text)) => r == Ok::<String, String>(text),
            (None, None) => r is Err && r->Err_0@ == MISSING_PATCH_TEXT@,
        },
{
    match input {
        Some(text) => Ok(text),
        None => match patch_text {
            Some(text) => Ok(text),
            None => Err(owned(MISSING_PATCH_TEXT)),
        },
    }
}

/// Whether a session's model is told the report in the short style.
pub open spec fn wants_short_style(model: Option<Seq<char>>) -> bool {
    model matches Some(m) && text::contains(text::lowered(m), "gpt"@)
}

/// Whether a session's model is told the report in the short style.
pub fn short_style_for(model: Option<&str>) -> (r: bool)
    ensures
        r == wants_short_style(text::opt_str(model)),
{
    match model {
        Some(model) => has(to_ascii_lower(model).as_str(), "gpt"),
        None => false,
    }
}

// ---------------------------------------------------------------------------
// Laws
// ---------------------------------------------------------------------------

/// Whether an outcome is that of a hunk that was carried out.
pub open spec fn is_success(outcome: OutcomeView) -> bool {
    outcome is Created || outcome is Deleted || outcome is Written || outcome is Moved
}

/// A report grows by one hunk at a time and keeps what it says. A hunk that
/// was carried out is listed under what it did to its path and nowhere else; a
/// hunk that failed is listed among the failures alone. The touched paths grow
/// by those that the hunk changed.
pub proof fn law_reports_grow_by_the_hunk(
    s: ReportView,
    hunk: HunkView,
    outcome: OutcomeView,
    diff: Seq<char>,
)
    ensures
        ({
            let after = reported(s, hunk, outcome, diff);
            let path = hunk::path_of(hunk);
            &&& after.results.len() > 0 && after.results.drop_last() == s.results
            &&& after.added == if outcome is Created {
                s.added.push(path)
            } else {
                s.added
            }
            &&& after.deleted == if outcome is Deleted {
                s.deleted.push(path)
            } else {
                s.deleted
            }
            &&& after.modified == if outcome is Written || outcome is Moved {
                s.modified.push(path)
            } else {
                s.modified
            }
            &&& is_success(outcome) ==> after.failures == s.failures
            &&& !is_success(outcome) ==> after.failures.len() > 0 && after.failures.drop_last()
                == s.failures && after.results.last() == "✗ "@ + after.failures.last()
            &&& after.touched == s.touched + (if is_success(outcome) {
                seq![path]
            } else {
                Seq::empty()
            }) + (if outcome is Moved || outcome is LeftOriginal {
                seq![hunk::dest_of(hunk)]
            } else {
                Seq::empty()
            })
        }),
{
    let after = reported(s, hunk, outcome, diff);
    assert(after.results.drop_last() =~= s.results);
    assert(!is_success(outcome) ==> after.failures.drop_last() =~= s.failures);
    assert(after.touched =~= s.touched + (if is_success(outcome) {
        seq![hunk::path_of(hunk)]
    } else {
        Seq::empty()
    }) + (if outcome is Moved || outcome is LeftOriginal {
        seq![hunk::dest_of(hunk)]
    } else {
        Seq::empty()
    }));
}

/// The result of a hunk begins with whether it went well and with its path. A
/// diff stands on lines of its own behind it; an update says how many chunks
/// it had, a move where it went, and a failed update why.
pub proof fn law_results_tell_the_hunk(
    s: ReportView,
    hunk: HunkView,
    outcome: OutcomeView,
    diff: Seq<char>,
)
    ensures
        ({
            let told = reported(s, hunk, outcome, diff).results.last();
            let path = hunk::path_of(hunk);
            let dest = hunk::dest_of(hunk);
            let count = text::decimal(hunk::chunk_count(hunk));
            &&& text::starts_with(told, (if is_success(outcome) {
                "✓ "@
            } else {
                "✗ "@
            }) + path + ": "@)
            &&& is_success(outcome) && diff.len() > 0 ==> text::ends_with(told, "\n"@ + diff)
            &&& is_success(outcome) ==> told == with_diff(
                reported(s, hunk, outcome, Seq::empty()).results.last(),
                diff,
            )
            &&& outcome is Written ==> text::contains(told, ": modified ("@ + count + " hunks)"@)
            &&& outcome is Moved ==> text::contains(
                told,
                ": modified ("@ + count + " hunks), moved to "@ + dest,
            )
            &&& outcome is LeftOriginal ==> text::ends_with(told, dest)
            &&& outcome matches OutcomeView::UpdateFailed { message } ==> told == "✗ "@ + path
                + ": "@ + message
        }),
{
    let told = reported(s, hunk, outcome, diff).results.last();
    let path = hunk::path_of(hunk);
    let dest = hunk::dest_of(hunk);
    let count = text::decimal(hunk::chunk_count(hunk));
    let mark = if is_success(outcome) {
        "✓ "@
    } else {
        "✗ "@
    };
    reveal_strlit(": ");
    reveal_strlit(": created");
    reveal_strlit(": deleted");
    reveal_strlit(": refused, this path is protected and must never be deleted by an agent");
    reveal_strlit(": failed to delete");
    reveal_strlit(": modified (");
    reveal_strlit(": failed to remove original after writing ");
    let head = mark + path + ": "@;
    let n = head.len() as int;
    let short = reported(s, hunk, outcome, Seq::empty()).results.last();
    assert(short.take(n) =~= head);
    assert(text::starts_with(short, head));
    if is_success(outcome) {
        if diff.len() > 0 {
            assert(told =~= short + ("\n"@ + diff));
            text::law_stripping_undoes_putting(short, "\n"@ + diff);
            assert(told.take(n) =~= short.take(n));
            assert(told =~= with_diff(short, diff));
        } else {
            assert(told =~= short);
        }
    } else {
        assert(told == short);
    }
    let none = Seq::<char>::empty();
    if outcome is Written {
        let what = ": modified ("@ + count + " hunks)"@;
        assert(short =~= (mark + path) + what + none);
        text::law_searching_finds_the_first_place(mark + path, what, none);
        text::law_parts_are_held(none, short, told.skip(short.len() as int), what);
        assert(told =~= none + short + told.skip(short.len() as int));
    }
    if outcome is Moved {
        let what = ": modified ("@ + count + " hunks), moved to "@ + dest;
        assert(short =~= (mark + path) + what + none);
        text::law_searching_finds_the_first_place(mark + path, what, none);
        text::law_parts_are_held(none, short, told.skip(short.len() as int), what);
        assert(told =~= none + short + told.skip(short.len() as int));
    }
    if outcome is LeftOriginal {
        let front = "✗ "@ + (path + ": failed to remove original after writing "@);
        assert(told =~= front + dest);
        text::law_stripping_undoes_putting(front, dest);
    }
    if let OutcomeView::UpdateFailed { message } = outcome {
        assert(told =~= "✗ "@ + path + ": "@ + message);
    }
}

/// The files noted as touched are those that the report says were touched,
/// with the reason without white space round it, where there is one, and with
/// the beginning of the diff.
pub proof fn law_notes_are_of_the_touched_paths(
    s: ReportView,
    hunk: HunkView,
    outcome: OutcomeView,
    diff: Seq<char>,
    intent: Option<Seq<char>>,
    i: int,
)
    ensures
        ({
            let notes = touches(hunk, outcome, diff, intent);
            &&& reported(s, hunk, outcome, diff).touched == s.touched + Seq::new(
                notes.len(),
                |k: int| notes[k].path,
            )
            &&& 0 <= i < notes.len() ==> {
                &&& notes[i].detail == summary::preview(diff)
                &&& notes[i].intent == match intent {
                    Some(why) => if text::trim(why).len() > 0 {
                        Some(text::trim(why))
                    } else {
                        None
                    },
                    None => None,
                }
                &&& notes[i].summary == (if outcome is Created {
                    "created"@
                } else if outcome is Deleted {
                    "deleted"@
                } else {
                    "modified"@
                }) + " via apply_patch"@
            }
        }),
{
    let notes = touches(hunk, outcome, diff, intent);
    assert(reported(s, hunk, outcome, diff).touched =~= s.touched + Seq::new(
        notes.len(),
        |k: int| notes[k].path,
    ));
}

/// The edits of a hunk run from what was there to what is there now. A file
/// that is new, or could not be read as text, counts as empty before, and one
/// that is gone as empty afterwards; only a file that was there and could not
/// be read is marked so. A move that overwrote a file counts it as deleted.
pub proof fn law_edits_run_from_old_to_new(hunk: HunkView, outcome: OutcomeView)
    requires
        fits(hunk, outcome),
    ensures
        !is_success(outcome) && !(outcome is LeftOriginal) ==> edits(hunk, outcome).len() == 0,
        is_success(outcome) || outcome is LeftOriginal ==> edits(hunk, outcome).len() > 0,
        !(outcome is Moved) ==> edits(hunk, outcome).len() <= 1,
        outcome matches OutcomeView::Created { existed, old } ==> {
            let edit = edits(hunk, outcome)[0];
            &&& hunk matches HunkView::Add { contents, .. }
            &&& edit.new == contents
            &&& old matches Some(text) ==> edit.old == text && !edit.unreadable
            &&& old is None ==> edit.old.len() == 0 && edit.unreadable == existed
        },
        outcome matches OutcomeView::Deleted { old } ==> {
            let edit = edits(hunk, outcome)[0];
            &&& edit.new.len() == 0
            &&& old matches Some(text) ==> edit.old == text && !edit.unreadable
            &&& old is None ==> edit.old.len() == 0 && edit.unreadable
        },
        outcome matches OutcomeView::Written { old, new } ==> {
            let edit = edits(hunk, outcome)[0];
            edit.old == old && edit.new == new && !edit.unreadable
        },
        outcome matches OutcomeView::Moved { old, new, dest_existed, dest_old } ==> {
            let all = edits(hunk, outcome);
            &&& all[0].old == old && all[0].new == new && !all[0].unreadable
            &&& all.len() == if dest_existed {
                2int
            } else {
                1int
            }
            &&& dest_existed ==> all[1].new.len() == 0 && (dest_old matches Some(text)
                ==> all[1].old == text && !all[1].unreadable) && (dest_old is None
                ==> all[1].unreadable && all[1].old.len() == 0)
        },
        outcome matches OutcomeView::LeftOriginal { new, dest_existed, dest_old, .. } ==> {
            let edit = edits(hunk, outcome)[0];
            &&& edit.new == new
            &&& dest_old matches Some(text) ==> edit.old == text && !edit.unreadable
            &&& dest_old is None ==> edit.old.len() == 0 && edit.unreadable == dest_existed
        },
{
}

/// What a diff is told of: nothing of a hunk that failed, the whole text of a
/// file that was added or deleted, and both texts of one that was updated.
pub proof fn law_diffs_are_told_of_both_texts(hunk: HunkView, outcome: OutcomeView)
    ensures
        outcome is Refused || outcome is DeleteFailed || outcome is UpdateFailed ==> told_diff(
            hunk,
            outcome,
        ).len() == 0,
        outcome is Created ==> told_texts(hunk, outcome) == (Seq::<char>::empty(), hunk->contents),
        outcome matches OutcomeView::Deleted { old: Some(text) } ==> told_texts(hunk, outcome) == (
            text,
            Seq::<char>::empty(),
        ),
        outcome matches OutcomeView::Written { old, new } ==> told_diff(hunk, outcome)
            == summary::summary(summary::line_changes(old, new)),
        outcome matches OutcomeView::Moved { old, new, .. } ==> told_diff(hunk, outcome)
            == summary::summary(summary::line_changes(old, new)),
        outcome matches OutcomeView::LeftOriginal { old, new, .. } ==> told_diff(hunk, outcome)
            == summary::summary(summary::line_changes(old, new)),
{
}

/// In the short style each changed path stands on a line of its own behind a
/// letter for what happened to it, the added ones first, then the modified,
/// then the deleted, under a heading where there is one; each failure follows.
pub proof fn law_short_style_lists_every_path(s: ReportView)
    ensures
        ({
            let changed = s.added.map_values(|p: Seq<char>| seq!['A', ' '] + p)
                + s.modified.map_values(|p: Seq<char>| seq!['M', ' '] + p) + s.deleted.map_values(
                |p: Seq<char>| seq!['D', ' '] + p,
            );
            let failed = s.failures.map_values(|line: Seq<char>| "error: "@ + line);
            &&& changed.len() == 0 ==> short_lines(s) == failed
            &&& changed.len() > 0 ==> short_lines(s).len() == 1 + changed.len() + failed.len()
                && short_lines(s).drop_first() == changed + failed
        }),
{
    reveal_strlit("A ");
    reveal_strlit("M ");
    reveal_strlit("D ");
    assert("A "@ =~= seq!['A', ' ']);
    assert("M "@ =~= seq!['M', ' ']);
    assert("D "@ =~= seq!['D', ' ']);
    assert(prefixed("A "@, s.added) =~= s.added.map_values(|p: Seq<char>| seq!['A', ' '] + p));
    assert(prefixed("M "@, s.modified) =~= s.modified.map_values(
        |p: Seq<char>| seq!['M', ' '] + p,
    ));
    assert(prefixed("D "@, s.deleted) =~= s.deleted.map_values(|p: Seq<char>| seq!['D', ' '] + p));
    let failed = s.failures.map_values(|line: Seq<char>| "error: "@ + line);
    assert(prefixed("error: "@, s.failures) =~= failed);
    let changed = prefixed("A "@, s.added) + prefixed("M "@, s.modified) + prefixed(
        "D "@,
        s.deleted,
    );
    if changed.len() == 0 {
        assert(short_lines(s) =~= failed);
    } else {
        assert(short_lines(s).drop_first() =~= changed + failed);
    }
}

/// The text of a report holds every line of its style in order, and its title
/// is the one touched path, or how many there are.
pub proof fn law_reports_show_every_line(s: ReportView)
    requires
        s.results.len() > 0,
    ensures
        body(s, false) == text::join(s.results, seq!['\n']),
        body(s, true) == text::join(short_lines(s), seq!['\n']),
        s.touched.len() == 1 ==> title(s) == Some(s.touched[0]),
        s.touched.len() != 1 ==> title(s) == Some(text::decimal(s.touched.len()) + " files"@),
        title(empty_report()) is None,
{
    reveal_strlit("\n");
    assert("\n"@ =~= seq!['\n']);
}

/// The short style is for models with `gpt` in their name, in capitals or
/// small letters, and for no others.
pub proof fn law_short_style_goes_by_the_name(a: Seq<char>, b: Seq<char>, model: Seq<char>)
    ensures
        wants_short_style(Some(a + "gpt"@ + b)),
        wants_short_style(Some(a + "GPT"@ + b)),
        wants_short_style(Some(text::lowered(model))) == wants_short_style(Some(model)),
        wants_short_style(Some(model)) ==> exists|front: Seq<char>, back: Seq<char>|
            text::lowered(model) == #[trigger] (front + "gpt"@ + back),
        !wants_short_style(None),
{
    reveal_strlit("gpt");
    reveal_strlit("GPT");
    assert(text::lowered(a + "gpt"@ + b) =~= text::lowered(a) + "gpt"@ + text::lowered(b));
    assert(text::lowered(a + "GPT"@ + b) =~= text::lowered(a) + "gpt"@ + text::lowered(b));
    text::law_searching_finds_the_first_place(text::lowered(a), "gpt"@, text::lowered(b));
    text::law_lower_case_changes_capitals_only(model);
    if wants_short_style(Some(model)) {
        let low = text::lowered(model);
        let i = choose|i: int| text::occurs_at(low, "gpt"@, i);
        assert(low =~= low.take(i) + "gpt"@ + low.skip(i + 3));
    }
}

} // verus!
