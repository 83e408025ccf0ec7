//! What is told of a change: the compact diff, and its preview.

use crate::sort;
use crate::text;
use crate::text::{
    decimal_of_usize, join_texts, lines_of, longer_than, owned, str_eq, trimmed, trimmed_end,
    trimmed_end_char, truncated,
};
use vstd::prelude::*;

verus! {

/// How many lines of a diff are told.
pub const MAX_SUMMARY_LINES: usize = 30;

pub const FILE_TOUCH_PREVIEW_MAX_LINES: usize = 6;

pub const FILE_TOUCH_PREVIEW_MAX_BYTES: usize = 240;

/// What a diff does with a line.
#[derive(Debug, Clone, Copy, PartialEq, Eq, Structural)]
pub enum ChangeKind {
    Equal,
    Delete,
    Insert,
}

/// One line of a diff, its line feed included.
#[derive(Debug)]
pub struct LineChange {
    pub kind: ChangeKind,
    pub value: String,
}

/// What a [`LineChange`] stands for.
pub struct ChangeView {
    pub kind: ChangeKind,
    pub value: Seq<char>,
}

impl View for LineChange {
    type V = ChangeView;

    open spec fn view(&self) -> ChangeView {
        ChangeView { kind: self.kind, value: self.value@ }
    }
}

/// What a list of [`LineChange`] stands for.
pub open spec fn change_views(changes: Seq<LineChange>) -> Seq<ChangeView> {
    Seq::new(changes.len(), |i: int| changes[i]@)
}

/// The text before a diff: what it keeps and what it deletes.
pub open spec fn old_side(changes: Seq<ChangeView>) -> Seq<char>
    decreases changes.len(),
{
    if changes.len() == 0 {
        Seq::empty()
    } else if changes.last().kind is Insert {
        old_side(changes.drop_last())
    } else {
        old_side(changes.drop_last()) + changes.last().value
    }
}

/// The text after a diff: what it keeps and what it inserts.
pub open spec fn new_side(changes: Seq<ChangeView>) -> Seq<char>
    decreases changes.len(),
{
    if changes.len() == 0 {
        Seq::empty()
    } else if changes.last().kind is Delete {
        new_side(changes.drop_last())
    } else {
        new_side(changes.drop_last()) + changes.last().value
    }
}

/// The line diff that `similar` finds between two texts.
pub uninterp spec fn line_changes(old_text: Seq<char>, new_text: Seq<char>) -> Seq<ChangeView>;

/// Trusted: `similar::TextDiff::from_lines` compares two texts line by line,
/// and `iter_all_changes` walks the whole result in order. The result depends
/// on the two texts alone. What is kept or deleted makes up the old text, and
/// what is kept or inserted the new one. Which of several diffs is found is
/// left unsaid.
#[verifier::external_body]
fn diff_lines(old_text: &str, new_text: &str) -> (r: Vec<LineChange>)
    ensures
        change_views(r@) == line_changes(old_text@, new_text@),
        old_side(change_views(r@)) == old_text@,
        new_side(change_views(r@)) == new_text@,
{
    let diff = similar::TextDiff::from_lines(old_text, new_text);
    let mut changes = Vec::new();
    for change in diff.iter_all_changes() {
        let kind = match change.tag() {
            similar::ChangeTag::Equal => ChangeKind::Equal,
            similar::ChangeTag::Delete => ChangeKind::Delete,
            similar::ChangeTag::Insert => ChangeKind::Insert,
        };
        changes.push(LineChange { kind, value: change.value().to_string() });
    }
    changes
}

/// A line of a diff without its line feed.
pub open spec fn content(change: ChangeView) -> Seq<char> {
    text::trim_end_char(change.value, '\n')
}

/// Whether a line of a diff is told: one that changes and is not blank.
pub open spec fn is_told(change: ChangeView) -> bool {
    !(change.kind is Equal) && text::trim(content(change)).len() > 0
}

/// What is told of the changes from the `k`-th on, `old_seen` and `new_seen`
/// lines into the two texts, when `told` lines are told already.
pub open spec fn told_from(
    changes: Seq<ChangeView>,
    k: int,
    old_seen: nat,
    new_seen: nat,
    told: int,
) -> Seq<char>
    decreases changes.len() - k,
{
    if k >= changes.len() {
        Seq::empty()
    } else if told >= MAX_SUMMARY_LINES {
        "... (diff truncated)\n"@
    } else {
        let change = changes[k];
        let old_next = if change.kind is Insert {
            old_seen
        } else {
            old_seen + 1
        };
        let new_next = if change.kind is Delete {
            new_seen
        } else {
            new_seen + 1
        };
        if !is_told(change) {
            told_from(changes, k + 1, old_next, new_next, told)
        } else if change.kind is Delete {
            text::decimal(old_next) + "- "@ + content(change) + "\n"@ + told_from(
                changes,
                k + 1,
                old_next,
                new_next,
                told + 1,
            )
        } else {
            text::decimal(new_next) + "+ "@ + content(change) + "\n"@ + told_from(
                changes,
                k + 1,
                old_next,
                new_next,
                told + 1,
            )
        }
    }
}

/// What is told of a diff: its changed lines, each with its number in the
/// text it belongs to.
pub open spec fn summary(changes: Seq<ChangeView>) -> Seq<char> {
    text::trim_end(told_from(changes, 0, 0, 0, 0))
}

/// What is told of a diff.
pub fn summarize_changes(changes: &Vec<LineChange>) -> (r: String)
    ensures
        r@ == summary(change_views(changes@)),
{
    let ghost cs = change_views(changes@);
    let mut output = String::new();
    let mut told: usize = 0;
    let mut old_seen: usize = 0;
    let mut new_seen: usize = 0;
    let mut k: usize = 0;
    let ghost whole = told_from(cs, 0, 0, 0, 0);
    assert(output@ + whole =~= whole);
    while k < changes.len()
        invariant
            k <= changes@.len(),
            old_seen <= k,
            new_seen <= k,
            told <= k,
            cs == change_views(changes@),
            whole == told_from(cs, 0, 0, 0, 0),
            output@ + told_from(cs, k as int, old_seen as nat, new_seen as nat, told as int)
                == whole,
        decreases changes@.len() - k,
    {
        let change = &changes[k];
        let ghost before = output@;
        let ghost rest = told_from(cs, k as int, old_seen as nat, new_seen as nat, told as int);
        assert(cs[k as int] == change@);
        if told >= MAX_SUMMARY_LINES {
            output.append("... (diff truncated)\n");
            return owned(trimmed_end(output.as_str()));
        }
        let content = trimmed_end_char(change.value.as_str(), '\n');
        proof {
            reveal_strlit("");
            assert(text::trim(content@).len() == 0 ==> text::trim(content@) =~= ""@);
        }
        let blank = str_eq(trimmed(content), "");
        match change.kind {
            ChangeKind::Equal => {
                old_seen = old_seen + 1;
                new_seen = new_seen + 1;
            },
            ChangeKind::Delete => {
                old_seen = old_seen + 1;
                if !blank {
                    output.append(decimal_of_usize(old_seen).as_str());
                    output.append("- ");
                    output.append(content);
                    output.append("\n");
                    told = told + 1;
                }
            },
            ChangeKind::Insert => {
                new_seen = new_seen + 1;
                if !blank {
                    output.append(decimal_of_usize(new_seen).as_str());
                    output.append("+ ");
                    output.append(content);
                    output.append("\n");
                    told = told + 1;
                }
            },
        }
        k = k + 1;
        proof {
            let next = told_from(cs, k as int, old_seen as nat, new_seen as nat, told as int);
            assert(output@ + next =~= before + rest);
        }
    }
    proof {
        assert(output@ =~= whole);
    }
    owned(trimmed_end(output.as_str()))
}

/// A compact diff of two texts, with line numbers.
pub fn generate_diff_summary(old_text: &str, new_text: &str) -> (r: String)
    ensures
        r@ == summary(line_changes(old_text@, new_text@)),
{
    summarize_changes(&diff_lines(old_text, new_text))
}

proof fn lemma_side_empty(changes: Seq<ChangeView>, k: int)
    requires
        0 <= k < changes.len(),
    ensures
        old_side(changes).len() == 0 && !(changes[k].kind is Insert) ==> changes[k].value.len()
            == 0,
        new_side(changes).len() == 0 && !(changes[k].kind is Delete) ==> changes[k].value.len()
            == 0,
    decreases changes.len(),
{
    if k < changes.len() - 1 {
        lemma_side_empty(changes.drop_last(), k);
        assert(changes.drop_last()[k] == changes[k]);
    }
}

/// Of a file that was empty only added lines are told, and of one that is
/// emptied only removed lines.
pub proof fn law_empty_side_is_not_told(changes: Seq<ChangeView>, k: int)
    requires
        0 <= k < changes.len(),
        is_told(changes[k]),
    ensures
        old_side(changes).len() == 0 ==> changes[k].kind is Insert,
        new_side(changes).len() == 0 ==> changes[k].kind is Delete,
{
    lemma_side_empty(changes, k);
}

// ---------------------------------------------------------------------------
// Preview
// ---------------------------------------------------------------------------

/// The first lines of a trimmed diff.
pub open spec fn preview_lines(diff: Seq<char>) -> Seq<char> {
    let lines = text::lines(text::trim(diff));
    if lines.len() > FILE_TOUCH_PREVIEW_MAX_LINES {
        text::join(lines.take(FILE_TOUCH_PREVIEW_MAX_LINES as int), "\n"@)
    } else {
        text::join(lines, "\n"@)
    }
}

/// The preview of a diff: its first lines, cut to a number of bytes, and an
/// ellipsis where anything was left out. A blank diff has none.
pub open spec fn preview(diff: Seq<char>) -> Option<Seq<char>> {
    let first = preview_lines(diff);
    if text::trim(diff).len() == 0 {
        None
    } else if text::byte_len(first) > FILE_TOUCH_PREVIEW_MAX_BYTES {
        Some(
            text::trim_end(text::truncate(first, FILE_TOUCH_PREVIEW_MAX_BYTES as int)) + "\n…"@,
        )
    } else if text::lines(text::trim(diff)).len() > FILE_TOUCH_PREVIEW_MAX_LINES {
        Some(first + "\n…"@)
    } else {
        Some(first)
    }
}

/// The preview of a diff.
pub fn build_file_touch_preview(diff: &str) -> (r: Option<String>)
    ensures
        text::opt_text(r) == preview(diff@),
{
    let body = trimmed(diff);
    proof {
        reveal_strlit("");
        assert(body@.len() == 0 ==> body@ =~= ""@);
    }
    if str_eq(body, "") {
        return None;
    }
    let mut lines = lines_of(body);
    let ghost all = text::texts(lines@);
    let mut shortened = lines.len() > FILE_TOUCH_PREVIEW_MAX_LINES;
    if shortened {
        lines.truncate(FILE_TOUCH_PREVIEW_MAX_LINES);
        assert(text::texts(lines@) =~= all.take(FILE_TOUCH_PREVIEW_MAX_LINES as int));
    }
    let mut first = join_texts(&lines, "\n");
    if longer_than(first.as_str(), FILE_TOUCH_PREVIEW_MAX_BYTES) {
        first = owned(trimmed_end(truncated(first.as_str(), FILE_TOUCH_PREVIEW_MAX_BYTES)));
        shortened = true;
    }
    if shortened {
        first.append("\n…");
    }
    Some(first)
}

/// A preview stays within its bytes, the ellipsis on a line of its own not
/// counted.
pub proof fn law_preview_is_bounded(diff: Seq<char>)
    ensures
        preview(diff) matches Some(p) ==> text::byte_len(p) <= FILE_TOUCH_PREVIEW_MAX_BYTES
            + text::byte_len("\n…"@),
{
    let first = preview_lines(diff);
    let cut = text::truncate(first, FILE_TOUCH_PREVIEW_MAX_BYTES as int);
    text::lemma_fitting(first, FILE_TOUCH_PREVIEW_MAX_BYTES as int);
    text::lemma_trim_end_byte_len(cut);
    text::lemma_byte_len_concat(text::trim_end(cut), "\n…"@);
    text::lemma_byte_len_concat(first, "\n…"@);
}

/// Whether a change is one of a line of the old text.
pub open spec fn is_of_old() -> spec_fn(ChangeView) -> bool {
    |c: ChangeView| !(c.kind is Insert)
}

/// Whether a change is one of a line of the new text.
pub open spec fn is_of_new() -> spec_fn(ChangeView) -> bool {
    |c: ChangeView| !(c.kind is Delete)
}

/// Whether a change is told: a line that came or went and is not blank.
pub open spec fn is_worth_telling() -> spec_fn(ChangeView) -> bool {
    |c: ChangeView|
        !(c.kind is Equal) && text::trim(text::trim_end_char(c.value, '\n')).len() > 0
}

/// The line for a change: the number of the line in the text it is of, a sign
/// for whether it went or came, and the line.
pub open spec fn told_line(before: Seq<ChangeView>, c: ChangeView) -> Seq<char> {
    (if c.kind is Delete {
        text::decimal(before.filter(is_of_old()).len() + 1) + seq!['-', ' ']
    } else {
        text::decimal(before.filter(is_of_new()).len() + 1) + seq!['+', ' ']
    }) + text::trim_end_char(c.value, '\n') + seq!['\n']
}

proof fn lemma_told_push(
    changes: Seq<ChangeView>,
    c: ChangeView,
    k: int,
    old_seen: nat,
    new_seen: nat,
    told: int,
)
    requires
        0 <= k <= changes.len(),
        old_seen == changes.take(k).filter(is_of_old()).len(),
        new_seen == changes.take(k).filter(is_of_new()).len(),
        told == changes.take(k).filter(is_worth_telling()).len(),
        changes.filter(is_worth_telling()).len() < MAX_SUMMARY_LINES,
    ensures
        told_from(changes.push(c), k, old_seen, new_seen, told) == told_from(
            changes,
            k,
            old_seen,
            new_seen,
            told,
        ) + (if is_worth_telling()(c) {
            told_line(changes, c)
        } else {
            Seq::empty()
        }),
        told <= changes.filter(is_worth_telling()).len(),
    decreases changes.len() - k,
{
    reveal_strlit("- ");
    reveal_strlit("+ ");
    reveal_strlit("\n");
    assert("- "@ =~= seq!['-', ' ']);
    assert("+ "@ =~= seq!['+', ' ']);
    assert("\n"@ =~= seq!['\n']);
    let all = changes.push(c);
    if k < changes.len() {
        let change = changes[k];
        assert(all[k] == change);
        assert(changes.take(k + 1) =~= changes.take(k).push(change));
        sort::lemma_filter_last(changes.take(k), change, is_of_old());
        sort::lemma_filter_last(changes.take(k), change, is_of_new());
        sort::lemma_filter_last(changes.take(k), change, is_worth_telling());
        let old_next = changes.take(k + 1).filter(is_of_old()).len();
        let new_next = changes.take(k + 1).filter(is_of_new()).len();
        let told_next = changes.take(k + 1).filter(is_worth_telling()).len() as int;
        lemma_told_push(changes, c, k + 1, old_next, new_next, told_next);
        assert(is_told(change) == is_worth_telling()(change));
        assert(told_from(all, k, old_seen, new_seen, told) =~= told_from(
            changes,
            k,
            old_seen,
            new_seen,
            told,
        ) + (if is_worth_telling()(c) {
            told_line(changes, c)
        } else {
            Seq::empty()
        }));
    } else {
        assert(changes.take(k) =~= changes);
        assert(all[k] == c);
        assert(is_told(c) == is_worth_telling()(c));
        let old_next = if c.kind is Insert {
            old_seen
        } else {
            old_seen + 1
        };
        let new_next = if c.kind is Delete {
            new_seen
        } else {
            new_seen + 1
        };
        assert(told_from(all, k + 1, old_next, new_next, told) =~= Seq::empty());
        assert(told_from(all, k + 1, old_next, new_next, told + 1) =~= Seq::empty());
        assert(told_from(changes, k, old_seen, new_seen, told) =~= Seq::empty());
        assert(told_from(all, k, old_seen, new_seen, told) =~= if is_worth_telling()(c) {
            told_line(changes, c)
        } else {
            Seq::empty()
        });
    }
}

/// A summary tells each change on a line of its own, in order: one change more
/// adds its line where it is worth telling, under its number in the text it is
/// of, as long as fewer than thirty lines were told.
pub proof fn law_every_change_is_told_under_its_number(changes: Seq<ChangeView>, c: ChangeView)
    requires
        changes.filter(is_worth_telling()).len() < 30,
    ensures
        told_from(changes.push(c), 0, 0, 0, 0) == told_from(changes, 0, 0, 0, 0) + (
        if is_worth_telling()(c) {
            told_line(changes, c)
        } else {
            Seq::empty()
        }),
        told_from(Seq::empty(), 0, 0, 0, 0).len() == 0,
{
    assert(changes.take(0) =~= Seq::empty());
    sort::lemma_filter_empty(is_of_old());
    sort::lemma_filter_empty(is_of_new());
    sort::lemma_filter_empty(is_worth_telling());
    lemma_told_push(changes, c, 0, 0, 0, 0);
}

proof fn lemma_told_cut(
    changes: Seq<ChangeView>,
    more: Seq<ChangeView>,
    k: int,
    old_seen: nat,
    new_seen: nat,
    told: int,
)
    requires
        0 <= k <= changes.len(),
        told == changes.take(k).filter(is_worth_telling()).len(),
        changes.filter(is_worth_telling()).len() == MAX_SUMMARY_LINES,
        changes.len() > 0 && is_worth_telling()(changes.last()),
        more.len() > 0,
    ensures
        told_from(changes + more, k, old_seen, new_seen, told) == told_from(
            changes,
            k,
            old_seen,
            new_seen,
            told,
        ) + "... (diff truncated)\n"@,
        told <= MAX_SUMMARY_LINES,
        k < changes.len() ==> told < MAX_SUMMARY_LINES,
    decreases changes.len() - k,
{
    let all = changes + more;
    if k < changes.len() {
        let change = changes[k];
        assert(all[k] == change);
        assert(changes.take(k + 1) =~= changes.take(k).push(change));
        sort::lemma_filter_last(changes.take(k), change, is_worth_telling());
        assert(is_told(change) == is_worth_telling()(change));
        let old_next = if change.kind is Insert {
            old_seen
        } else {
            old_seen + 1
        };
        let new_next = if change.kind is Delete {
            new_seen
        } else {
            new_seen + 1
        };
        let told_next = changes.take(k + 1).filter(is_worth_telling()).len() as int;
        lemma_told_cut(changes, more, k + 1, old_next, new_next, told_next);
        if k + 1 == changes.len() {
            assert(changes.take(k + 1) =~= changes);
        }
        assert(told_from(all, k, old_seen, new_seen, told) =~= told_from(
            changes,
            k,
            old_seen,
            new_seen,
            told,
        ) + "... (diff truncated)\n"@);
    } else {
        assert(changes.take(k) =~= changes);
        assert(told_from(changes, k, old_seen, new_seen, told) =~= Seq::empty());
        assert(told_from(all, k, old_seen, new_seen, told) =~= Seq::<char>::empty()
            + "... (diff truncated)\n"@);
    }
}

/// Behind the thirtieth line that is told, whatever changes follow are one
/// line that says that the rest is cut.
pub proof fn law_summaries_are_cut_behind_thirty_lines(
    changes: Seq<ChangeView>,
    more: Seq<ChangeView>,
)
    requires
        changes.filter(is_worth_telling()).len() == 30,
        changes.len() > 0 && is_worth_telling()(changes.last()),
        more.len() > 0,
    ensures
        told_from(changes + more, 0, 0, 0, 0) == told_from(changes, 0, 0, 0, 0)
            + "... (diff truncated)\n"@,
{
    assert(changes.take(0) =~= Seq::empty());
    sort::lemma_filter_empty(is_worth_telling());
    lemma_told_cut(changes, more, 0, 0, 0, 0);
}

/// A preview shows a diff from its beginning: its first six lines, cut to two
/// hundred and forty bytes, with a mark behind them where something was left
/// out and none where nothing was. A blank diff has none.
pub proof fn law_previews_show_the_beginning(diff: Seq<char>)
    ensures
        preview(diff) is None <==> text::trim(diff).len() == 0,
        ({
            let lines = text::lines(text::trim(diff));
            let shown = if lines.len() <= 6 {
                lines
            } else {
                lines.take(6)
            };
            let whole = text::join(shown, seq!['\n']);
            &&& text::trim(diff).len() > 0 && lines.len() <= 6 && text::byte_len(whole) <= 240
                ==> preview(diff) == Some(whole)
            &&& text::trim(diff).len() > 0 && lines.len() > 6 && text::byte_len(whole) <= 240
                ==> preview(diff) == Some(whole + seq!['\n', '…'])
            &&& text::trim(diff).len() > 0 && text::byte_len(whole) > 240 ==> (preview(
                diff,
            ) matches Some(p) && p == text::trim_end(text::truncate(whole, 240)) + seq!['\n', '…'])
        }),
{
    reveal_strlit("\n");
    reveal_strlit("\n…");
    assert("\n"@ =~= seq!['\n']);
    assert("\n…"@ =~= seq!['\n', '…']);
}

/// A summary is what is told of the changes, without the line feed and other
/// white space at its end.
pub proof fn law_summaries_are_what_is_told(changes: Seq<ChangeView>)
    ensures
        exists|i: int|
            0 <= i <= told_from(changes, 0, 0, 0, 0).len() && summary(changes) == told_from(
                changes,
                0,
                0,
                0,
                0,
            ).take(i) && text::is_space(#[trigger] told_from(changes, 0, 0, 0, 0).skip(i)),
        summary(changes).len() > 0 ==> !text::is_white_space(summary(changes).last()),
{
    text::law_trimming_takes_space_and_nothing_else(told_from(changes, 0, 0, 0, 0));
}

} // verus!
