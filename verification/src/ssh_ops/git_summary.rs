//! How the repository of a directory stands, out of what git says.

use crate::ssh_ops;
use crate::ssh_ops::SshDirGitSummary;
use crate::sort;
use crate::text;
use crate::text::{lines_of, longer_than, lossy_text, owned, parse_u64, split_on, str_eq, trimmed};
use vstd::prelude::*;

verus! {

/// What a command left: whether it succeeded, and what it printed.
#[derive(Debug)]
pub struct CommandReply {
    pub success: bool,
    pub stdout: Vec<u8>,
}

/// What git left for each question; nothing where it could not be run.
#[derive(Debug)]
pub struct GitReplies {
    /// Whether the directory is in a work tree.
    pub work_tree: Option<CommandReply>,
    /// The branch that is checked out.
    pub branch: Option<CommandReply>,
    /// The files that differ.
    pub status: Option<CommandReply>,
    /// The commits that only one side has.
    pub counts: Option<CommandReply>,
}

/// The questions that are put to git, in order.
pub fn git_questions() -> (r: [&'static str; 4])
    ensures
        r@ == seq![
            "rev-parse --is-inside-work-tree",
            "branch --show-current",
            "status --porcelain",
            "rev-list --left-right --count HEAD...@{upstream}",
        ],
{
    let r: [&'static str; 4] = [
        "rev-parse --is-inside-work-tree",
        "branch --show-current",
        "status --porcelain",
        "rev-list --left-right --count HEAD...@{upstream}",
    ];
    assert(r@ =~= seq![
        "rev-parse --is-inside-work-tree",
        "branch --show-current",
        "status --porcelain",
        "rev-list --left-right --count HEAD...@{upstream}",
    ]);
    r
}

/// Whether git says that a directory is in a work tree. In the directory of a
/// repository that is none, git succeeds and says `false`.
pub open spec fn is_inside(reply: Option<CommandReply>) -> bool {
    reply matches Some(r) && r.success && text::trim(text::lossy(r.stdout@)) == "true"@
}

/// The branch: `HEAD` where none is checked out, nothing where git could not
/// be run.
pub open spec fn branch_in(reply: Option<CommandReply>) -> Option<Seq<char>> {
    match reply {
        None => None,
        Some(r) => {
            let name = text::trim(text::lossy(r.stdout@));
            Some(
                if r.success && name.len() > 0 {
                    name
                } else {
                    "HEAD"@
                },
            )
        },
    }
}

/// How many of the first `k` lines tell of a file.
pub open spec fn rows_among(lines: Seq<Seq<char>>, k: int) -> int
    decreases k,
{
    if k <= 0 {
        0
    } else {
        rows_among(lines, k - 1) + if text::byte_len(lines[k - 1]) >= 3 {
            1int
        } else {
            0int
        }
    }
}

/// How many files differ.
pub open spec fn dirty_in(reply: Option<CommandReply>) -> int {
    match reply {
        Some(r) => if r.success {
            let lines = text::lines(text::lossy(r.stdout@));
            rows_among(lines, lines.len() as int)
        } else {
            0
        },
        None => 0,
    }
}

/// The number in the `k`-th part of a line, or zero.
pub open spec fn count_at(parts: Seq<Seq<char>>, k: int) -> nat {
    if 0 <= k < parts.len() {
        match text::parse_number(parts[k], usize::MAX as nat) {
            Some(n) => n,
            None => 0,
        }
    } else {
        0
    }
}

/// The commits by which a branch is ahead and behind.
pub open spec fn counts_in(reply: Option<CommandReply>) -> (nat, nat) {
    match reply {
        Some(r) => if r.success {
            let parts = text::split(text::trim(text::lossy(r.stdout@)), '\t');
            (count_at(parts, 0), count_at(parts, 1))
        } else {
            (0, 0)
        },
        None => (0, 0),
    }
}

/// Whether a summary says what git said; there is none outside a work tree.
pub open spec fn summary_in(git: GitReplies) -> Option<ssh_ops::SummaryView> {
    if is_inside(git.work_tree) {
        Some(
            ssh_ops::SummaryView {
                is_repo: true,
                branch: branch_in(git.branch),
                dirty: dirty_in(git.status) as usize,
                ahead: counts_in(git.counts).0 as usize,
                behind: counts_in(git.counts).1 as usize,
            },
        )
    } else {
        None
    }
}

fn branch_of(reply: &Option<CommandReply>) -> (r: Option<String>)
    ensures
        text::opt_text(r) == branch_in(*reply),
{
    match reply {
        None => None,
        Some(reply) => {
            if !reply.success {
                return Some(owned("HEAD"));
            }
            let printed = lossy_text(reply.stdout.as_slice());
            let name = trimmed(printed.as_str());
            if name.unicode_len() > 0 {
                Some(owned(name))
            } else {
                Some(owned("HEAD"))
            }
        },
    }
}

fn dirty_of(reply: &Option<CommandReply>) -> (r: usize)
    ensures
        r == dirty_in(*reply),
{
    match reply {
        None => 0,
        Some(reply) => {
            if !reply.success {
                return 0;
            }
            let printed = lossy_text(reply.stdout.as_slice());
            let lines = lines_of(printed.as_str());
            let ghost all = text::texts(lines@);
            let mut n: usize = 0;
            let mut k: usize = 0;
            while k < lines.len()
                invariant
                    k <= lines@.len(),
                    n <= k,
                    all == text::texts(lines@),
                    n == rows_among(all, k as int),
                decreases lines@.len() - k,
            {
                assert(all[k as int] == lines@[k as int]@);
                if longer_than(lines[k].as_str(), 2) {
                    n = n + 1;
                }
                k = k + 1;
            }
            n
        },
    }
}

fn count_of(parts: &Vec<String>, k: usize) -> (r: usize)
    ensures
        r == count_at(text::texts(parts@), k as int),
{
    if k < parts.len() {
        match parse_u64(parts[k].as_str(), usize::MAX as u64) {
            Some(n) => n as usize,
            None => 0,
        }
    } else {
        0
    }
}

fn counts_of(reply: &Option<CommandReply>) -> (r: (usize, usize))
    ensures
        (r.0 as nat, r.1 as nat) == counts_in(*reply),
{
    match reply {
        None => (0, 0),
        Some(reply) => {
            if !reply.success {
                return (0, 0);
            }
            let printed = lossy_text(reply.stdout.as_slice());
            let parts = split_on(trimmed(printed.as_str()), '\t');
            (count_of(&parts, 0), count_of(&parts, 1))
        },
    }
}

/// How the repository of a directory stands; nothing outside a work tree.
pub fn remote_dir_git_summary(git: &GitReplies) -> (r: Option<SshDirGitSummary>)
    ensures
        ssh_ops::opt_summary(r) == summary_in(*git),
{
    let inside = match &git.work_tree {
        Some(reply) => {
            let printed = lossy_text(reply.stdout.as_slice());
            reply.success && str_eq(trimmed(printed.as_str()), "true")
        },
        None => false,
    };
    if !inside {
        return None;
    }
    let (ahead, behind) = counts_of(&git.counts);
    Some(
        SshDirGitSummary {
            is_repo: true,
            branch: branch_of(&git.branch),
            dirty: dirty_of(&git.status),
            ahead,
            behind,
        },
    )
}

// ---------------------------------------------------------------------------
// Laws
// ---------------------------------------------------------------------------

/// A directory has a summary exactly where git says that it is inside a work
/// tree; a command that failed says nothing.
pub proof fn law_only_work_trees_have_a_summary(git: GitReplies)
    ensures
        summary_in(git) is Some <==> (git.work_tree matches Some(r) && r.success && text::trim(
            text::lossy(r.stdout@),
        ) == seq!['t', 'r', 'u', 'e']),
        summary_in(git) matches Some(s) ==> s.is_repo && s.branch == branch_in(git.branch)
            && s.dirty == dirty_in(git.status) as usize && s.ahead == counts_in(git.counts).0 as usize
            && s.behind == counts_in(git.counts).1 as usize,
{
    reveal_strlit("true");
    assert("true"@ =~= seq!['t', 'r', 'u', 'e']);
}

/// The branch is what git printed, without white space round it; a command
/// that failed or printed nothing leaves the head, and one that could not be
/// run nothing.
pub proof fn law_branches_are_as_printed(reply: CommandReply)
    ensures
        branch_in(None) is None,
        branch_in(Some(reply)) is Some,
        reply.success && text::trim(text::lossy(reply.stdout@)).len() > 0 ==> branch_in(Some(reply))
            == Some(text::trim(text::lossy(reply.stdout@))),
        !reply.success || text::trim(text::lossy(reply.stdout@)).len() == 0 ==> branch_in(
            Some(reply),
        ) == Some("HEAD"@),
{
}

proof fn lemma_rows(lines: Seq<Seq<char>>, k: int)
    requires
        0 <= k <= lines.len(),
    ensures
        rows_among(lines, k) == lines.take(k).filter(
            |line: Seq<char>| text::byte_len(line) >= 3,
        ).len(),
    decreases k,
{
    let p = |line: Seq<char>| text::byte_len(line) >= 3;
    if k > 0 {
        lemma_rows(lines, k - 1);
        assert(lines.take(k) =~= lines.take(k - 1).push(lines[k - 1]));
        sort::lemma_filter_last(lines.take(k - 1), lines[k - 1], p);
    } else {
        assert(lines.take(0) =~= Seq::empty());
        sort::lemma_filter_empty(p);
    }
}

/// Every line of the status with room for its two letters and a name counts
/// as one changed file; a status that failed counts none.
pub proof fn law_changed_files_are_counted_by_line(reply: CommandReply)
    ensures
        reply.success ==> dirty_in(Some(reply)) == text::lines(text::lossy(reply.stdout@)).filter(
            |line: Seq<char>| text::byte_len(line) >= 3,
        ).len(),
        !reply.success ==> dirty_in(Some(reply)) == 0,
        dirty_in(None) == 0,
{
    let lines = text::lines(text::lossy(reply.stdout@));
    lemma_rows(lines, lines.len() as int);
    assert(lines.take(lines.len() as int) =~= lines);
}

/// The commits ahead and behind are the two numbers that git printed with a
/// tab between them, in that order; anything else counts as none.
pub proof fn law_commits_ahead_and_behind_are_read(
    reply: CommandReply,
    ahead: nat,
    behind: nat,
)
    requires
        ahead <= usize::MAX,
        behind <= usize::MAX,
    ensures
        reply.success && text::trim(text::lossy(reply.stdout@)) == text::decimal(ahead) + seq!['\t']
            + text::decimal(behind) ==> counts_in(Some(reply)) == (ahead, behind),
        reply.success && text::trim(text::lossy(reply.stdout@)) == text::decimal(ahead)
            ==> counts_in(Some(reply)) == (ahead, 0nat),
        !reply.success ==> counts_in(Some(reply)) == (0nat, 0nat),
        counts_in(None) == (0nat, 0nat),
{
    text::law_decimal_is_read_back(ahead, usize::MAX as nat);
    text::law_decimal_is_read_back(behind, usize::MAX as nat);
    let a = text::decimal(ahead);
    let b = text::decimal(behind);
    lemma_no_tab(ahead);
    lemma_no_tab(behind);
    let parts = seq![a, b];
    assert(parts.drop_last() =~= seq![a]);
    assert(text::join(seq![a], seq!['\t']) == a);
    assert(text::join(parts, seq!['\t']) =~= a + seq!['\t'] + b);
    text::law_split_undoes_join(parts, '\t');
    text::law_split_undoes_join(seq![a], '\t');
}

proof fn lemma_no_tab(n: nat)
    ensures
        !text::decimal(n).contains('\t'),
{
    text::law_decimal_is_read_back(n, n);
    let s = text::decimal(n);
    text::law_numbers_are_read_from_digits(s, n);
    assert forall|i: int| 0 <= i < s.len() implies s[i] != '\t' by {
        if i > 0 {
            assert(text::is_digit(s[i]));
        }
    }
}

} // verus!
