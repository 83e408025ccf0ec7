//! The `git_commit` and `git_checkpoint` tools: the rules of a commit, the
//! message it gets, and the gates before it.

pub mod checkpoint_run;
pub mod commit_run;

use crate::sort;
use crate::text;
use crate::text::{
    cat2, cat3, cat4, cat5, clone_texts, decimal_of, decimal_of_usize, is_one_of, join_texts,
    lines_of, list_contains, owned, split_on, str_eq, stripped_prefix, trimmed,
    trimmed_end,
};
use vstd::prelude::*;

verus! {

/// Stands for the model in a sign-off field.
pub const MODEL_PLACEHOLDER: &'static str = "${model}";

/// Stands for the user in a sign-off field.
pub const USER_PLACEHOLDER: &'static str = "${user}";

/// The most characters of a description.
pub const MAX_DESCRIPTION: usize = 72;

/// Creates commits from structured fields.
#[derive(Debug)]
pub struct GitCommitTool;

impl GitCommitTool {
    pub fn new() -> (r: Self)
        ensures
            r == GitCommitTool,
    {
        GitCommitTool
    }

    pub fn name(&self) -> (r: &'static str)
        ensures
            r@ == "git_commit"@,
    {
        "git_commit"
    }
}

/// Snapshots the working tree without clearing it.
#[derive(Debug)]
pub struct GitCheckpointTool;

impl GitCheckpointTool {
    pub fn new() -> (r: Self)
        ensures
            r == GitCheckpointTool,
    {
        GitCheckpointTool
    }

    pub fn name(&self) -> (r: &'static str)
        ensures
            r@ == "git_checkpoint"@,
    {
        "git_checkpoint"
    }
}

// ---------------------------------------------------------------------------
// Rules of the fields
// ---------------------------------------------------------------------------

/// Whether a text is a commit type.
pub open spec fn is_commit_type(t: Seq<char>) -> bool {
    t == "feat"@ || t == "fix"@ || t == "refactor"@ || t == "test"@ || t == "docs"@ || t
        == "chore"@ || t == "perf"@ || t == "build"@ || t == "ci"@ || t == "style"@ || t
        == "revert"@
}

/// The commit types, as they are listed.
pub const COMMIT_TYPE_LIST: &'static str =
    "feat, fix, refactor, test, docs, chore, perf, build, ci, style, revert";

/// What is wrong with a commit type.
pub fn commit_type_error(commit_type: &str) -> (r: Option<String>)
    ensures
        text::opt_text(r) == (if is_commit_type(commit_type@) {
            None::<Seq<char>>
        } else {
            Some(
                "type must be one of: "@ + COMMIT_TYPE_LIST@ + " (got \""@ + commit_type@ + "\")"@,
            )
        }),
{
    let known: [&'static str; 11] = [
        "feat",
        "fix",
        "refactor",
        "test",
        "docs",
        "chore",
        "perf",
        "build",
        "ci",
        "style",
        "revert",
    ];
    if is_one_of(commit_type, &known) {
        None
    } else {
        Some(
            cat5("type must be one of: ", COMMIT_TYPE_LIST, " (got \"", commit_type, "\")"),
        )
    }
}

/// Whether a character may stand in a scope.
pub open spec fn is_scope_char(c: char) -> bool {
    ('a' <= c && c <= 'z') || text::is_digit(c) || c == '.' || c == '_' || c == '/' || c == '-'
}

/// Whether a text is a scope.
pub open spec fn is_scope(s: Seq<char>) -> bool {
    s.len() > 0 && forall|i: int| 0 <= i < s.len() ==> is_scope_char(#[trigger] s[i])
}

/// Whether a text is a scope.
fn scope_is_valid(scope: &str) -> (r: bool)
    ensures
        r == is_scope(scope@),
{
    let chars = text::chars_of(scope);
    let mut k: usize = 0;
    while k < chars.len()
        invariant
            k <= chars@.len(),
            chars@ == scope@,
            forall|i: int| 0 <= i < k ==> is_scope_char(#[trigger] scope@[i]),
        decreases chars@.len() - k,
    {
        let c: char = chars[k];
        let ok = ('a' <= c && c <= 'z') || text::digit(c) || c == '.' || c == '_' || c == '/' || c
            == '-';
        if !ok {
            assert(!is_scope_char(scope@[k as int]));
            return false;
        }
        k = k + 1;
    }
    chars.len() > 0
}

/// What is wrong with a scope; having none is right.
pub fn scope_error(scope: Option<&str>) -> (r: Option<String>)
    ensures
        text::opt_text(r) == (match scope {
            None => None::<Seq<char>>,
            Some(s) => if is_scope(s@) {
                None::<Seq<char>>
            } else {
                Some(
                    "scope must match ^[a-z0-9._/-]+$ without parentheses (got \""@ + s@ + "\")"@,
                )
            },
        }),
{
    match scope {
        None => None,
        Some(scope) => if scope_is_valid(scope) {
            None
        } else {
            Some(
                cat3(
                    "scope must match ^[a-z0-9._/-]+$ without parentheses (got \"",
                    scope,
                    "\")",
                ),
            )
        },
    }
}

/// Whether a character ends a sentence.
pub open spec fn is_terminal(c: char) -> bool {
    c == '.' || c == '!' || c == '?' || c == '。' || c == '！' || c == '？'
}

/// What is wrong with a description.
pub open spec fn description_fault(d: Seq<char>) -> Option<Seq<char>> {
    if d.len() == 0 {
        Some("description must be a non-empty string"@)
    } else if d != text::trim(d) {
        Some("description must not have leading/trailing whitespace"@)
    } else if is_terminal(d.last()) {
        Some("description must not end with terminal punctuation"@)
    } else if 'A' <= d[0] && d[0] <= 'Z' {
        Some("description must start lowercase (imperative mood)"@)
    } else if d.len() > MAX_DESCRIPTION {
        Some("description must be at most 72 characters"@)
    } else {
        None
    }
}

/// What is wrong with a description.
pub fn description_error(description: &str) -> (r: Option<String>)
    ensures
        text::opt_text(r) == description_fault(description@),
{
    let chars = text::chars_of(description);
    if chars.len() == 0 {
        return Some(owned("description must be a non-empty string"));
    }
    if !str_eq(description, trimmed(description)) {
        return Some(owned("description must not have leading/trailing whitespace"));
    }
    let last: char = chars[chars.len() - 1];
    if last == '.' || last == '!' || last == '?' || last == '。' || last == '！' || last == '？' {
        return Some(owned("description must not end with terminal punctuation"));
    }
    let first: char = chars[0];
    if 'A' <= first && first <= 'Z' {
        return Some(owned("description must start lowercase (imperative mood)"));
    }
    if chars.len() > MAX_DESCRIPTION {
        return Some(owned("description must be at most 72 characters"));
    }
    None
}

/// What a commit is asked for with.
#[derive(Debug)]
pub struct GitCommitInput {
    /// The paths to stage; not together with a checkpoint.
    pub paths: Option<Vec<String>>,
    /// The checkpoint to make a commit of.
    pub checkpoint: Option<String>,
    pub commit_type: String,
    pub scope: Option<String>,
    pub description: String,
    pub body: Vec<String>,
    pub closes: Vec<u64>,
    pub refs: Vec<u64>,
    pub repo_path: Option<String>,
    pub allow_default_branch: bool,
    pub include_pre_staged: bool,
    /// Whether to sign off; by default yes.
    pub signoff: Option<bool>,
}

/// What is wrong with the fields of a commit.
pub open spec fn input_fault(input: GitCommitInput) -> Option<Seq<char>> {
    if input.checkpoint is Some && input.paths is Some {
        Some("pass either `paths` or `checkpoint`, not both"@)
    } else if !is_commit_type(input.commit_type@) {
        Some(
            "type must be one of: "@ + COMMIT_TYPE_LIST@ + " (got \""@ + input.commit_type@
                + "\")"@,
        )
    } else if input.scope is Some && !is_scope(input.scope->0@) {
        Some(
            "scope must match ^[a-z0-9._/-]+$ without parentheses (got \""@ + input.scope->0@
                + "\")"@,
        )
    } else {
        description_fault(input.description@)
    }
}

/// Checks the fields of a commit.
pub fn check_commit_input(input: &GitCommitInput) -> (r: Result<(), String>)
    ensures
        match input_fault(*input) {
            None => r is Ok,
            Some(fault) => r is Err && r->Err_0@ == "git_commit: "@ + fault,
        },
{
    if input.checkpoint.is_some() && input.paths.is_some() {
        return Err(
            cat2("git_commit: ", "pass either `paths` or `checkpoint`, not both"),
        );
    }
    if let Some(error) = commit_type_error(input.commit_type.as_str()) {
        return Err(cat2("git_commit: ", error.as_str()));
    }
    if let Some(error) = scope_error(text::borrowed_opt(&input.scope)) {
        return Err(cat2("git_commit: ", error.as_str()));
    }
    if let Some(error) = description_error(input.description.as_str()) {
        return Err(cat2("git_commit: ", error.as_str()));
    }
    Ok(())
}

// ---------------------------------------------------------------------------
// The message
// ---------------------------------------------------------------------------

/// The first line of a message.
pub open spec fn head_line(t: Seq<char>, scope: Option<Seq<char>>, d: Seq<char>) -> Seq<char> {
    if scope is Some && scope->0.len() > 0 {
        t + "("@ + scope->0 + "): "@ + d
    } else {
        t + ": "@ + d
    }
}

/// A bullet for each line from the `k`-th on that is not blank.
pub open spec fn bullets(body: Seq<Seq<char>>, k: int) -> Seq<Seq<char>>
    decreases body.len() - k,
{
    if k >= body.len() {
        Seq::empty()
    } else if text::trim(body[k]).len() == 0 {
        bullets(body, k + 1)
    } else {
        seq!["- "@ + body[k]] + bullets(body, k + 1)
    }
}

/// A footer for each issue from the `k`-th on that is a real number.
pub open spec fn footers(label: Seq<char>, issues: Seq<u64>, k: int) -> Seq<Seq<char>>
    decreases issues.len() - k,
{
    if k >= issues.len() {
        Seq::empty()
    } else if issues[k] == 0 {
        footers(label, issues, k + 1)
    } else {
        seq![label + text::decimal(issues[k] as nat)] + footers(label, issues, k + 1)
    }
}

/// A block of lines behind a blank line; no lines are no block.
pub open spec fn block(lines: Seq<Seq<char>>) -> Seq<Seq<char>> {
    if lines.len() == 0 {
        Seq::empty()
    } else {
        seq![Seq::<char>::empty()] + lines
    }
}

/// The lines of a message: the first line, then a block each for the body,
/// the issues and the trailer.
pub open spec fn message_lines(
    t: Seq<char>,
    scope: Option<Seq<char>>,
    d: Seq<char>,
    body: Seq<Seq<char>>,
    closes: Seq<u64>,
    refs: Seq<u64>,
    trailer: Option<Seq<char>>,
) -> Seq<Seq<char>> {
    seq![head_line(t, scope, d)] + block(bullets(body, 0)) + block(
        footers("Closes #"@, closes, 0) + footers("Refs: #"@, refs, 0),
    ) + block(
        match trailer {
            Some(trailer) => seq![trailer],
            None => Seq::empty(),
        },
    )
}

/// Adds a bullet for each line that is not blank.
fn push_bullets(out: &mut Vec<String>, body: &[String])
    ensures
        text::texts(final(out)@) == text::texts(old(out)@) + bullets(text::texts(body@), 0),
{
    let ghost before = text::texts(out@);
    let ghost lines = text::texts(body@);
    let ghost all = bullets(lines, 0);
    let ghost mut done: Seq<Seq<char>> = Seq::empty();
    let mut k: usize = 0;
    proof {
        assert(before + done =~= before);
        assert(done + bullets(lines, 0) =~= all);
    }
    while k < body.len()
        invariant
            k <= body@.len(),
            lines == text::texts(body@),
            text::texts(out@) == before + done,
            done + bullets(lines, k as int) == all,
        decreases body@.len() - k,
    {
        let line = body[k].as_str();
        assert(lines[k as int] == line@);
        if trimmed(line).unicode_len() > 0 {
            let bullet = cat2("- ", line);
            proof {
                text::lemma_texts_push(out@, bullet);
                let rest = bullets(lines, k + 1);
                assert(done + (seq![bullet@] + rest) =~= done.push(bullet@) + rest);
                assert((before + done).push(bullet@) =~= before + done.push(bullet@));
                done = done.push(bullet@);
            }
            out.push(bullet);
        }
        k = k + 1;
    }
    assert(done =~= all);
}

/// Adds a footer for each issue that is a real number.
fn push_footers(out: &mut Vec<String>, label: &str, issues: &[u64])
    ensures
        text::texts(final(out)@) == text::texts(old(out)@) + footers(label@, issues@, 0),
{
    let ghost before = text::texts(out@);
    let ghost all = footers(label@, issues@, 0);
    let ghost mut done: Seq<Seq<char>> = Seq::empty();
    let mut k: usize = 0;
    proof {
        assert(before + done =~= before);
        assert(done + footers(label@, issues@, 0) =~= all);
    }
    while k < issues.len()
        invariant
            k <= issues@.len(),
            text::texts(out@) == before + done,
            done + footers(label@, issues@, k as int) == all,
        decreases issues@.len() - k,
    {
        if issues[k] > 0 {
            let footer = cat2(label, decimal_of(issues[k]).as_str());
            proof {
                text::lemma_texts_push(out@, footer);
                let rest = footers(label@, issues@, k + 1);
                assert(done + (seq![footer@] + rest) =~= done.push(footer@) + rest);
                assert((before + done).push(footer@) =~= before + done.push(footer@));
                done = done.push(footer@);
            }
            out.push(footer);
        }
        k = k + 1;
    }
    assert(done =~= all);
}

/// Adds lines as a block.
fn push_block(out: &mut Vec<String>, lines: Vec<String>)
    ensures
        text::texts(final(out)@) == text::texts(old(out)@) + block(text::texts(lines@)),
{
    let ghost before = text::texts(out@);
    let ghost new = text::texts(lines@);
    if lines.len() > 0 {
        let blank = String::new();
        proof {
            text::lemma_texts_push(out@, blank);
            assert(blank@ =~= Seq::<char>::empty());
        }
        out.push(blank);
        let mut lines = lines;
        let ghost was = out@;
        out.append(&mut lines);
        assert(text::texts(out@) =~= text::texts(was) + new);
        assert(text::texts(out@) =~= before + block(new));
    } else {
        assert(before + block(new) =~= before);
    }
}

/// The message of a commit.
pub fn assemble_message(
    commit_type: &str,
    scope: Option<&str>,
    description: &str,
    body: &[String],
    closes: &[u64],
    refs: &[u64],
    trailer: Option<&str>,
) -> (r: String)
    ensures
        r@ == text::join(
            message_lines(
                commit_type@,
                text::opt_str(scope),
                description@,
                text::texts(body@),
                closes@,
                refs@,
                text::opt_str(trailer),
            ),
            "\n"@,
        ) + "\n"@,
{
    let head = match scope {
        Some(scope) => {
            if scope.unicode_len() > 0 {
                cat5(commit_type, "(", scope, "): ", description)
            } else {
                cat3(commit_type, ": ", description)
            }
        },
        None => cat3(commit_type, ": ", description),
    };
    let mut parts: Vec<String> = Vec::new();
    parts.push(head);
    assert(text::texts(parts@) =~= seq![
        head_line(commit_type@, text::opt_str(scope), description@),
    ]);
    let mut lines: Vec<String> = Vec::new();
    assert(text::texts(lines@) =~= Seq::<Seq<char>>::empty());
    push_bullets(&mut lines, body);
    assert(text::texts(lines@) =~= bullets(text::texts(body@), 0));
    push_block(&mut parts, lines);
    let mut issues: Vec<String> = Vec::new();
    assert(text::texts(issues@) =~= Seq::<Seq<char>>::empty());
    push_footers(&mut issues, "Closes #", closes);
    push_footers(&mut issues, "Refs: #", refs);
    assert(text::texts(issues@) =~= footers("Closes #"@, closes@, 0) + footers(
        "Refs: #"@,
        refs@,
        0,
    ));
    push_block(&mut parts, issues);
    let mut signature: Vec<String> = Vec::new();
    if let Some(trailer) = trailer {
        signature.push(owned(trailer));
    }
    assert(text::texts(signature@) =~= match text::opt_str(trailer) {
        Some(trailer) => seq![trailer],
        None => Seq::empty(),
    });
    push_block(&mut parts, signature);
    cat2(join_texts(&parts, "\n").as_str(), "\n")
}

/// The first line of a message says what was committed, provided that the
/// description is one line; the message ends in a line feed.
pub proof fn law_message_starts_with_its_head(
    t: Seq<char>,
    scope: Option<Seq<char>>,
    d: Seq<char>,
    body: Seq<Seq<char>>,
    closes: Seq<u64>,
    refs: Seq<u64>,
    trailer: Option<Seq<char>>,
)
    requires
        !head_line(t, scope, d).contains('\n'),
        head_line(t, scope, d).last() != '\r',
    ensures
        ({
            let message = text::join(
                message_lines(t, scope, d, body, closes, refs, trailer),
                "\n"@,
            ) + "\n"@;
            &&& text::lines(message).len() > 0
            &&& text::lines(message)[0] == head_line(t, scope, d)
            &&& message.last() == '\n'
        }),
{
    reveal_strlit("\n");
    assert("\n"@ =~= seq!['\n']);
    let head = head_line(t, scope, d);
    let all = message_lines(t, scope, d, body, closes, refs, trailer);
    let rest = all.drop_first();
    assert(all =~= seq![head] + rest);
    let joined = text::join(all, "\n"@);
    let message = joined + "\n"@;
    let tail = if rest.len() > 0 {
        text::lemma_join_first(head, rest, "\n"@);
        text::join(rest, "\n"@) + "\n"@
    } else {
        assert(all =~= seq![head]);
        Seq::<char>::empty()
    };
    assert(message =~= head + "\n"@ + tail);
    assert forall|j: int| 0 <= j < head.len() implies message[j] != '\n' by {
        assert(message[j] == head[j]);
        assert(head.contains(head[j]));
    }
    assert(message[head.len() as int] == '\n');
    text::lemma_first_char_is(message, '\n', head.len() as int);
    assert(message.take(head.len() as int) =~= head);
    assert(text::strip_cr(head) == head);
}

// ---------------------------------------------------------------------------
// Paths
// ---------------------------------------------------------------------------

/// A path taken apart: whether it starts at the root, and its steps.
#[verifier::ext_equal]
pub struct PathView {
    pub absolute: bool,
    pub steps: Seq<Seq<char>>,
}

/// The steps among pieces from the `k`-th on: empty pieces and single dots
/// are none.
pub open spec fn steps_from(pieces: Seq<Seq<char>>, k: int) -> Seq<Seq<char>>
    decreases pieces.len() - k,
{
    if k >= pieces.len() {
        Seq::empty()
    } else if pieces[k].len() == 0 || pieces[k] == "."@ {
        steps_from(pieces, k + 1)
    } else {
        seq![pieces[k]] + steps_from(pieces, k + 1)
    }
}

/// The steps of a path as it is written.
pub open spec fn written_steps(path: Seq<char>) -> Seq<Seq<char>> {
    steps_from(text::split(path, '/'), 0)
}

/// Where steps lead from `done` on: a double dot goes back, and stays where
/// there is nowhere to go back to.
pub open spec fn walk(done: Seq<Seq<char>>, steps: Seq<Seq<char>>, k: int) -> Seq<Seq<char>>
    decreases steps.len() - k,
{
    if k >= steps.len() {
        done
    } else if steps[k] == ".."@ {
        walk(
            if done.len() > 0 {
                done.drop_last()
            } else {
                done
            },
            steps,
            k + 1,
        )
    } else {
        walk(done.push(steps[k]), steps, k + 1)
    }
}

/// A path with its dots worked off, without a look at the file system.
pub open spec fn lexical(path: Seq<char>) -> PathView {
    PathView {
        absolute: text::starts_with(path, "/"@),
        steps: walk(Seq::empty(), written_steps(path), 0),
    }
}

/// The place that a path names, seen from `base`.
pub open spec fn seen_from(base: Seq<char>, path: Seq<char>) -> PathView {
    if text::starts_with(path, "/"@) {
        lexical(path)
    } else {
        PathView {
            absolute: text::starts_with(base, "/"@),
            steps: walk(lexical(base).steps, written_steps(path), 0),
        }
    }
}

/// What follows `root` in `place`, where it lies below.
pub open spec fn below(root: PathView, place: PathView) -> Option<PathView> {
    if !root.absolute && root.steps.len() == 0 {
        Some(place)
    } else if root.absolute == place.absolute && root.steps.len() <= place.steps.len()
        && place.steps.take(root.steps.len() as int) == root.steps {
        Some(PathView { absolute: false, steps: place.steps.skip(root.steps.len() as int) })
    } else {
        None
    }
}

/// A path as it is written.
pub open spec fn path_text(p: PathView) -> Seq<char> {
    if p.absolute {
        "/"@ + text::join(p.steps, "/"@)
    } else {
        text::join(p.steps, "/"@)
    }
}

/// A path as seen from the root of the repository; nothing where it leads
/// outside.
pub open spec fn repo_path(root: Seq<char>, base: Seq<char>, path: Seq<char>) -> Option<Seq<char>> {
    match below(lexical(root), seen_from(base, path)) {
        None => None,
        Some(p) => if path_text(p).len() == 0 {
            Some("."@)
        } else {
            Some(path_text(p))
        },
    }
}

/// The steps of a path as it is written.
fn steps_of(path: &str) -> (r: Vec<String>)
    ensures
        text::texts(r@) == written_steps(path@),
{
    let pieces = split_on(path, '/');
    let ghost names = text::texts(pieces@);
    let ghost all = steps_from(names, 0);
    let mut r: Vec<String> = Vec::new();
    let mut k: usize = 0;
    assert(text::texts(r@) + steps_from(names, 0) =~= all);
    while k < pieces.len()
        invariant
            k <= pieces@.len(),
            names == text::texts(pieces@),
            text::texts(r@) + steps_from(names, k as int) == all,
        decreases pieces@.len() - k,
    {
        let piece = pieces[k].as_str();
        assert(names[k as int] == piece@);
        if piece.unicode_len() > 0 && !str_eq(piece, ".") {
            let step = owned(piece);
            proof {
                text::lemma_texts_push(r@, step);
                let rest = steps_from(names, k + 1);
                assert(text::texts(r@) + (seq![step@] + rest) =~= text::texts(r@).push(step@)
                    + rest);
            }
            r.push(step);
        }
        k = k + 1;
    }
    assert(text::texts(r@) + Seq::<Seq<char>>::empty() =~= text::texts(r@));
    r
}

/// Follows steps from `done` on.
fn follow(done: &mut Vec<String>, steps: &Vec<String>)
    ensures
        text::texts(final(done)@) == walk(text::texts(old(done)@), text::texts(steps@), 0),
{
    let ghost names = text::texts(steps@);
    let ghost goal = walk(text::texts(done@), names, 0);
    let mut k: usize = 0;
    while k < steps.len()
        invariant
            k <= steps@.len(),
            names == text::texts(steps@),
            goal == walk(text::texts(done@), names, k as int),
        decreases steps@.len() - k,
    {
        let step = steps[k].as_str();
        assert(names[k as int] == step@);
        if str_eq(step, "..") {
            let ghost was = done@;
            let _ = done.pop();
            proof {
                if was.len() > 0 {
                    assert(text::texts(done@) =~= text::texts(was).drop_last());
                } else {
                    assert(text::texts(done@) =~= text::texts(was));
                }
            }
        } else {
            let new = owned(step);
            proof {
                text::lemma_texts_push(done@, new);
            }
            done.push(new);
        }
        k = k + 1;
    }
}

/// A path with its dots worked off: its steps.
pub fn normalize_components(path: &str) -> (r: Vec<String>)
    ensures
        text::texts(r@) == lexical(path@).steps,
{
    let mut done: Vec<String> = Vec::new();
    assert(text::texts(done@) =~= Seq::<Seq<char>>::empty());
    follow(&mut done, &steps_of(path));
    done
}

/// Whether `root` is how `steps` begin.
fn begins_like(steps: &Vec<String>, root: &Vec<String>) -> (r: bool)
    ensures
        r == (root@.len() <= steps@.len() && text::texts(steps@).take(root@.len() as int)
            == text::texts(root@)),
{
    if root.len() > steps.len() {
        return false;
    }
    let ghost a = text::texts(steps@).take(root@.len() as int);
    let ghost b = text::texts(root@);
    let mut k: usize = 0;
    while k < root.len()
        invariant
            k <= root@.len(),
            root@.len() <= steps@.len(),
            a == text::texts(steps@).take(root@.len() as int),
            b == text::texts(root@),
            forall|i: int| 0 <= i < k ==> a[i] == b[i],
        decreases root@.len() - k,
    {
        if !str_eq(steps[k].as_str(), root[k].as_str()) {
            assert(a[k as int] != b[k as int]);
            return false;
        }
        k = k + 1;
    }
    assert(a =~= b);
    true
}

/// A path as seen from the root of the repository. The two anchors are given
/// with their links resolved; a relative path starts at `base`.
pub fn normalize_repo_path(root: &str, base: &str, path: &str) -> (r: Result<String, String>)
    ensures
        match repo_path(root@, base@, path@) {
            Some(p) => r is Ok && r->Ok_0@ == p,
            None => r is Err && r->Err_0@ == "git_commit: path is outside repository root: "@
                + path@,
        },
{
    let root_absolute = text::begins_with(root, "/");
    let root_steps = normalize_components(root);
    let own_root = text::begins_with(path, "/");
    let absolute = own_root || text::begins_with(base, "/");
    let mut place = if own_root {
        Vec::new()
    } else {
        normalize_components(base)
    };
    proof {
        if own_root {
            assert(text::texts(place@) =~= Seq::<Seq<char>>::empty());
        }
    }
    follow(&mut place, &steps_of(path));
    let ghost seen = seen_from(base@, path@);
    assert(seen.steps == text::texts(place@) && seen.absolute == absolute);
    let mut slash = false;
    let rest = if !root_absolute && root_steps.len() == 0 {
        slash = absolute;
        place
    } else if root_absolute == absolute && begins_like(&place, &root_steps) {
        let mut rest: Vec<String> = Vec::new();
        let mut k: usize = root_steps.len();
        let ghost all = text::texts(place@);
        let ghost cut = root_steps@.len() as int;
        assert(text::texts(rest@) =~= all.subrange(cut, cut));
        while k < place.len()
            invariant
                cut <= k <= place@.len(),
                0 <= cut,
                all == text::texts(place@),
                text::texts(rest@) == all.subrange(cut, k as int),
            decreases place@.len() - k,
        {
            let step = owned(place[k].as_str());
            proof {
                text::lemma_texts_push(rest@, step);
                assert(all.subrange(cut, k + 1) =~= all.subrange(cut, k as int).push(step@));
            }
            rest.push(step);
            k = k + 1;
        }
        assert(all.subrange(cut, all.len() as int) =~= all.skip(cut));
        rest
    } else {
        return Err(cat2("git_commit: path is outside repository root: ", path));
    };
    let joined = join_texts(&rest, "/");
    let shown = if slash {
        cat2("/", joined.as_str())
    } else {
        joined
    };
    assert(below(lexical(root@), seen) == Some(
        PathView { absolute: slash, steps: text::texts(rest@) },
    ));
    if shown.as_str().unicode_len() == 0 {
        Ok(owned("."))
    } else {
        Ok(shown)
    }
}

/// Whether no step goes back.
pub open spec fn only_forward(steps: Seq<Seq<char>>) -> bool {
    forall|i: int| 0 <= i < steps.len() ==> #[trigger] steps[i] != ".."@
}

proof fn lemma_walk_forward(done: Seq<Seq<char>>, steps: Seq<Seq<char>>, k: int)
    requires
        only_forward(done),
        0 <= k,
    ensures
        only_forward(walk(done, steps, k)),
    decreases steps.len() - k,
{
    if k < steps.len() {
        if steps[k] == ".."@ {
            lemma_walk_forward(
                if done.len() > 0 {
                    done.drop_last()
                } else {
                    done
                },
                steps,
                k + 1,
            );
        } else {
            lemma_walk_forward(done.push(steps[k]), steps, k + 1);
        }
    }
}

/// A path that is accepted stays inside the repository: put behind the root it
/// leads where the path led, and no step of it goes back.
pub proof fn law_repo_paths_stay_inside(root: Seq<char>, base: Seq<char>, path: Seq<char>)
    ensures
        below(lexical(root), seen_from(base, path)) matches Some(p) ==> {
            &&& lexical(root).steps + p.steps == seen_from(base, path).steps
            &&& only_forward(p.steps)
        },
{
    let place = seen_from(base, path);
    lemma_walk_forward(Seq::empty(), written_steps(base), 0);
    lemma_walk_forward(Seq::empty(), written_steps(path), 0);
    lemma_walk_forward(lexical(base).steps, written_steps(path), 0);
    if let Some(p) = below(lexical(root), place) {
        assert(lexical(root).steps + p.steps =~= place.steps);
        assert forall|i: int| 0 <= i < p.steps.len() implies #[trigger] p.steps[i] != ".."@ by {
            assert(p.steps[i] == place.steps[lexical(root).steps.len() + i]);
        }
    }
}

/// The paths among those asked for, from the `k`-th on, as seen from the root:
/// blank ones are left out, and the first that leads outside is an error.
pub open spec fn staged_set(
    root: Seq<char>,
    base: Seq<char>,
    paths: Seq<Seq<char>>,
    k: int,
    done: Seq<Seq<char>>,
) -> Result<Seq<Seq<char>>, Seq<char>>
    decreases paths.len() - k,
{
    if k >= paths.len() {
        Ok(done)
    } else {
        let path = text::trim(paths[k]);
        if path.len() == 0 {
            staged_set(root, base, paths, k + 1, done)
        } else {
            match repo_path(root, base, path) {
                Some(p) => staged_set(root, base, paths, k + 1, done.push(p)),
                None => Err("git_commit: path is outside repository root: "@ + path),
            }
        }
    }
}

/// The paths to stage, of those asked for.
pub fn paths_to_stage(root: &str, base: &str, paths: &Vec<String>) -> (r: Result<
    Vec<String>,
    String,
>)
    ensures
        match staged_set(root@, base@, text::texts(paths@), 0, Seq::empty()) {
            Ok(ps) => r is Ok && text::texts(r->Ok_0@) == ps,
            Err(e) => r is Err && r->Err_0@ == e,
        },
{
    let ghost names = text::texts(paths@);
    let mut r: Vec<String> = Vec::new();
    let mut k: usize = 0;
    assert(text::texts(r@) =~= Seq::<Seq<char>>::empty());
    while k < paths.len()
        invariant
            k <= paths@.len(),
            names == text::texts(paths@),
            staged_set(root@, base@, names, 0, Seq::empty()) == staged_set(
                root@,
                base@,
                names,
                k as int,
                text::texts(r@),
            ),
        decreases paths@.len() - k,
    {
        let path = trimmed(paths[k].as_str());
        assert(names[k as int] == paths@[k as int]@);
        if path.unicode_len() > 0 {
            match normalize_repo_path(root, base, path) {
                Ok(p) => {
                    proof {
                        text::lemma_texts_push(r@, p);
                    }
                    r.push(p);
                },
                Err(e) => return Err(e),
            }
        }
        k = k + 1;
    }
    Ok(r)
}

// ---------------------------------------------------------------------------
// Gates
// ---------------------------------------------------------------------------

/// The pieces from the `k`-th on that are not empty.
pub open spec fn present_from(pieces: Seq<Seq<char>>, k: int) -> Seq<Seq<char>>
    decreases pieces.len() - k,
{
    if k >= pieces.len() {
        Seq::empty()
    } else if pieces[k].len() == 0 {
        present_from(pieces, k + 1)
    } else {
        seq![pieces[k]] + present_from(pieces, k + 1)
    }
}

/// The paths in output that separates them by the null character.
pub fn listed_paths(output: &str) -> (r: Vec<String>)
    ensures
        text::texts(r@) == present_from(text::split(output@, '\0'), 0),
{
    let pieces = split_on(output, '\0');
    let ghost names = text::texts(pieces@);
    let ghost all = present_from(names, 0);
    let mut r: Vec<String> = Vec::new();
    let mut k: usize = 0;
    assert(text::texts(r@) + present_from(names, 0) =~= all);
    while k < pieces.len()
        invariant
            k <= pieces@.len(),
            names == text::texts(pieces@),
            text::texts(r@) + present_from(names, k as int) == all,
        decreases pieces@.len() - k,
    {
        let piece = pieces[k].as_str();
        assert(names[k as int] == piece@);
        if piece.unicode_len() > 0 {
            let path = owned(piece);
            proof {
                text::lemma_texts_push(r@, path);
                let rest = present_from(names, k + 1);
                assert(text::texts(r@) + (seq![path@] + rest) =~= text::texts(r@).push(path@)
                    + rest);
            }
            r.push(path);
        }
        k = k + 1;
    }
    assert(text::texts(r@) + Seq::<Seq<char>>::empty() =~= text::texts(r@));
    r
}

/// The branch that commits go to: the one that HEAD names, or else what the
/// revision is called.
pub fn branch_name(symbolic: Option<&str>) -> (r: Option<String>)
    ensures
        text::opt_text(r) == (match symbolic {
            Some(branch) => if branch@.len() > 0 {
                Some(branch@)
            } else {
                None::<Seq<char>>
            },
            None => None::<Seq<char>>,
        }),
{
    match symbolic {
        Some(branch) => if branch.unicode_len() > 0 {
            Some(owned(branch))
        } else {
            None
        },
        None => None,
    }
}

/// The default branch: what the remote's HEAD names, else what is configured,
/// else `main`.
pub open spec fn default_branch_of(head: Option<Seq<char>>, configured: Option<Seq<char>>) -> Seq<
    char,
> {
    let named = match head {
        Some(head) => text::strip_prefix(head, "origin/"@),
        None => None,
    };
    if named is Some && text::trim(named->0).len() > 0 {
        text::trim(named->0)
    } else if configured is Some && configured->0.len() > 0 {
        configured->0
    } else {
        "main"@
    }
}

/// The default branch.
pub fn default_branch_name(head: Option<&str>, configured: Option<&str>) -> (r: String)
    ensures
        r@ == default_branch_of(text::opt_str(head), text::opt_str(configured)),
{
    if let Some(head) = head {
        if let Some(named) = stripped_prefix(head, "origin/") {
            let branch = trimmed(named);
            if branch.unicode_len() > 0 {
                return owned(branch);
            }
        }
    }
    if let Some(branch) = configured {
        if branch.unicode_len() > 0 {
            return owned(branch);
        }
    }
    owned("main")
}

/// Refuses a commit on the default branch, unless it is allowed.
pub fn check_branch(branch: &str, default_branch: &str, allowed: bool) -> (r: Result<(), String>)
    ensures
        if branch@ == default_branch@ && !allowed {
            r is Err && r->Err_0@ == "git_commit: refusing to commit on default branch \""@
                + default_branch@
                + "\"; create a task branch or pass allowDefaultBranch"@
        } else {
            r is Ok
        },
{
    if str_eq(branch, default_branch) && !allowed {
        Err(
            cat3(
                "git_commit: refusing to commit on default branch \"",
                default_branch,
                "\"; create a task branch or pass allowDefaultBranch",
            ),
        )
    } else {
        Ok(())
    }
}

/// The staged paths from the `k`-th on that the commit did not ask for.
pub open spec fn foreign_from(staged: Seq<Seq<char>>, asked: Seq<Seq<char>>, k: int) -> Seq<
    Seq<char>,
>
    decreases staged.len() - k,
{
    if k >= staged.len() {
        Seq::empty()
    } else if asked.contains(staged[k]) {
        foreign_from(staged, asked, k + 1)
    } else {
        seq![staged[k]] + foreign_from(staged, asked, k + 1)
    }
}

/// The staged paths that the commit did not ask for.
pub fn foreign_paths(staged: &Vec<String>, asked: &Vec<String>) -> (r: Vec<String>)
    ensures
        text::texts(r@) == foreign_from(text::texts(staged@), text::texts(asked@), 0),
{
    let ghost names = text::texts(staged@);
    let ghost wanted = text::texts(asked@);
    let ghost all = foreign_from(names, wanted, 0);
    let mut r: Vec<String> = Vec::new();
    let mut k: usize = 0;
    assert(text::texts(r@) + foreign_from(names, wanted, 0) =~= all);
    while k < staged.len()
        invariant
            k <= staged@.len(),
            names == text::texts(staged@),
            wanted == text::texts(asked@),
            text::texts(r@) + foreign_from(names, wanted, k as int) == all,
        decreases staged@.len() - k,
    {
        let path = staged[k].as_str();
        assert(names[k as int] == path@);
        if !list_contains(asked, path) {
            let foreign = owned(path);
            proof {
                text::lemma_texts_push(r@, foreign);
                let rest = foreign_from(names, wanted, k + 1);
                assert(text::texts(r@) + (seq![foreign@] + rest) =~= text::texts(r@).push(
                    foreign@,
                ) + rest);
            }
            r.push(foreign);
        }
        k = k + 1;
    }
    assert(text::texts(r@) + Seq::<Seq<char>>::empty() =~= text::texts(r@));
    r
}

/// Refuses to sweep in what was staged before, unless it is declared part of
/// the commit.
pub fn check_staged(staged: &Vec<String>, asked: &Vec<String>, included: bool) -> (r: Result<
    (),
    String,
>)
    ensures
        ({
            let foreign = foreign_from(text::texts(staged@), text::texts(asked@), 0);
            if foreign.len() > 0 && !included {
                r is Err && r->Err_0@
                    == "git_commit: refusing to sweep unrelated staged paths ("@ + text::join(
                    foreign,
                    ", "@,
                ) + "); unstage them or pass includePreStaged"@
            } else {
                r is Ok
            }
        }),
{
    let foreign = foreign_paths(staged, asked);
    if foreign.len() > 0 && !included {
        Err(
            cat3(
                "git_commit: refusing to sweep unrelated staged paths (",
                join_texts(&foreign, ", ").as_str(),
                "); unstage them or pass includePreStaged",
            ),
        )
    } else {
        Ok(())
    }
}

proof fn lemma_foreign(staged: Seq<Seq<char>>, asked: Seq<Seq<char>>, k: int)
    requires
        0 <= k,
    ensures
        foreign_from(staged, asked, k).len() == 0 <==> forall|i: int|
            k <= i < staged.len() ==> asked.contains(#[trigger] staged[i]),
    decreases staged.len() - k,
{
    if k < staged.len() {
        lemma_foreign(staged, asked, k + 1);
    }
}

/// The staging gate lets a commit pass exactly where everything staged was
/// asked for, or declared part of it.
pub proof fn law_only_asked_paths_pass(staged: Seq<Seq<char>>, asked: Seq<Seq<char>>)
    ensures
        foreign_from(staged, asked, 0).len() == 0 <==> forall|i: int|
            0 <= i < staged.len() ==> asked.contains(#[trigger] staged[i]),
{
    lemma_foreign(staged, asked, 0);
}

/// Refuses an empty commit.
pub fn check_nonempty(has_staged: bool) -> (r: Result<(), String>)
    ensures
        has_staged ==> r is Ok,
        !has_staged ==> r is Err && r->Err_0@ == "git_commit: nothing staged to commit"@,
{
    if has_staged {
        Ok(())
    } else {
        Err(owned("git_commit: nothing staged to commit"))
    }
}

// ---------------------------------------------------------------------------
// Signing off
// ---------------------------------------------------------------------------

/// Where the value of a sign-off field comes from.
#[derive(Debug)]
pub enum SignoffSource {
    Unset,
    Literal { value: String },
    /// The display name of the session's model.
    Model,
    /// The git setting of that name.
    GitConfig { key: String },
}

/// Where the value of a sign-off field comes from.
pub fn signoff_source(field: &str, value: Option<&str>) -> (r: SignoffSource)
    ensures
        match value {
            None => r is Unset,
            Some(v) => if v@ == MODEL_PLACEHOLDER@ {
                r is Model
            } else if v@ == USER_PLACEHOLDER@ {
                r matches SignoffSource::GitConfig { key } && key@ == (if field@ == "name"@ {
                    "user.name"@
                } else {
                    "user.email"@
                })
            } else {
                r matches SignoffSource::Literal { value: l } && l@ == v@
            },
        },
{
    match value {
        None => SignoffSource::Unset,
        Some(v) => {
            if str_eq(v, MODEL_PLACEHOLDER) {
                SignoffSource::Model
            } else if str_eq(v, USER_PLACEHOLDER) {
                let key = if str_eq(field, "name") {
                    owned("user.name")
                } else {
                    owned("user.email")
                };
                SignoffSource::GitConfig { key }
            } else {
                SignoffSource::Literal { value: owned(v) }
            }
        },
    }
}

/// The name of the session's model, as it signs: the model has to be known,
/// and to have a display name.
pub fn model_signature(model: Option<&str>, display_name: Option<String>) -> (r: Result<
    String,
    String,
>)
    ensures
        match (model, display_name) {
            (None, _) => r is Err && r->Err_0@
                == "git_commit cannot sign off: ${model} has not resolved yet (no model identity recorded for this session)"@,
            (Some(_), Some(name)) => r == Ok::<String, String>(name),
            (Some(m), None) => r is Err && r->Err_0@ == "git_commit cannot sign off: model \""@
                + m@ + "\" has no resolvable display name for ${model}"@,
        },
{
    match model {
        None => Err(
            owned(
                "git_commit cannot sign off: ${model} has not resolved yet (no model identity recorded for this session)",
            ),
        ),
        Some(model) => match display_name {
            Some(name) => Ok(name),
            None => Err(
                cat3(
                    "git_commit cannot sign off: model \"",
                    model,
                    "\" has no resolvable display name for ${model}",
                ),
            ),
        },
    }
}

/// The git setting that signs; an unset or empty one does not.
pub fn user_signature(key: &str, setting: Option<String>) -> (r: Result<String, String>)
    ensures
        match setting {
            Some(value) if value@.len() > 0 => r == Ok::<String, String>(value),
            _ => r is Err && r->Err_0@ == "git_commit cannot sign off: git config "@ + key@
                + " is unset"@,
        },
{
    if let Some(value) = setting {
        if value.as_str().unicode_len() > 0 {
            return Ok(value);
        }
    }
    Err(cat3("git_commit cannot sign off: git config ", key, " is unset"))
}

/// The trailer, where both of its fields have a value.
pub open spec fn trailer_of(name: Option<Seq<char>>, email: Option<Seq<char>>) -> Option<Seq<char>> {
    if name is Some && email is Some && name->0.len() > 0 && email->0.len() > 0 {
        Some("Co-Authored-By: "@ + name->0 + " <"@ + email->0 + ">"@)
    } else {
        None
    }
}

/// The trailer.
pub fn trailer(name: Option<&str>, email: Option<&str>) -> (r: Option<String>)
    ensures
        text::opt_text(r) == trailer_of(text::opt_str(name), text::opt_str(email)),
{
    match (name, email) {
        (Some(name), Some(email)) => {
            if name.unicode_len() > 0 && email.unicode_len() > 0 {
                Some(cat5("Co-Authored-By: ", name, " <", email, ">"))
            } else {
                None
            }
        },
        _ => None,
    }
}

/// Whether a commit is signed off.
pub fn signs_off(signoff: Option<bool>) -> (r: bool)
    ensures
        r == (signoff != Some(false)),
{
    match signoff {
        Some(b) => b,
        None => true,
    }
}

// ---------------------------------------------------------------------------
// What is told
// ---------------------------------------------------------------------------

/// The first characters of an object name.
pub open spec fn short_name(sha: Seq<char>) -> Seq<char> {
    if sha.len() <= 10 {
        sha
    } else {
        sha.take(10)
    }
}

/// The first characters of an object name.
pub fn short_sha(sha: &str) -> (r: String)
    ensures
        r@ == short_name(sha@),
{
    let len: usize = sha.unicode_len();
    if len <= 10 {
        owned(sha)
    } else {
        let cut = sha.substring_char(0, 10);
        assert(cut@ =~= sha@.take(10));
        owned(cut)
    }
}

/// The first line of a text, or nothing.
pub open spec fn first_line(s: Seq<char>) -> Seq<char> {
    if text::lines(s).len() > 0 {
        text::lines(s)[0]
    } else {
        Seq::empty()
    }
}

/// The subject of a message.
pub fn subject(message: &str) -> (r: String)
    ensures
        r@ == first_line(message@),
{
    let lines = lines_of(message);
    if lines.len() > 0 {
        assert(text::texts(lines@)[0] == lines@[0]@);
        owned(lines[0].as_str())
    } else {
        String::new()
    }
}

/// What is told of a commit.
pub fn commit_report(sha: &str, branch: &str, message: &str, files: usize) -> (r: String)
    ensures
        r@ == "Committed "@ + short_name(sha@) + " on "@ + branch@ + "\n"@ + first_line(message@)
            + "\n"@ + text::decimal(files as nat) + " file(s)"@,
{
    let head = cat5("Committed ", short_sha(sha).as_str(), " on ", branch, "\n");
    cat5(
        head.as_str(),
        subject(message).as_str(),
        "\n",
        decimal_of_usize(files).as_str(),
        " file(s)",
    )
}

/// What is told of a git command that failed.
pub fn git_failure(args: &Vec<String>, stderr: &str) -> (r: String)
    ensures
        r@ == "git "@ + text::join(text::texts(args@), " "@) + " failed: "@ + text::trim_end(
            stderr@,
        ),
{
    cat4("git ", join_texts(args, " ").as_str(), " failed: ", trimmed_end(stderr))
}

/// The directory that a tool starts from: the one asked for, where it is not
/// blank.
pub fn asked_directory(repo_path: Option<&str>) -> (r: Option<String>)
    ensures
        text::opt_text(r) == (match repo_path {
            Some(path) => if text::trim(path@).len() > 0 {
                Some(text::trim(path@))
            } else {
                None::<Seq<char>>
            },
            None => None::<Seq<char>>,
        }),
{
    match repo_path {
        Some(path) => {
            let path = trimmed(path);
            if path.unicode_len() > 0 {
                Some(owned(path))
            } else {
                None
            }
        },
        None => None,
    }
}

// ---------------------------------------------------------------------------
// Checkpoints
// ---------------------------------------------------------------------------

/// Checks the label of a checkpoint.
pub fn check_checkpoint_message(message: &str) -> (r: Result<(), String>)
    ensures
        text::trim(message@).len() > 0 ==> r is Ok,
        text::trim(message@).len() == 0 ==> r is Err && r->Err_0@
            == "git_checkpoint: message must be a non-empty string"@,
{
    if trimmed(message).unicode_len() > 0 {
        Ok(())
    } else {
        Err(owned("git_checkpoint: message must be a non-empty string"))
    }
}

/// Checks that a snapshot was made.
pub fn check_snapshot(sha: &str) -> (r: Result<(), String>)
    ensures
        sha@.len() > 0 ==> r is Ok,
        sha@.len() == 0 ==> r is Err && r->Err_0@
            == "git_checkpoint: git stash create produced no commit (nothing to snapshot)"@,
{
    if sha.unicode_len() > 0 {
        Ok(())
    } else {
        Err(owned("git_checkpoint: git stash create produced no commit (nothing to snapshot)"))
    }
}

/// The git command that stages untracked files for a snapshot, and the one
/// that takes them back; none where there are no such files.
pub fn untracked_commands(untracked: &Vec<String>) -> (r: Option<(Vec<String>, Vec<String>)>)
    ensures
        match r {
            None => untracked@.len() == 0,
            Some((add, reset)) => {
                &&& untracked@.len() > 0
                &&& text::texts(add@) == seq!["add"@, "--"@] + text::texts(untracked@)
                &&& text::texts(reset@) == seq!["reset"@, "-q"@, "--"@] + text::texts(untracked@)
            },
        },
{
    if untracked.len() == 0 {
        return None;
    }
    let mut add: Vec<String> = Vec::new();
    add.push(owned("add"));
    add.push(owned("--"));
    let mut reset: Vec<String> = Vec::new();
    reset.push(owned("reset"));
    reset.push(owned("-q"));
    reset.push(owned("--"));
    let ghost a = text::texts(add@);
    let ghost b = text::texts(reset@);
    proof {
        assert(a =~= seq!["add"@, "--"@]);
        assert(b =~= seq!["reset"@, "-q"@, "--"@]);
    }
    let mut files = clone_texts(untracked);
    let ghost was = add@;
    let ghost names = text::texts(files@);
    add.append(&mut files);
    assert(text::texts(add@) =~= a + names);
    let mut files = clone_texts(untracked);
    let ghost names = text::texts(files@);
    reset.append(&mut files);
    assert(text::texts(reset@) =~= b + names);
    Some((add, reset))
}

/// The selector of the newest stash entry.
pub fn selector(listed: &str) -> (r: String)
    ensures
        r@ == (if listed@.len() > 0 {
            listed@
        } else {
            "stash@{0}"@
        }),
{
    if listed.unicode_len() > 0 {
        owned(listed)
    } else {
        owned("stash@{0}")
    }
}

/// What is told of a checkpoint.
pub fn checkpoint_report(selector: &str, sha: &str, branch: &str, message: &str) -> (r: String)
    ensures
        r@ == "Checkpoint "@ + selector@ + " ("@ + short_name(sha@) + ") on "@ + branch@ + "\n"@
            + message@,
{
    let head = cat5("Checkpoint ", selector, " (", short_sha(sha).as_str(), ") on ");
    cat4(head.as_str(), branch, "\n", message)
}

// ---------------------------------------------------------------------------
// Laws
// ---------------------------------------------------------------------------

/// The paths of a request that are not blank, each without the white space
/// round it.
pub open spec fn named_paths(paths: Seq<Seq<char>>) -> Seq<Seq<char>> {
    paths.map_values(|p: Seq<char>| text::trim(p)).filter(|p: Seq<char>| p.len() > 0)
}

proof fn lemma_named_paths(paths: Seq<Seq<char>>, k: int)
    requires
        0 <= k < paths.len(),
    ensures
        named_paths(paths.take(k + 1)) == if text::trim(paths[k]).len() > 0 {
            named_paths(paths.take(k)).push(text::trim(paths[k]))
        } else {
            named_paths(paths.take(k))
        },
        named_paths(paths.take(k + 1)) == named_paths(paths).take(
            named_paths(paths.take(k + 1)).len() as int,
        ),
        named_paths(paths.take(k + 1)).len() <= named_paths(paths).len(),
    decreases paths.len() - k,
{
    let f = |p: Seq<char>| text::trim(p);
    let p = |p: Seq<char>| p.len() > 0;
    let front = paths.take(k).map_values(f);
    assert(paths.take(k + 1).map_values(f) =~= front.push(text::trim(paths[k])));
    sort::lemma_filter_last(front, text::trim(paths[k]), p);
    let here = named_paths(paths.take(k + 1));
    if k + 1 < paths.len() {
        lemma_named_paths(paths, k + 1);
        let next = named_paths(paths.take(k + 2));
        assert(here =~= next.take(here.len() as int));
        assert(here =~= named_paths(paths).take(here.len() as int));
    } else {
        assert(paths.take(k + 1) =~= paths);
        assert(here =~= here.take(here.len() as int));
    }
}

proof fn lemma_staged_set(
    root: Seq<char>,
    base: Seq<char>,
    paths: Seq<Seq<char>>,
    k: int,
    done: Seq<Seq<char>>,
)
    requires
        0 <= k <= paths.len(),
        done.len() == named_paths(paths.take(k)).len(),
        forall|i: int| #![trigger done[i]]
            0 <= i < done.len() ==> repo_path(root, base, named_paths(paths.take(k))[i]) == Some(
                done[i],
            ),
    ensures
        staged_set(root, base, paths, k, done) matches Ok(out) ==> out.len() == named_paths(
            paths,
        ).len() && forall|i: int| #![trigger out[i]]
            0 <= i < out.len() ==> repo_path(root, base, named_paths(paths)[i]) == Some(out[i]),
        staged_set(root, base, paths, k, done) matches Err(e) ==> exists|i: int|
            0 <= i < named_paths(paths).len() && repo_path(
                root,
                base,
                #[trigger] named_paths(paths)[i],
            ) is None && (forall|j: int|
                0 <= j < i ==> repo_path(root, base, #[trigger] named_paths(paths)[j]) is Some)
                && e == "git_commit: path is outside repository root: "@ + named_paths(paths)[i],
    decreases paths.len() - k,
{
    if k < paths.len() {
        lemma_named_paths(paths, k);
        let path = text::trim(paths[k]);
        let before = named_paths(paths.take(k));
        let here = named_paths(paths.take(k + 1));
        if path.len() == 0 {
            lemma_staged_set(root, base, paths, k + 1, done);
        } else if let Some(p) = repo_path(root, base, path) {
            let more = done.push(p);
            assert forall|i: int| #![trigger more[i]] 0 <= i < more.len() implies repo_path(
                root,
                base,
                here[i],
            ) == Some(more[i]) by {
                if i < done.len() {
                    assert(more[i] == done[i]);
                    assert(here[i] == before[i]);
                }
            }
            lemma_staged_set(root, base, paths, k + 1, more);
        } else {
            let n = before.len() as int;
            let all = named_paths(paths);
            assert(here[n] == path);
            assert(here[n] == all.take(here.len() as int)[n]);
            assert(all[n] == path);
            assert forall|j: int| 0 <= j < n implies repo_path(
                root,
                base,
                #[trigger] all[j],
            ) is Some by {
                assert(here[j] == all.take(here.len() as int)[j]);
                assert(before[j] == here[j]);
                assert(repo_path(root, base, before[j]) == Some(done[j]));
            }
        }
    } else {
        assert(paths.take(k) =~= paths);
    }
}

/// Every path asked for that is not blank is staged, in order and as it is
/// seen from the root, and nothing else is. Where one leads outside the
/// repository none is, and the error names the first that does.
pub proof fn law_every_path_asked_for_is_staged(
    root: Seq<char>,
    base: Seq<char>,
    paths: Seq<Seq<char>>,
)
    ensures
        staged_set(root, base, paths, 0, Seq::empty()) is Ok <==> forall|i: int|
            0 <= i < named_paths(paths).len() ==> repo_path(
                root,
                base,
                #[trigger] named_paths(paths)[i],
            ) is Some,
        staged_set(root, base, paths, 0, Seq::empty()) matches Ok(out) ==> out.len()
            == named_paths(paths).len() && forall|i: int| #![trigger out[i]]
            0 <= i < out.len() ==> repo_path(root, base, named_paths(paths)[i]) == Some(out[i]),
        staged_set(root, base, paths, 0, Seq::empty()) matches Err(e) ==> exists|i: int|
            0 <= i < named_paths(paths).len() && repo_path(
                root,
                base,
                #[trigger] named_paths(paths)[i],
            ) is None && (forall|j: int|
                0 <= j < i ==> repo_path(root, base, #[trigger] named_paths(paths)[j]) is Some)
                && text::ends_with(e, named_paths(paths)[i]),
{
    let f = |p: Seq<char>| text::trim(p);
    assert(paths.take(0).map_values(f) =~= Seq::<Seq<char>>::empty());
    sort::lemma_filter_empty(|p: Seq<char>| p.len() > 0);
    lemma_staged_set(root, base, paths, 0, Seq::empty());
    let all = named_paths(paths);
    match staged_set(root, base, paths, 0, Seq::empty()) {
        Ok(out) => {
            assert forall|i: int| 0 <= i < all.len() implies repo_path(
                root,
                base,
                #[trigger] all[i],
            ) is Some by {
                assert(repo_path(root, base, all[i]) == Some(out[i]));
            }
        },
        Err(e) => {
            let i = choose|i: int|
                0 <= i < all.len() && repo_path(root, base, #[trigger] all[i]) is None && (forall|
                    j: int,
                |
                    0 <= j < i ==> repo_path(root, base, #[trigger] all[j]) is Some) && e
                    == "git_commit: path is outside repository root: "@ + all[i];
            text::law_stripping_undoes_putting(
                "git_commit: path is outside repository root: "@,
                all[i],
            );
            assert(text::ends_with(e, all[i]));
            assert(repo_path(root, base, all[i]) is None);
        },
    }
}

/// Whether a step of a path names a directory entry.
pub open spec fn is_entry(step: Seq<char>) -> bool {
    step.len() > 0 && step != "."@ && step != ".."@ && !step.contains('/')
}

/// Whether the steps of a path name directory entries, one below the other.
pub open spec fn are_entries(steps: Seq<Seq<char>>) -> bool {
    forall|i: int| 0 <= i < steps.len() ==> is_entry(#[trigger] steps[i])
}

proof fn lemma_steps_filter(pieces: Seq<Seq<char>>, k: int)
    requires
        0 <= k <= pieces.len(),
    ensures
        steps_from(pieces, k) == pieces.skip(k).filter(
            |p: Seq<char>| p.len() > 0 && p != "."@,
        ),
    decreases pieces.len() - k,
{
    let p = |p: Seq<char>| p.len() > 0 && p != "."@;
    if k < pieces.len() {
        lemma_steps_filter(pieces, k + 1);
        sort::lemma_filter_first(pieces.skip(k), p);
        assert(pieces.skip(k).drop_first() =~= pieces.skip(k + 1));
        assert(steps_from(pieces, k) =~= pieces.skip(k).filter(p));
    } else {
        assert(pieces.skip(k) =~= Seq::empty());
        sort::lemma_filter_empty(p);
    }
}

/// Filtering keeps all where all are kept.
pub proof fn lemma_filter_all<A>(s: Seq<A>, p: spec_fn(A) -> bool)
    requires
        forall|i: int| 0 <= i < s.len() ==> p(#[trigger] s[i]),
    ensures
        s.filter(p) == s,
    decreases s.len(),
{
    reveal(Seq::filter);
    if s.len() > 0 {
        lemma_filter_all(s.drop_last(), p);
        assert(s =~= s.drop_last().push(s.last()));
    }
}

/// The steps of a path are its pieces between slashes, without the empty ones
/// and those that say to stay.
pub proof fn law_steps_are_pieces(path: Seq<char>)
    ensures
        written_steps(path) == text::split(path, '/').filter(
            |p: Seq<char>| p.len() > 0 && p != "."@,
        ),
{
    lemma_steps_filter(text::split(path, '/'), 0);
    assert(text::split(path, '/').skip(0) =~= text::split(path, '/'));
}

/// Steps that name entries are walked down one by one, and a step back undoes
/// the one before it; at the top there is nothing to undo.
pub proof fn law_walking_goes_down_and_back(
    done: Seq<Seq<char>>,
    steps: Seq<Seq<char>>,
    step: Seq<char>,
    rest: Seq<Seq<char>>,
)
    requires
        are_entries(steps),
        is_entry(step),
    ensures
        walk(done, steps, 0) == done + steps,
        walk(done, seq![step, ".."@] + rest, 0) == walk(done, rest, 0),
        walk(Seq::empty(), seq![".."@] + rest, 0) == walk(Seq::empty(), rest, 0),
{
    lemma_walk_down(done, steps, 0);
    assert(steps.skip(0) =~= steps);
    let there = seq![step, ".."@] + rest;
    assert(there[0] == step && there[1] == ".."@);
    reveal_with_fuel(walk, 3);
    assert(done.push(step).drop_last() =~= done);
    lemma_walk_shift(done, seq![step, ".."@], rest, 0);
    assert(walk(done, there, 0) == walk(done, there, 2));
    let up = seq![".."@] + rest;
    assert(up[0] == ".."@);
    lemma_walk_shift(Seq::empty(), seq![".."@], rest, 0);
}

proof fn lemma_walk_down(done: Seq<Seq<char>>, steps: Seq<Seq<char>>, k: int)
    requires
        are_entries(steps),
        0 <= k <= steps.len(),
    ensures
        walk(done, steps, k) == done + steps.skip(k),
    decreases steps.len() - k,
{
    if k < steps.len() {
        assert(is_entry(steps[k]));
        lemma_walk_down(done.push(steps[k]), steps, k + 1);
        assert(done.push(steps[k]) + steps.skip(k + 1) =~= done + steps.skip(k));
    } else {
        assert(done + steps.skip(k) =~= done);
    }
}

proof fn lemma_walk_shift(
    done: Seq<Seq<char>>,
    front: Seq<Seq<char>>,
    rest: Seq<Seq<char>>,
    k: int,
)
    requires
        0 <= k,
    ensures
        walk(done, front + rest, front.len() + k) == walk(done, rest, k),
    decreases rest.len() - k,
{
    if k < rest.len() {
        assert((front + rest)[front.len() + k] == rest[k]);
        if rest[k] == ".."@ {
            lemma_walk_shift(
                if done.len() > 0 {
                    done.drop_last()
                } else {
                    done
                },
                front,
                rest,
                k + 1,
            );
        } else {
            lemma_walk_shift(done.push(rest[k]), front, rest, k + 1);
        }
    }
}

proof fn lemma_walk_entries(done: Seq<Seq<char>>, steps: Seq<Seq<char>>, k: int)
    requires
        are_entries(done),
        forall|i: int|
            0 <= i < steps.len() ==> (#[trigger] steps[i]).len() > 0 && steps[i] != "."@
                && !steps[i].contains('/'),
        0 <= k,
    ensures
        are_entries(walk(done, steps, k)),
    decreases steps.len() - k,
{
    if k < steps.len() {
        if steps[k] == ".."@ {
            lemma_walk_entries(
                if done.len() > 0 {
                    done.drop_last()
                } else {
                    done
                },
                steps,
                k + 1,
            );
        } else {
            lemma_walk_entries(done.push(steps[k]), steps, k + 1);
        }
    }
}

proof fn lemma_written_steps_are_plain(path: Seq<char>)
    ensures
        forall|i: int|
            0 <= i < written_steps(path).len() ==> (#[trigger] written_steps(path)[i]).len() > 0
                && written_steps(path)[i] != "."@ && !written_steps(path)[i].contains('/'),
{
    let pieces = text::split(path, '/');
    let p = |p: Seq<char>| p.len() > 0 && p != "."@;
    law_steps_are_pieces(path);
    text::law_pieces_hold_no_separator(path, '/');
    assert forall|i: int| 0 <= i < written_steps(path).len() implies (#[trigger] written_steps(
        path,
    )[i]).len() > 0 && written_steps(path)[i] != "."@ && !written_steps(path)[i].contains('/') by {
        pieces.lemma_filter_pred(p, i);
        let step = written_steps(path)[i];
        assert(pieces.filter(p).contains(step));
        pieces.lemma_filter_contains_rev(p, step);
    }
}

/// The steps that a place is given by name entries: none stays or goes back.
pub proof fn law_places_are_given_by_entries(base: Seq<char>, path: Seq<char>)
    ensures
        are_entries(lexical(path).steps),
        are_entries(seen_from(base, path).steps),
{
    lemma_written_steps_are_plain(path);
    lemma_written_steps_are_plain(base);
    lemma_walk_entries(Seq::empty(), written_steps(path), 0);
    lemma_walk_entries(Seq::empty(), written_steps(base), 0);
    lemma_walk_entries(lexical(base).steps, written_steps(path), 0);
}

proof fn lemma_nothing_is_written()
    ensures
        written_steps(Seq::empty()) == Seq::<Seq<char>>::empty(),
{
    let p = |p: Seq<char>| p.len() > 0 && p != "."@;
    let none = Seq::<char>::empty();
    law_steps_are_pieces(none);
    text::lemma_first_char_is(none, '/', 0);
    assert(text::split(none, '/') =~= seq![none]);
    sort::lemma_filter_first(seq![none], p);
    assert(seq![none].drop_first() =~= Seq::empty());
    sort::lemma_filter_empty(p);
    assert(seq![none].filter(p) =~= Seq::empty());
}

proof fn lemma_entries_are_written(steps: Seq<Seq<char>>)
    requires
        are_entries(steps),
    ensures
        written_steps(text::join(steps, "/"@)) == steps,
        steps.len() > 0 ==> text::join(steps, "/"@).len() > 0 && text::join(steps, "/"@)[0] != '/',
{
    let whole = text::join(steps, "/"@);
    if steps.len() > 0 {
        assert("/"@ == seq!['/']) by {
            reveal_strlit("/");
            assert("/"@ =~= seq!['/']);
        }
        let p = |p: Seq<char>| p.len() > 0 && p != "."@;
        assert(written_steps(whole) == steps) by {
            law_steps_are_pieces(whole);
            assert forall|i: int| 0 <= i < steps.len() implies !(#[trigger] steps[i]).contains(
                '/',
            ) by {
                assert(is_entry(steps[i]));
            }
            text::law_split_undoes_join(steps, '/');
            assert forall|i: int| 0 <= i < steps.len() implies p(#[trigger] steps[i]) by {
                assert(is_entry(steps[i]));
            }
            lemma_filter_all(steps, p);
        }
        let first = steps[0];
        assert(is_entry(first));
        assert(first.contains(first[0]));
        if steps.len() > 1 {
            let rest = steps.drop_first();
            assert(steps =~= seq![first] + rest);
            text::lemma_join_first(first, rest, "/"@);
            assert(whole == first + "/"@ + text::join(rest, "/"@));
        }
        assert(whole[0] == first[0]);
    } else {
        lemma_nothing_is_written();
        assert(steps =~= Seq::empty());
    }
}

/// A path that is staged, seen from the root, leads where the path asked for
/// led, seen from where it was asked for.
pub proof fn law_staged_paths_lead_to_the_same_place(
    root: Seq<char>,
    base: Seq<char>,
    path: Seq<char>,
)
    requires
        text::starts_with(root, "/"@),
    ensures
        repo_path(root, base, path) matches Some(p) ==> seen_from(root, p) == seen_from(base, path),
        repo_path(root, base, path) is Some <==> {
            &&& seen_from(base, path).absolute
            &&& exists|steps: Seq<Seq<char>>|
                seen_from(base, path).steps == lexical(root).steps + steps
        },
{
    reveal_strlit("/");
    reveal_strlit(".");
    let place = seen_from(base, path);
    let top = lexical(root);
    law_places_are_given_by_entries(base, path);
    law_places_are_given_by_entries(base, root);
    if let Some(p) = below(top, place) {
        assert forall|i: int| 0 <= i < p.steps.len() implies is_entry(#[trigger] p.steps[i]) by {
            assert(p.steps[i] == place.steps[top.steps.len() + i]);
        }
        lemma_entries_are_written(p.steps);
        lemma_walk_down(top.steps, p.steps, 0);
        assert(p.steps.skip(0) =~= p.steps);
        assert(place.steps =~= top.steps + p.steps);
        let told = path_text(p);
        if p.steps.len() == 0 {
            assert(told.len() == 0);
            law_steps_are_pieces("."@);
            let all = text::split("."@, '/');
            text::lemma_first_char_is("."@, '/', 1);
            assert(all =~= seq!["."@]);
            let keep = |p: Seq<char>| p.len() > 0 && p != "."@;
            sort::lemma_filter_first(all, keep);
            assert(all.drop_first() =~= Seq::empty());
            sort::lemma_filter_empty(keep);
            assert(written_steps("."@) =~= Seq::empty());
            assert(!text::starts_with("."@, "/"@)) by {
                assert("."@.take(1)[0] == '.');
                assert("/"@[0] == '/');
            }
            assert(place.steps =~= top.steps);
            assert(walk(top.steps, written_steps("."@), 0) == top.steps);
        } else {
            assert(!text::starts_with(told, "/"@)) by {
                if text::starts_with(told, "/"@) {
                    assert(told.take(1)[0] == told[0]);
                    assert("/"@[0] == '/');
                }
            }
        }
    }
    assert(forall|steps: Seq<Seq<char>>|
        place.steps == top.steps + steps ==> place.steps.take(top.steps.len() as int)
            =~= top.steps);
}

proof fn lemma_bullets(body: Seq<Seq<char>>, k: int)
    requires
        0 <= k <= body.len(),
    ensures
        bullets(body, k) == body.skip(k).filter(
            |line: Seq<char>| text::trim(line).len() > 0,
        ).map_values(|line: Seq<char>| "- "@ + line),
    decreases body.len() - k,
{
    let p = |line: Seq<char>| text::trim(line).len() > 0;
    let f = |line: Seq<char>| "- "@ + line;
    if k < body.len() {
        lemma_bullets(body, k + 1);
        sort::lemma_filter_first(body.skip(k), p);
        assert(body.skip(k).drop_first() =~= body.skip(k + 1));
        assert(bullets(body, k) =~= body.skip(k).filter(p).map_values(f));
    } else {
        assert(body.skip(k) =~= Seq::empty());
        sort::lemma_filter_empty(p);
        assert(bullets(body, k) =~= body.skip(k).filter(p).map_values(f));
    }
}

proof fn lemma_footers(label: Seq<char>, issues: Seq<u64>, k: int)
    requires
        0 <= k <= issues.len(),
    ensures
        footers(label, issues, k) == issues.skip(k).filter(|n: u64| n != 0).map_values(
            |n: u64| label + text::decimal(n as nat),
        ),
    decreases issues.len() - k,
{
    let p = |n: u64| n != 0;
    let f = |n: u64| label + text::decimal(n as nat);
    if k < issues.len() {
        lemma_footers(label, issues, k + 1);
        sort::lemma_filter_first(issues.skip(k), p);
        assert(issues.skip(k).drop_first() =~= issues.skip(k + 1));
        assert(footers(label, issues, k) =~= issues.skip(k).filter(p).map_values(f));
    } else {
        assert(issues.skip(k) =~= Seq::empty());
        sort::lemma_filter_empty(p);
        assert(footers(label, issues, k) =~= issues.skip(k).filter(p).map_values(f));
    }
}

/// A part of a message with the blank line that sets it off, or nothing where
/// the part is empty.
pub open spec fn set_off(part: Seq<Seq<char>>) -> Seq<Seq<char>> {
    if part.len() == 0 {
        part
    } else {
        part.insert(0, Seq::empty())
    }
}

/// A message is its head, then one line for each line of the body that is not
/// blank, then one for each issue that it closes and each that it refers to,
/// zeros left out, then the trailer; a blank line stands before each part that
/// is there.
pub proof fn law_messages_hold_every_part(
    t: Seq<char>,
    scope: Option<Seq<char>>,
    d: Seq<char>,
    body: Seq<Seq<char>>,
    closes: Seq<u64>,
    refs: Seq<u64>,
    trailer: Option<Seq<char>>,
)
    ensures
        message_lines(t, scope, d, body, closes, refs, trailer) == seq![head_line(t, scope, d)]
            + set_off(
            body.filter(|line: Seq<char>| text::trim(line).len() > 0).map_values(
                |line: Seq<char>| "- "@ + line,
            ),
        ) + set_off(
            closes.filter(|n: u64| n != 0).map_values(
                |n: u64| "Closes #"@ + text::decimal(n as nat),
            ) + refs.filter(|n: u64| n != 0).map_values(
                |n: u64| "Refs: #"@ + text::decimal(n as nat),
            ),
        ) + (match trailer {
            Some(line) => seq![Seq::empty(), line],
            None => Seq::empty(),
        }),
{
    lemma_bullets(body, 0);
    assert(body.skip(0) =~= body);
    lemma_footers("Closes #"@, closes, 0);
    assert(closes.skip(0) =~= closes);
    lemma_footers("Refs: #"@, refs, 0);
    assert(refs.skip(0) =~= refs);
    let issues = footers("Closes #"@, closes, 0) + footers("Refs: #"@, refs, 0);
    assert(block(bullets(body, 0)) =~= set_off(bullets(body, 0)));
    assert(block(issues) =~= set_off(issues));
    if let Some(line) = trailer {
        assert(block(seq![line]) =~= seq![Seq::empty(), line]);
    }
}

/// A head begins with the type and ends in the description behind a colon and
/// a space; between them stands the scope in parentheses, where there is one
/// that is not empty.
pub proof fn law_heads_hold_type_scope_and_description(t: Seq<char>, scope: Seq<char>, d: Seq<char>)
    ensures
        head_line(t, None, d) == t + ": "@ + d,
        head_line(t, Some(Seq::empty()), d) == t + ": "@ + d,
        scope.len() > 0 ==> head_line(t, Some(scope), d) == t + seq!['('] + scope + seq![')'] + ": "@
            + d,
{
    reveal_strlit("(");
    reveal_strlit("): ");
    reveal_strlit(": ");
    if scope.len() > 0 {
        assert(head_line(t, Some(scope), d) =~= t + seq!['('] + scope + seq![')'] + ": "@ + d);
    }
}

/// A description is accepted where it is there, has no white space at its
/// ends, does not end in a mark that ends a sentence, does not begin with a
/// capital letter, and is not too long.
pub proof fn law_accepted_descriptions(d: Seq<char>)
    ensures
        description_fault(d) is None <==> {
            &&& 0 < d.len() <= 72
            &&& !text::is_white_space(d[0]) && !text::is_white_space(d.last())
            &&& !('A' <= d[0] && d[0] <= 'Z')
            &&& d.last() != '.' && d.last() != '!' && d.last() != '?' && d.last() != '。'
                && d.last() != '！' && d.last() != '？'
        },
{
    text::lemma_trim(d);
    if d.len() > 0 && !text::is_white_space(d[0]) && !text::is_white_space(d.last()) {
        assert(d =~= Seq::empty() + d + Seq::empty());
        text::law_trimming_finds_the_core(Seq::empty(), d, Seq::empty());
    }
}

/// A commit is refused for a fault of its input exactly where it names both
/// paths and a checkpoint, or its type, scope or description is not accepted.
pub proof fn law_accepted_inputs(input: GitCommitInput)
    ensures
        input_fault(input) is None <==> {
            &&& input.paths is None || input.checkpoint is None
            &&& is_commit_type(input.commit_type@)
            &&& input.scope matches Some(scope) ==> is_scope(scope@)
            &&& description_fault(input.description@) is None
        },
{
}

/// A scope is accepted where it is there and holds small letters of ASCII,
/// digits, dots, underscores, slashes and hyphens alone.
pub proof fn law_accepted_scopes(s: Seq<char>, i: int)
    requires
        is_scope(s),
        0 <= i < s.len(),
    ensures
        ('a' <= s[i] && s[i] <= 'z') || ('0' <= s[i] && s[i] <= '9') || s[i] == '.' || s[i] == '_'
            || s[i] == '/' || s[i] == '-',
        is_scope(s.take(i + 1)),
        is_scope(s.skip(i)),
        is_scope(s.push('a')) && is_scope(s.push('z')) && is_scope(s.push('0')) && is_scope(
            s.push('9'),
        ) && is_scope(s.push('/')) && is_scope(s.push('.')) && is_scope(s.push('_')) && is_scope(
            s.push('-'),
        ),
        !is_scope(s.push('(')) && !is_scope(s.push('A')) && !is_scope(s.push(' ')),
        !is_scope(Seq::empty()),
{
    assert(is_scope_char(s[i]));
    assert forall|k: int| 0 <= k < s.take(i + 1).len() implies is_scope_char(
        #[trigger] s.take(i + 1)[k],
    ) by {
        assert(s.take(i + 1)[k] == s[k]);
    }
    assert forall|k: int| 0 <= k < s.skip(i).len() implies is_scope_char(
        #[trigger] s.skip(i)[k],
    ) by {
        assert(s.skip(i)[k] == s[i + k]);
    }
    let n = s.len() as int;
    assert(!is_scope_char(s.push('(')[n]));
    assert(!is_scope_char(s.push('A')[n]));
    assert(!is_scope_char(s.push(' ')[n]));
}

proof fn lemma_present(pieces: Seq<Seq<char>>, k: int)
    requires
        0 <= k <= pieces.len(),
    ensures
        present_from(pieces, k) == pieces.skip(k).filter(|p: Seq<char>| p.len() > 0),
    decreases pieces.len() - k,
{
    let p = |p: Seq<char>| p.len() > 0;
    if k < pieces.len() {
        lemma_present(pieces, k + 1);
        sort::lemma_filter_first(pieces.skip(k), p);
        assert(pieces.skip(k).drop_first() =~= pieces.skip(k + 1));
        assert(present_from(pieces, k) =~= pieces.skip(k).filter(p));
    } else {
        assert(pieces.skip(k) =~= Seq::empty());
        sort::lemma_filter_empty(p);
    }
}

proof fn lemma_foreign_filter(staged: Seq<Seq<char>>, asked: Seq<Seq<char>>, k: int)
    requires
        0 <= k <= staged.len(),
    ensures
        foreign_from(staged, asked, k) == staged.skip(k).filter(
            |p: Seq<char>| !asked.contains(p),
        ),
    decreases staged.len() - k,
{
    let p = |p: Seq<char>| !asked.contains(p);
    if k < staged.len() {
        lemma_foreign_filter(staged, asked, k + 1);
        sort::lemma_filter_first(staged.skip(k), p);
        assert(staged.skip(k).drop_first() =~= staged.skip(k + 1));
        assert(foreign_from(staged, asked, k) =~= staged.skip(k).filter(p));
    } else {
        assert(staged.skip(k) =~= Seq::empty());
        sort::lemma_filter_empty(p);
    }
}

/// The pieces that hold something are all kept and in order; and the staged
/// paths that nobody asked for are all named, in order.
pub proof fn law_pieces_and_foreign_paths_are_all_kept(
    pieces: Seq<Seq<char>>,
    staged: Seq<Seq<char>>,
    asked: Seq<Seq<char>>,
)
    ensures
        present_from(pieces, 0) == pieces.filter(|p: Seq<char>| p.len() > 0),
        foreign_from(staged, asked, 0) == staged.filter(|p: Seq<char>| !asked.contains(p)),
{
    lemma_present(pieces, 0);
    assert(pieces.skip(0) =~= pieces);
    lemma_foreign_filter(staged, asked, 0);
    assert(staged.skip(0) =~= staged);
}

/// The default branch is the one that the remote's head names, else the one
/// configured, else `main`.
pub proof fn law_default_branch_comes_from_the_remote_first(
    named: Seq<char>,
    head: Seq<char>,
    configured: Option<Seq<char>>,
    other: Seq<char>,
)
    requires
        text::trim(named).len() > 0,
        !text::starts_with(head, "origin/"@),
        other.len() > 0,
    ensures
        default_branch_of(Some("origin/"@ + named), configured) == text::trim(named),
        default_branch_of(Some(head), configured) == default_branch_of(None, configured),
        default_branch_of(Some("origin/"@), configured) == default_branch_of(None, configured),
        default_branch_of(None, Some(other)) == other,
        default_branch_of(None, Some(Seq::empty())) == "main"@,
        default_branch_of(None, None) == "main"@,
{
    text::law_stripping_undoes_putting(named, "origin/"@);
    text::law_stripping_undoes_putting(Seq::empty(), "origin/"@);
    assert("origin/"@ + Seq::<char>::empty() =~= "origin/"@);
}

/// A trailer is written where both a name and an address are there and not
/// empty, and holds both, the address in angle brackets at the end.
pub proof fn law_trailers_name_the_author(name: Option<Seq<char>>, email: Option<Seq<char>>)
    ensures
        trailer_of(name, email) is Some <==> (name matches Some(n) && n.len() > 0) && (
        email matches Some(e) && e.len() > 0),
        trailer_of(name, email) matches Some(line) ==> text::starts_with(
            line,
            "Co-Authored-By: "@ + name->0,
        ) && text::ends_with(line, " <"@ + email->0 + ">"@) && line.len()
            == "Co-Authored-By: "@.len() + name->0.len() + " <"@.len() + email->0.len() + ">"@.len(),
{
    if let Some(line) = trailer_of(name, email) {
        let front = "Co-Authored-By: "@ + name->0;
        let end = " <"@ + email->0 + ">"@;
        assert(line =~= front + end);
        text::law_stripping_undoes_putting(end, front);
        text::law_stripping_undoes_putting(front, end);
    }
}

/// The short name of a commit is the first ten characters of its name, or all
/// of a shorter one; the first line of a text is what stands before its first
/// line feed.
pub proof fn law_short_names_begin_the_name(sha: Seq<char>, line: Seq<char>, rest: Seq<char>)
    requires
        !line.contains('\n'),
        line.len() > 0 ==> line.last() != '\r',
    ensures
        short_name(sha) == sha.take(short_name(sha).len() as int),
        short_name(sha).len() == if sha.len() < 10 {
            sha.len()
        } else {
            10
        },
        first_line(line + seq!['\n'] + rest) == line,
        first_line(line) == line,
{
    assert(sha =~= sha.take(sha.len() as int));
    let whole = line + seq!['\n'] + rest;
    assert forall|j: int| 0 <= j < line.len() implies whole[j] != '\n' by {
        assert(line.contains(line[j]));
        assert(whole[j] == line[j]);
    }
    text::lemma_first_char_is(whole, '\n', line.len() as int);
    assert(whole.take(line.len() as int) =~= line);
    assert forall|j: int| 0 <= j < line.len() implies line[j] != '\n' by {
        assert(line.contains(line[j]));
    }
    text::lemma_first_char_is(line, '\n', line.len() as int);
    if line.len() == 0 {
        assert(first_line(line) =~= line);
    }
}

/// The commit types are eleven words, and nothing else is one.
pub proof fn law_commit_types_are_known_words(t: Seq<char>)
    ensures
        is_commit_type(t) <==> seq![
            "feat"@,
            "fix"@,
            "refactor"@,
            "test"@,
            "docs"@,
            "chore"@,
            "perf"@,
            "build"@,
            "ci"@,
            "style"@,
            "revert"@,
        ].contains(t),
{
    let all = seq![
        "feat"@,
        "fix"@,
        "refactor"@,
        "test"@,
        "docs"@,
        "chore"@,
        "perf"@,
        "build"@,
        "ci"@,
        "style"@,
        "revert"@,
    ];
    assert(all[0] == "feat"@ && all[1] == "fix"@ && all[2] == "refactor"@ && all[3] == "test"@);
    assert(all[4] == "docs"@ && all[5] == "chore"@ && all[6] == "perf"@ && all[7] == "build"@);
    assert(all[8] == "ci"@ && all[9] == "style"@ && all[10] == "revert"@);
}

} // verus!
