//! Paths, completion and listings.

use crate::sort;
use crate::sort::{stable_sort, Ranked};
use crate::ssh_ops;
use crate::ssh_ops::SshDirEntry;
use crate::text;
use crate::text::{
    begins_with, cat2, cat3, finishes_with, owned, rfind_char, str_eq, str_le, stripped_prefix,
    trimmed_end_char,
};
use vstd::prelude::*;

verus! {

/// How many paths a completion offers at most.
pub const LIST_PATH_MAX_CANDIDATES: usize = 300;

// ---------------------------------------------------------------------------
// Resolving
// ---------------------------------------------------------------------------

/// A path from a directory: an absolute path stands for itself.
pub open spec fn joined(base: Seq<char>, path: Seq<char>) -> Seq<char> {
    if text::starts_with(path, "/"@) {
        path
    } else if base.len() == 0 || text::ends_with(base, "/"@) {
        base + path
    } else {
        base + "/"@ + path
    }
}

/// The path that is meant: `~` is the home directory, where there is one, and
/// a relative path is meant from the working directory.
pub open spec fn resolved(path: Seq<char>, cwd: Seq<char>, home: Option<Seq<char>>) -> Seq<char> {
    if path == "~"@ {
        match home {
            Some(home) => home,
            None => path,
        }
    } else {
        match text::strip_prefix(path, "~/"@) {
            Some(rest) => match home {
                Some(home) => joined(home, rest),
                None => path,
            },
            None => joined(cwd, path),
        }
    }
}

fn join(base: &str, path: &str) -> (r: String)
    ensures
        r@ == joined(base@, path@),
{
    if begins_with(path, "/") {
        owned(path)
    } else if base.unicode_len() == 0 || finishes_with(base, "/") {
        cat2(base, path)
    } else {
        cat3(base, "/", path)
    }
}

/// The path that is meant.
pub fn resolve_remote_path(path: &str, cwd: &str, home: Option<&str>) -> (r: String)
    ensures
        r@ == resolved(path@, cwd@, text::opt_str(home)),
{
    if str_eq(path, "~") {
        return match home {
            Some(home) => owned(home),
            None => owned(path),
        };
    }
    match stripped_prefix(path, "~/") {
        Some(rest) => match home {
            Some(home) => join(home, rest),
            None => owned(path),
        },
        None => join(cwd, path),
    }
}

/// An absolute path stands for itself, wherever it is meant from.
pub proof fn law_absolute_paths_stay(path: Seq<char>, cwd: Seq<char>, home: Option<Seq<char>>)
    requires
        text::starts_with(path, "/"@),
    ensures
        resolved(path, cwd, home) == path,
{
    reveal_strlit("/");
    reveal_strlit("~");
    reveal_strlit("~/");
    assert("/"@.len() == 1);
    assert(path[0] == path.take(1)[0]);
    assert(path[0] == '/');
    assert("~"@[0] != '/');
    assert("~/"@[0] != '/');
    if text::starts_with(path, "~/"@) {
        assert(path.take(2)[0] == path[0]);
    }
}

// ---------------------------------------------------------------------------
// Completion
// ---------------------------------------------------------------------------

/// A prefix in two: up to its last slash, and behind it.
pub open spec fn prefix_parts(prefix: Seq<char>) -> (Seq<char>, Seq<char>)
    decreases prefix.len(),
{
    if prefix.len() == 0 || prefix.last() == '/' {
        (prefix, Seq::empty())
    } else {
        let (dir, name) = prefix_parts(prefix.drop_last());
        (dir, name.push(prefix.last()))
    }
}

/// The directory in which a prefix is completed: the one before its last
/// slash, or the working directory where it has none.
pub open spec fn completion_dir(prefix: Seq<char>, cwd: Seq<char>, home: Option<Seq<char>>) -> Seq<
    char,
> {
    let dir = prefix_parts(prefix).0;
    let bare = text::trim_end_char(dir, '/');
    if dir.len() == 0 {
        cwd
    } else if bare.len() == 0 {
        "/"@
    } else {
        resolved(bare, cwd, home)
    }
}

/// Something in a directory that a prefix may be completed to.
#[derive(Debug)]
pub struct DirRow {
    pub name: String,
    /// Whether it is a directory; a link to one is not.
    pub is_dir: bool,
}

/// Whether a name completes the end of a prefix: hidden names only where the
/// prefix asks for them.
pub open spec fn completes(name: Seq<char>, end: Seq<char>) -> bool {
    &&& text::starts_with(name, end)
    &&& text::starts_with(name, "."@) ==> text::starts_with(end, "."@)
}

/// A completed path, in the spelling of the prefix; a directory ends in a
/// slash.
pub open spec fn candidate(dir: Seq<char>, row: DirRow) -> Seq<char> {
    if row.is_dir {
        dir + row.name@ + "/"@
    } else {
        dir + row.name@
    }
}

/// The completed paths among the first `k` rows.
pub open spec fn candidates(prefix: Seq<char>, rows: Seq<DirRow>, k: int) -> Seq<Seq<char>>
    decreases k,
{
    if k <= 0 {
        Seq::empty()
    } else {
        let before = candidates(prefix, rows, k - 1);
        let (dir, end) = prefix_parts(prefix);
        if completes(rows[k - 1].name@, end) {
            before.push(candidate(dir, rows[k - 1]))
        } else {
            before
        }
    }
}

/// Paths go by their characters.
pub open spec fn by_text() -> spec_fn(Seq<char>, Seq<char>) -> bool {
    |a: Seq<char>, b: Seq<char>| text::lex_le(a, b)
}

impl Ranked for String {
    open spec fn order() -> spec_fn(Seq<char>, Seq<char>) -> bool {
        by_text()
    }

    fn not_after(&self, other: &Self) -> (r: bool) {
        str_le(self.as_str(), other.as_str())
    }
}

/// The first so many elements.
pub open spec fn at_most<T>(s: Seq<T>, n: int) -> Seq<T> {
    if s.len() <= n {
        s
    } else {
        s.take(n)
    }
}

/// The paths that complete a prefix, in order.
pub open spec fn completions(prefix: Seq<char>, rows: Seq<DirRow>) -> Seq<Seq<char>> {
    at_most(
        sort::sorted(candidates(prefix, rows, rows.len() as int), by_text()),
        LIST_PATH_MAX_CANDIDATES as int,
    )
}

proof fn lemma_prefix_parts(prefix: Seq<char>, i: int)
    requires
        -1 <= i < prefix.len(),
        i >= 0 ==> prefix[i] == '/',
        forall|j: int| i < j < prefix.len() ==> prefix[j] != '/',
    ensures
        prefix_parts(prefix) == (prefix.take(i + 1), prefix.skip(i + 1)),
    decreases prefix.len(),
{
    if i == prefix.len() - 1 {
        assert(prefix.take(i + 1) =~= prefix);
        assert(prefix.skip(i + 1) =~= Seq::empty());
    } else {
        let shorter = prefix.drop_last();
        lemma_prefix_parts(shorter, i);
        assert(shorter.take(i + 1) =~= prefix.take(i + 1));
        assert(shorter.skip(i + 1).push(prefix.last()) =~= prefix.skip(i + 1));
    }
}

/// A prefix in two.
pub fn split_prefix(prefix: &str) -> (r: (&str, &str))
    ensures
        (r.0@, r.1@) == prefix_parts(prefix@),
{
    let total: usize = prefix.unicode_len();
    match rfind_char(prefix, '/') {
        Some(index) => {
            proof {
                lemma_prefix_parts(prefix@, index as int);
                assert(prefix@.subrange(0, index + 1) =~= prefix@.take(index + 1));
                assert(prefix@.subrange(index + 1, total as int) =~= prefix@.skip(index + 1));
            }
            (prefix.substring_char(0, index + 1), prefix.substring_char(index + 1, total))
        },
        None => {
            proof {
                lemma_prefix_parts(prefix@, -1);
                assert(prefix@.take(0) =~= ""@) by {
                    reveal_strlit("");
                }
                assert(prefix@.skip(0) =~= prefix@);
            }
            ("", prefix)
        },
    }
}

/// The directory in which a prefix is completed.
pub fn list_path_dir(prefix: &str, cwd: &str, home: Option<&str>) -> (r: String)
    ensures
        r@ == completion_dir(prefix@, cwd@, text::opt_str(home)),
{
    let (dir, _) = split_prefix(prefix);
    if dir.unicode_len() == 0 {
        return owned(cwd);
    }
    let bare = trimmed_end_char(dir, '/');
    if bare.unicode_len() == 0 {
        owned("/")
    } else {
        resolve_remote_path(bare, cwd, home)
    }
}

/// The paths that complete a prefix, in order.
pub fn list_path(prefix: &str, rows: &Vec<DirRow>) -> (r: Vec<String>)
    ensures
        text::texts(r@) == completions(prefix@, rows@),
{
    let (dir, end) = split_prefix(prefix);
    let mut found: Vec<String> = Vec::new();
    let mut k: usize = 0;
    assert(text::texts(found@) =~= Seq::<Seq<char>>::empty());
    while k < rows.len()
        invariant
            k <= rows@.len(),
            (dir@, end@) == prefix_parts(prefix@),
            text::texts(found@) == candidates(prefix@, rows@, k as int),
        decreases rows@.len() - k,
    {
        let name = rows[k].name.as_str();
        if begins_with(name, end) && (!begins_with(name, ".") || begins_with(end, ".")) {
            let one = if rows[k].is_dir {
                cat3(dir, name, "/")
            } else {
                cat2(dir, name)
            };
            proof {
                text::lemma_texts_push(found@, one);
            }
            found.push(one);
        }
        k = k + 1;
    }
    let ghost unsorted = found@;
    let mut r = stable_sort(found);
    let ghost all = r@;
    proof {
        assert(sort::views(unsorted) =~= text::texts(unsorted));
        assert(sort::views(all) =~= text::texts(all));
    }
    if r.len() > LIST_PATH_MAX_CANDIDATES {
        r.truncate(LIST_PATH_MAX_CANDIDATES);
        assert(text::texts(r@) =~= text::texts(all).take(LIST_PATH_MAX_CANDIDATES as int));
    }
    r
}

proof fn lemma_candidates(prefix: Seq<char>, rows: Seq<DirRow>, k: int)
    requires
        0 <= k <= rows.len(),
    ensures
        forall|i: int|
            0 <= i < candidates(prefix, rows, k).len() ==> text::starts_with(
                #[trigger] candidates(prefix, rows, k)[i],
                prefix,
            ),
    decreases k,
{
    if k > 0 {
        lemma_candidates(prefix, rows, k - 1);
        let before = candidates(prefix, rows, k - 1);
        let now = candidates(prefix, rows, k);
        let (dir, end) = prefix_parts(prefix);
        let row = rows[k - 1];
        lemma_parts_join(prefix);
        assert forall|i: int| 0 <= i < now.len() implies text::starts_with(
            #[trigger] now[i],
            prefix,
        ) by {
            if i < before.len() {
                assert(now[i] == before[i]);
            } else {
                assert(row.name@.take(end.len() as int) == end);
                assert(candidate(dir, row).take(prefix.len() as int) =~= prefix);
            }
        }
    }
}

proof fn lemma_parts_join(prefix: Seq<char>)
    ensures
        prefix_parts(prefix).0 + prefix_parts(prefix).1 == prefix,
    decreases prefix.len(),
{
    if prefix.len() > 0 && prefix.last() != '/' {
        lemma_parts_join(prefix.drop_last());
        let (dir, name) = prefix_parts(prefix.drop_last());
        assert(dir + name.push(prefix.last()) =~= (dir + name).push(prefix.last()));
        assert(prefix.drop_last().push(prefix.last()) =~= prefix);
    } else {
        assert(prefix + Seq::empty() =~= prefix);
    }
}

/// A completion offers a bounded number of paths, in order, and each of them
/// starts with what was typed.
pub proof fn law_completions_extend_the_prefix(prefix: Seq<char>, rows: Seq<DirRow>)
    ensures
        completions(prefix, rows).len() <= LIST_PATH_MAX_CANDIDATES,
        forall|i: int|
            0 <= i < completions(prefix, rows).len() ==> text::starts_with(
                #[trigger] completions(prefix, rows)[i],
                prefix,
            ),
        forall|i: int, j: int|
            0 <= i < j < completions(prefix, rows).len() ==> text::lex_le(
                #[trigger] completions(prefix, rows)[i],
                #[trigger] completions(prefix, rows)[j],
            ),
{
    let found = candidates(prefix, rows, rows.len() as int);
    let all = sort::sorted(found, by_text());
    lemma_candidates(prefix, rows, rows.len() as int);
    assert(sort::is_ranking(by_text())) by {
        let le = by_text();
        assert forall|a: Seq<char>, b: Seq<char>| (#[trigger] le(a, b)) || le(b, a) by {
            text::lemma_lex_total(a, b);
        }
        assert forall|a: Seq<char>, b: Seq<char>, c: Seq<char>|
            #[trigger] le(a, b) && #[trigger] le(b, c) implies le(a, c) by {
            text::lemma_lex_transitive(a, b, c);
        }
    }
    sort::law_sorted_is_in_order(found, by_text());
    let p = |s: Seq<char>| text::starts_with(s, prefix);
    assert forall|i: int| 0 <= i < found.len() implies p(#[trigger] found[i]) by {}
    sort::lemma_sorted_all(found, by_text(), p);
    assert forall|i: int| 0 <= i < completions(prefix, rows).len() implies text::starts_with(
        #[trigger] completions(prefix, rows)[i],
        prefix,
    ) by {
        assert(p(all[i]));
    }
    assert forall|i: int, j: int| 0 <= i < j < completions(prefix, rows).len() implies text::lex_le(
        #[trigger] completions(prefix, rows)[i],
        #[trigger] completions(prefix, rows)[j],
    ) by {
        assert(by_text()(all[i], all[j]));
    }
}

// ---------------------------------------------------------------------------
// Listings
// ---------------------------------------------------------------------------

/// Something in a directory, as the file system tells it: whether it is a
/// link or a directory, where that could be found out, and whether what a
/// link leads to is a directory.
#[derive(Debug)]
pub struct FoundEntry {
    pub name: String,
    pub is_symlink: Option<bool>,
    pub is_dir: Option<bool>,
    pub target_is_dir: Option<bool>,
}

/// A fact that counts only where it is known.
pub open spec fn known(flag: Option<bool>) -> bool {
    flag == Some(true)
}

/// An entry as it is listed: a link to a directory counts as a directory.
pub open spec fn listed(e: FoundEntry) -> ssh_ops::EntryView {
    ssh_ops::EntryView {
        name: e.name@,
        is_dir: if known(e.is_symlink) {
            known(e.target_is_dir)
        } else {
            known(e.is_dir)
        },
        is_symlink: known(e.is_symlink),
    }
}

/// Entries as they are listed.
pub open spec fn listed_all(v: Seq<FoundEntry>) -> Seq<ssh_ops::EntryView> {
    Seq::new(v.len(), |i: int| listed(v[i]))
}

/// Directories stand before the rest, and each group goes by name.
pub open spec fn dirs_first() -> spec_fn(ssh_ops::EntryView, ssh_ops::EntryView) -> bool {
    |a: ssh_ops::EntryView, b: ssh_ops::EntryView|
        if a.is_dir == b.is_dir {
            text::lex_le(a.name, b.name)
        } else {
            a.is_dir
        }
}

impl Ranked for SshDirEntry {
    open spec fn order() -> spec_fn(ssh_ops::EntryView, ssh_ops::EntryView) -> bool {
        dirs_first()
    }

    fn not_after(&self, other: &Self) -> (r: bool) {
        if self.is_dir == other.is_dir {
            str_le(self.name.as_str(), other.name.as_str())
        } else {
            self.is_dir
        }
    }
}

fn is_known(flag: Option<bool>) -> (r: bool)
    ensures
        r == known(flag),
{
    match flag {
        Some(b) => b,
        None => false,
    }
}

/// What a directory holds, as it is listed.
pub fn browse_entries(found: &Vec<FoundEntry>) -> (r: Vec<SshDirEntry>)
    ensures
        ssh_ops::entry_views(r@) == sort::sorted(listed_all(found@), dirs_first()),
{
    let mut entries: Vec<SshDirEntry> = Vec::new();
    let mut k: usize = 0;
    assert(ssh_ops::entry_views(entries@) =~= listed_all(found@).take(0));
    while k < found.len()
        invariant
            k <= found@.len(),
            ssh_ops::entry_views(entries@) == listed_all(found@).take(k as int),
        decreases found@.len() - k,
    {
        let ghost before = entries@;
        let is_symlink = is_known(found[k].is_symlink);
        let is_dir = if is_symlink {
            is_known(found[k].target_is_dir)
        } else {
            is_known(found[k].is_dir)
        };
        let one = SshDirEntry { name: owned(found[k].name.as_str()), is_dir, is_symlink };
        entries.push(one);
        k = k + 1;
        proof {
            assert(ssh_ops::entry_views(entries@) =~= ssh_ops::entry_views(before).push(one@));
            assert(one@ == listed(found@[k - 1]));
            assert(ssh_ops::entry_views(entries@) =~= listed_all(found@).take(k as int));
        }
    }
    let ghost unsorted = entries@;
    assert(sort::views(unsorted) =~= listed_all(found@));
    let r = stable_sort(entries);
    assert(ssh_ops::entry_views(r@) =~= sort::views(r@));
    r
}

/// A listing holds everything that was found, with the directories in front
/// and each group by name.
pub proof fn law_directories_come_first(found: Seq<FoundEntry>)
    ensures
        sort::sorted(listed_all(found), dirs_first()).to_multiset() == listed_all(
            found,
        ).to_multiset(),
        forall|i: int, j: int|
            0 <= i < j < sort::sorted(listed_all(found), dirs_first()).len() ==> {
                let a = #[trigger] sort::sorted(listed_all(found), dirs_first())[i];
                let b = #[trigger] sort::sorted(listed_all(found), dirs_first())[j];
                (b.is_dir ==> a.is_dir) && (a.is_dir == b.is_dir ==> text::lex_le(a.name, b.name))
            },
{
    assert(sort::is_ranking(dirs_first())) by {
        let le = dirs_first();
        assert forall|a: ssh_ops::EntryView, b: ssh_ops::EntryView|
            (#[trigger] le(a, b)) || le(b, a) by {
            text::lemma_lex_total(a.name, b.name);
        }
        assert forall|a: ssh_ops::EntryView, b: ssh_ops::EntryView, c: ssh_ops::EntryView|
            #[trigger] le(a, b) && #[trigger] le(b, c) implies le(a, c) by {
            if a.is_dir == b.is_dir && b.is_dir == c.is_dir {
                text::lemma_lex_transitive(a.name, b.name, c.name);
            }
        }
    }
    sort::law_sorted_is_in_order(listed_all(found), dirs_first());
    sort::law_sorted_is_permutation(listed_all(found), dirs_first());
    let s = sort::sorted(listed_all(found), dirs_first());
    assert forall|i: int, j: int| 0 <= i < j < s.len() implies {
        let a = #[trigger] s[i];
        let b = #[trigger] s[j];
        (b.is_dir ==> a.is_dir) && (a.is_dir == b.is_dir ==> text::lex_le(a.name, b.name))
    } by {
        assert(dirs_first()(s[i], s[j]));
    }
}

// ---------------------------------------------------------------------------
// Laws
// ---------------------------------------------------------------------------

/// A path lies below the directory it is seen from, behind exactly one slash,
/// unless it is absolute or begins at the home directory.
pub proof fn law_relative_paths_lie_below(
    path: Seq<char>,
    cwd: Seq<char>,
    home: Option<Seq<char>>,
)
    requires
        path.len() == 0 || (path[0] != '/' && path[0] != '~'),
    ensures
        cwd.len() > 0 && cwd.last() != '/' ==> resolved(path, cwd, home) == cwd + seq!['/'] + path,
        cwd.len() > 0 && cwd.last() == '/' ==> resolved(path, cwd, home) == cwd + path,
        cwd.len() == 0 ==> resolved(path, cwd, home) == path,
{
    reveal_strlit("~");
    reveal_strlit("~/");
    reveal_strlit("/");
    assert("/"@ =~= seq!['/']);
    if path.len() > 0 {
        assert(path[0] != "~"@[0]);
    }
    if text::starts_with(path, "~/"@) {
        assert(path.take(2)[0] == '~');
    }
    if text::starts_with(path, "/"@) {
        assert(path.take(1)[0] == '/');
    }
    if cwd.len() > 0 {
        assert(cwd.skip(cwd.len() - 1)[0] == cwd.last());
        if cwd.last() == '/' {
            assert(cwd.skip(cwd.len() - 1) =~= "/"@);
        }
    } else {
        assert(cwd + path =~= path);
    }
}

/// A path from the home directory is the path behind the tilde and the slash,
/// seen from there, whatever the working directory; without a home directory
/// it stays as it is.
pub proof fn law_home_paths_lie_below_home(
    rest: Seq<char>,
    cwd: Seq<char>,
    home: Seq<char>,
    other: Option<Seq<char>>,
)
    requires
        rest.len() == 0 || rest[0] != '~',
    ensures
        resolved("~/"@ + rest, cwd, Some(home)) == resolved(rest, home, other),
        resolved("~"@, cwd, Some(home)) == home,
        resolved("~/"@ + rest, cwd, None) == "~/"@ + rest,
        resolved("~"@, cwd, None) == "~"@,
{
    reveal_strlit("~");
    reveal_strlit("~/");
    text::law_stripping_undoes_putting(rest, "~/"@);
    assert(("~/"@ + rest).len() >= 2);
    assert("~"@.len() == 1);
    if text::starts_with(rest, "~/"@) {
        assert(rest.take(2)[0] == '~');
    }
    if rest == "~"@ {
        assert(rest[0] == '~');
    }
}

/// In an absolute directory every path that does not begin with a tilde leads
/// to an absolute one.
pub proof fn law_paths_in_absolute_directories_are_absolute(
    path: Seq<char>,
    cwd: Seq<char>,
    home: Option<Seq<char>>,
)
    requires
        cwd.len() > 0 && cwd[0] == '/',
        path.len() == 0 || path[0] != '~',
    ensures
        resolved(path, cwd, home).len() > 0,
        resolved(path, cwd, home)[0] == '/',
{
    reveal_strlit("/");
    assert("/"@ =~= seq!['/']);
    if path.len() > 0 && path[0] == '/' {
        assert(path.take(1) =~= "/"@);
        law_absolute_paths_stay(path, cwd, home);
    } else {
        law_relative_paths_lie_below(path, cwd, home);
    }
}

/// What is typed parts behind its last slash: the two parts are all of it, the
/// name holds no slash, and the directory is empty or ends in one.
pub proof fn law_prefixes_part_behind_the_last_slash(prefix: Seq<char>)
    ensures
        prefix_parts(prefix).0 + prefix_parts(prefix).1 == prefix,
        !prefix_parts(prefix).1.contains('/'),
        prefix_parts(prefix).0.len() > 0 ==> prefix_parts(prefix).0.last() == '/',
    decreases prefix.len(),
{
    lemma_parts_join(prefix);
    if prefix.len() > 0 && prefix.last() != '/' {
        law_prefixes_part_behind_the_last_slash(prefix.drop_last());
        let name = prefix_parts(prefix.drop_last()).1;
        assert forall|i: int| 0 <= i < name.push(prefix.last()).len() implies name.push(
            prefix.last(),
        )[i] != '/' by {
            if i < name.len() {
                assert(name.contains(name[i]));
            }
        }
    }
}

/// The directory that a completion lists: the working directory for a bare
/// name, the root behind a slash alone, and else what stands before the last
/// slashes, resolved as any path is.
pub proof fn law_completions_list_the_directory_typed(
    dir: Seq<char>,
    name: Seq<char>,
    cwd: Seq<char>,
    home: Option<Seq<char>>,
)
    requires
        !name.contains('/'),
        dir.len() > 0 && dir.last() != '/',
    ensures
        completion_dir(name, cwd, home) == cwd,
        completion_dir(seq!['/'] + name, cwd, home) == seq!['/'],
        completion_dir(dir + seq!['/'] + name, cwd, home) == resolved(dir, cwd, home),
        completion_dir(dir + seq!['/', '/'] + name, cwd, home) == resolved(dir, cwd, home),
{
    reveal_strlit("/");
    assert("/"@ =~= seq!['/']);
    assert forall|j: int| 0 <= j < name.len() implies name[j] != '/' by {
        assert(name.contains(name[j]));
    }
    lemma_prefix_parts(name, -1);
    assert(name.take(0) =~= Seq::empty());
    let root = seq!['/'] + name;
    assert forall|j: int| 0 < j < root.len() implies root[j] != '/' by {
        assert(root[j] == name[j - 1]);
    }
    lemma_prefix_parts(root, 0);
    assert(root.take(1) =~= seq!['/']);
    assert(seq!['/'].drop_last() =~= Seq::<char>::empty());
    assert(text::trim_end_char(seq!['/'], '/') == text::trim_end_char(Seq::empty(), '/'));
    let n = dir.len() as int;
    let once = dir + seq!['/'] + name;
    assert forall|j: int| n < j < once.len() implies once[j] != '/' by {
        assert(once[j] == name[j - n - 1]);
    }
    lemma_prefix_parts(once, n);
    assert(once.take(n + 1) =~= dir.push('/'));
    assert(dir.push('/').drop_last() =~= dir);
    assert(text::trim_end_char(dir.push('/'), '/') == text::trim_end_char(dir, '/'));
    let twice = dir + seq!['/', '/'] + name;
    assert forall|j: int| n + 1 < j < twice.len() implies twice[j] != '/' by {
        assert(twice[j] == name[j - n - 2]);
    }
    lemma_prefix_parts(twice, n + 1);
    assert(twice.take(n + 2) =~= dir.push('/').push('/'));
    assert(dir.push('/').push('/').drop_last() =~= dir.push('/'));
    assert(text::trim_end_char(dir.push('/').push('/'), '/') == text::trim_end_char(
        dir.push('/'),
        '/',
    ));
}

/// Whether an entry is offered for what is typed: its name begins with the
/// name typed, and where it is hidden the name typed begins with a dot too.
pub open spec fn is_offered(prefix: Seq<char>) -> spec_fn(DirRow) -> bool {
    |row: DirRow|
        {
            let name = prefix_parts(prefix).1;
            &&& name.len() <= row.name@.len()
            &&& row.name@.subrange(0, name.len() as int) == name
            &&& row.name@.len() > 0 && row.name@[0] == '.' ==> name.len() > 0 && name[0] == '.'
        }
}

/// A path offered for an entry: the directory typed and the name of the entry,
/// with a slash behind that of a directory.
pub open spec fn offer(prefix: Seq<char>) -> spec_fn(DirRow) -> Seq<char> {
    |row: DirRow|
        prefix_parts(prefix).0 + row.name@ + (if row.is_dir {
            seq!['/']
        } else {
            Seq::empty()
        })
}

proof fn lemma_offered(prefix: Seq<char>, row: DirRow)
    ensures
        completes(row.name@, prefix_parts(prefix).1) == is_offered(prefix)(row),
        candidate(prefix_parts(prefix).0, row) == offer(prefix)(row),
{
    reveal_strlit(".");
    reveal_strlit("/");
    assert("."@ =~= seq!['.']);
    assert("/"@ =~= seq!['/']);
    let name = prefix_parts(prefix).1;
    let full = row.name@;
    if name.len() <= full.len() {
        assert(full.take(name.len() as int) =~= full.subrange(0, name.len() as int));
    }
    if full.len() > 0 {
        assert(full.take(1)[0] == full[0]);
        if full[0] == '.' {
            assert(full.take(1) =~= "."@);
        }
    }
    if name.len() > 0 {
        assert(name.take(1)[0] == name[0]);
        if name[0] == '.' {
            assert(name.take(1) =~= "."@);
        }
    }
    assert(candidate(prefix_parts(prefix).0, row) =~= offer(prefix)(row));
}

proof fn lemma_candidates_are_offers(prefix: Seq<char>, rows: Seq<DirRow>, k: int)
    requires
        0 <= k <= rows.len(),
    ensures
        candidates(prefix, rows, k) == rows.take(k).filter(is_offered(prefix)).map_values(
            offer(prefix),
        ),
    decreases k,
{
    if k > 0 {
        lemma_candidates_are_offers(prefix, rows, k - 1);
        let row = rows[k - 1];
        lemma_offered(prefix, row);
        assert(rows.take(k) =~= rows.take(k - 1).push(row));
        sort::lemma_filter_last(rows.take(k - 1), row, is_offered(prefix));
        assert(candidates(prefix, rows, k) =~= rows.take(k).filter(is_offered(prefix)).map_values(
            offer(prefix),
        ));
    } else {
        assert(rows.take(0) =~= Seq::empty());
        sort::lemma_filter_empty(is_offered(prefix));
        assert(candidates(prefix, rows, k) =~= rows.take(0).filter(
            is_offered(prefix),
        ).map_values(offer(prefix)));
    }
}

/// Every entry that completes what is typed is offered once, up to three
/// hundred; beyond that the first ones by their order are.
pub proof fn law_every_completion_is_offered(prefix: Seq<char>, rows: Seq<DirRow>)
    ensures
        ({
            let offers = rows.filter(is_offered(prefix)).map_values(offer(prefix));
            let given = completions(prefix, rows);
            &&& given.len() == if offers.len() <= 300 {
                offers.len()
            } else {
                300
            }
            &&& offers.len() <= 300 ==> given.to_multiset() == offers.to_multiset()
            &&& exists|rest: Seq<Seq<char>>|
                (#[trigger] (given + rest)).to_multiset() == offers.to_multiset() && forall|
                    i: int,
                    j: int,
                |
                    0 <= i < given.len() && 0 <= j < rest.len() ==> text::lex_le(
                        #[trigger] given[i],
                        #[trigger] rest[j],
                    )
        }),
{
    let found = candidates(prefix, rows, rows.len() as int);
    lemma_candidates_are_offers(prefix, rows, rows.len() as int);
    assert(rows.take(rows.len() as int) =~= rows);
    let all = sort::sorted(found, by_text());
    sort::law_sorted_is_permutation(found, by_text());
    sort::lemma_sorted_len(found, by_text());
    assert(sort::is_ranking(by_text())) by {
        let le = by_text();
        assert forall|a: Seq<char>, b: Seq<char>| (#[trigger] le(a, b)) || le(b, a) by {
            text::lemma_lex_total(a, b);
        }
        assert forall|a: Seq<char>, b: Seq<char>, c: Seq<char>|
            #[trigger] le(a, b) && #[trigger] le(b, c) implies le(a, c) by {
            text::lemma_lex_transitive(a, b, c);
        }
    }
    sort::law_sorted_is_in_order(found, by_text());
    let given = completions(prefix, rows);
    let n = given.len() as int;
    let rest = all.skip(n);
    assert(given + rest =~= all);
    assert forall|i: int, j: int| 0 <= i < given.len() && 0 <= j < rest.len() implies text::lex_le(
        #[trigger] given[i],
        #[trigger] rest[j],
    ) by {
        assert(given[i] == all[i] && rest[j] == all[n + j]);
        assert(by_text()(all[i], all[n + j]));
    }
    if found.len() <= 300 {
        assert(given =~= all);
    }
}

/// An entry is listed under its name; it counts as a directory where it is
/// one, or where it is a link that leads to one, and what could not be found
/// out counts as no.
pub proof fn law_entries_are_listed_as_found(e: FoundEntry)
    ensures
        listed(e).name == e.name@,
        listed(e).is_symlink <==> e.is_symlink == Some(true),
        e.is_symlink == Some(true) ==> (listed(e).is_dir <==> e.target_is_dir == Some(true)),
        e.is_symlink != Some(true) ==> (listed(e).is_dir <==> e.is_dir == Some(true)),
{
}

/// Every entry that was found is listed, in the order in which it was found.
pub proof fn law_every_entry_is_listed(found: Seq<FoundEntry>, e: FoundEntry)
    ensures
        listed_all(found.push(e)) == listed_all(found).push(listed(e)),
        listed_all(Seq::empty()).len() == 0,
{
    assert(listed_all(found.push(e)) =~= listed_all(found).push(listed(e)));
}

} // verus!
