//! The sections of the unified diff that closes a report: which texts are
//! compared, and under which names.

use crate::apply_patch::hunk;
use crate::apply_patch::hunk::{HunkView, PatchHunk};
use crate::apply_patch::report::{hunk_dest, hunk_path};
use crate::sort;
use crate::text;
use crate::text::{list_contains, owned, str_eq, str_le};
use vstd::prelude::*;

verus! {

// ---------------------------------------------------------------------------
// The paths of a patch
// ---------------------------------------------------------------------------

/// Whether a hunk names a path, as its own or as its destination.
pub open spec fn names(h: HunkView, path: Seq<char>) -> bool {
    hunk::path_of(h) == path || (h is Update && h->move_to == Some(path))
}

/// Whether some hunk names a path.
pub open spec fn is_named(hunks: Seq<HunkView>, path: Seq<char>) -> bool {
    exists|i: int| 0 <= i < hunks.len() && names(#[trigger] hunks[i], path)
}

/// Whether paths stand in order, none twice.
pub open spec fn is_strictly_sorted(paths: Seq<Seq<char>>) -> bool {
    forall|i: int, j: int|
        0 <= i < j < paths.len() ==> text::lex_le(#[trigger] paths[i], #[trigger] paths[j])
            && paths[i] != paths[j]
}

/// Puts a path in its place, where it is not there yet.
fn add_path(paths: &mut Vec<String>, path: &str)
    requires
        is_strictly_sorted(text::texts(old(paths)@)),
    ensures
        is_strictly_sorted(text::texts(final(paths)@)),
        forall|p: Seq<char>| #[trigger]
            text::texts(final(paths)@).contains(p) <==> (p == path@ || text::texts(
                old(paths)@,
            ).contains(p)),
{
    let ghost before = text::texts(paths@);
    let mut k: usize = 0;
    while k < paths.len() && !str_le(path, paths[k].as_str())
        invariant
            k <= paths@.len(),
            before == text::texts(paths@),
            forall|i: int| 0 <= i < k ==> !text::lex_le(path@, #[trigger] before[i]),
        decreases paths@.len() - k,
    {
        k = k + 1;
    }
    if k < paths.len() && str_eq(path, paths[k].as_str()) {
        assert(before[k as int] == path@);
        return;
    }
    let new = owned(path);
    paths.insert(k, new);
    proof {
        let after = text::texts(paths@);
        assert(after =~= before.insert(k as int, path@));
        assert forall|i: int, j: int| 0 <= i < j < after.len() implies text::lex_le(
            #[trigger] after[i],
            #[trigger] after[j],
        ) && after[i] != after[j] by {
            let a = if i < k {
                i
            } else {
                i - 1
            };
            let b = if j < k {
                j
            } else {
                j - 1
            };
            if i != k && j != k {
                assert(after[i] == before[a] && after[j] == before[b]);
            } else if j == k {
                assert(after[i] == before[i]);
                text::lemma_lex_total(path@, before[i]);
            } else {
                assert(after[j] == before[b]);
                if b > k {
                    assert(text::lex_le(before[k as int], before[b]));
                    text::lemma_lex_transitive(path@, before[k as int], before[b]);
                    if path@ == before[b] {
                        text::lemma_lex_total(before[k as int], before[b]);
                    }
                }
            }
        }
        assert forall|p: Seq<char>| #[trigger] after.contains(p) <==> (p == path@
            || before.contains(p)) by {
            if after.contains(p) {
                let i = choose|i: int| 0 <= i < after.len() && after[i] == p;
                if i < k {
                    assert(before[i] == p);
                } else if i > k {
                    assert(before[i - 1] == p);
                }
            }
            if before.contains(p) {
                let i = choose|i: int| 0 <= i < before.len() && before[i] == p;
                if i < k {
                    assert(after[i] == p);
                } else {
                    assert(after[i + 1] == p);
                }
            }
            if p == path@ {
                assert(after[k as int] == p);
            }
        }
    }
}

/// The paths that a patch names, in order, each once.
pub fn patch_paths(hunks: &Vec<PatchHunk>) -> (r: Vec<String>)
    ensures
        is_strictly_sorted(text::texts(r@)),
        forall|p: Seq<char>| #[trigger]
            text::texts(r@).contains(p) <==> is_named(hunk::hunk_views(hunks@), p),
{
    let ghost hs = hunk::hunk_views(hunks@);
    let mut r: Vec<String> = Vec::new();
    let mut k: usize = 0;
    while k < hunks.len()
        invariant
            k <= hunks@.len(),
            hs == hunk::hunk_views(hunks@),
            is_strictly_sorted(text::texts(r@)),
            forall|p: Seq<char>| #[trigger]
                text::texts(r@).contains(p) <==> is_named(hs.take(k as int), p),
        decreases hunks@.len() - k,
    {
        let h = &hunks[k];
        assert(hs[k as int] == h@);
        let ghost before = text::texts(r@);
        add_path(&mut r, hunk_path(h));
        if let Some(dest) = hunk_dest(h) {
            add_path(&mut r, dest);
        }
        proof {
            assert forall|p: Seq<char>| #[trigger] text::texts(r@).contains(p) <==> is_named(
                hs.take(k + 1),
                p,
            ) by {
                assert(text::texts(r@).contains(p) <==> (before.contains(p) || names(h@, p)));
                if is_named(hs.take(k + 1), p) {
                    let i = choose|i: int|
                        0 <= i < hs.take(k + 1).len() && names(#[trigger] hs.take(k + 1)[i], p);
                    if i < k {
                        assert(names(hs.take(k as int)[i], p));
                    }
                }
                if before.contains(p) {
                    let i = choose|i: int|
                        0 <= i < hs.take(k as int).len() && names(
                            #[trigger] hs.take(k as int)[i],
                            p,
                        );
                    assert(names(hs.take(k + 1)[i], p));
                }
                if names(h@, p) {
                    assert(names(hs.take(k + 1)[k as int], p));
                }
            }
        }
        k = k + 1;
    }
    assert(hs.take(hs.len() as int) =~= hs);
    r
}

// ---------------------------------------------------------------------------
// Sections
// ---------------------------------------------------------------------------

/// A file as it was found: whether it was there, and its text.
#[derive(Debug)]
pub struct Snapshot {
    pub exists: bool,
    pub text: String,
}

/// A path and what was found there before and after the run; nothing where it
/// could not be read as text.
#[derive(Debug)]
pub struct FileState {
    pub path: String,
    pub before: Option<Snapshot>,
    pub after: Option<Snapshot>,
}

/// What a [`FileState`] stands for.
#[verifier::ext_equal]
pub struct StateView {
    pub path: Seq<char>,
    pub before: Option<(bool, Seq<char>)>,
    pub after: Option<(bool, Seq<char>)>,
}

/// What an optional [`Snapshot`] stands for.
pub open spec fn snapshot_view(s: Option<Snapshot>) -> Option<(bool, Seq<char>)> {
    match s {
        Some(s) => Some((s.exists, s.text@)),
        None => None,
    }
}

impl View for FileState {
    type V = StateView;

    open spec fn view(&self) -> StateView {
        StateView {
            path: self.path@,
            before: snapshot_view(self.before),
            after: snapshot_view(self.after),
        }
    }
}

/// What a list of [`FileState`] stands for.
pub open spec fn state_views(states: Seq<FileState>) -> Seq<StateView> {
    Seq::new(states.len(), |i: int| states[i]@)
}

/// Two texts to compare and the names to give them.
#[derive(Debug)]
pub struct DiffSection {
    pub from: String,
    pub to: String,
    pub old: String,
    pub new: String,
}

/// What a [`DiffSection`] stands for.
#[verifier::ext_equal]
pub struct SectionView {
    pub from: Seq<char>,
    pub to: Seq<char>,
    pub old: Seq<char>,
    pub new: Seq<char>,
}

impl View for DiffSection {
    type V = SectionView;

    open spec fn view(&self) -> SectionView {
        SectionView { from: self.from@, to: self.to@, old: self.old@, new: self.new@ }
    }
}

/// What a list of [`DiffSection`] stands for.
pub open spec fn section_views(sections: Seq<DiffSection>) -> Seq<SectionView> {
    Seq::new(sections.len(), |i: int| sections[i]@)
}

/// The state of a path, from the `k`-th state on.
pub open spec fn state_of(states: Seq<StateView>, path: Seq<char>, k: int) -> Option<StateView>
    decreases states.len() - k,
{
    if k >= states.len() {
        None
    } else if states[k].path == path {
        Some(states[k])
    } else {
        state_of(states, path, k + 1)
    }
}

/// The section of a move to a new path: the source was there and is gone, the
/// destination was not there and is.
pub open spec fn move_section(source: StateView, dest: StateView) -> Option<SectionView> {
    match (source.before, dest.before, source.after, dest.after) {
        (Some((true, old)), Some((false, _)), Some((false, _)), Some((true, new))) => Some(
            SectionView { from: source.path, to: dest.path, old, new },
        ),
        _ => None,
    }
}

/// The section that a hunk gives, where it is a plain move of paths that no
/// earlier section is about.
pub open spec fn hunk_section(h: HunkView, states: Seq<StateView>, taken: Seq<Seq<char>>) -> Option<
    SectionView,
> {
    match h {
        HunkView::Update { path, move_to: Some(dest), .. } => match (
            state_of(states, path, 0),
            state_of(states, dest, 0),
        ) {
            (Some(source), Some(target)) => if taken.contains(path) || taken.contains(dest) {
                None
            } else {
                move_section(source, target)
            },
            _ => None,
        },
        _ => None,
    }
}

/// `done` with the sections of the moves from the `k`-th hunk on, and the
/// paths that they are about.
pub open spec fn move_sections(
    hunks: Seq<HunkView>,
    states: Seq<StateView>,
    k: int,
    done: Seq<SectionView>,
    taken: Seq<Seq<char>>,
) -> (Seq<SectionView>, Seq<Seq<char>>)
    decreases hunks.len() - k,
{
    if k >= hunks.len() {
        (done, taken)
    } else {
        match hunk_section(hunks[k], states, taken) {
            Some(s) => move_sections(
                hunks,
                states,
                k + 1,
                done.push(s),
                taken.push(s.from).push(s.to),
            ),
            None => move_sections(hunks, states, k + 1, done, taken),
        }
    }
}

/// The name of a side: the path, or the null device where only the other side
/// is there.
pub open spec fn side_name(path: Seq<char>, here: bool, there: bool) -> Seq<char> {
    if here || !there {
        path
    } else {
        "/dev/null"@
    }
}

/// The section of one path, where both sides are known.
pub open spec fn path_section(state: StateView) -> Option<SectionView> {
    match (state.before, state.after) {
        (Some((was, old)), Some((is_now, new))) => Some(
            SectionView {
                from: side_name(state.path, was, is_now),
                to: side_name(state.path, is_now, was),
                old,
                new,
            },
        ),
        _ => None,
    }
}

/// `done` with the sections of the paths from the `k`-th on that are not
/// `taken`.
pub open spec fn path_sections(
    states: Seq<StateView>,
    k: int,
    done: Seq<SectionView>,
    taken: Seq<Seq<char>>,
) -> Seq<SectionView>
    decreases states.len() - k,
{
    if k >= states.len() {
        done
    } else if taken.contains(states[k].path) {
        path_sections(states, k + 1, done, taken)
    } else {
        match path_section(states[k]) {
            Some(s) => path_sections(states, k + 1, done.push(s), taken),
            None => path_sections(states, k + 1, done, taken),
        }
    }
}

/// The sections of a run: plain moves first, then every other path.
pub open spec fn sections(hunks: Seq<HunkView>, states: Seq<StateView>) -> Seq<SectionView> {
    let moved = move_sections(hunks, states, 0, Seq::empty(), Seq::empty());
    path_sections(states, 0, moved.0, moved.1)
}

/// The state of a path.
fn find_state<'a>(states: &'a Vec<FileState>, path: &str) -> (r: Option<&'a FileState>)
    ensures
        match r {
            Some(s) => state_of(state_views(states@), path@, 0) == Some(s@) && s@.path == path@,
            None => state_of(state_views(states@), path@, 0) is None,
        },
{
    let mut k: usize = 0;
    while k < states.len()
        invariant
            k <= states@.len(),
            state_of(state_views(states@), path@, 0) == state_of(
                state_views(states@),
                path@,
                k as int,
            ),
        decreases states@.len() - k,
    {
        assert(state_views(states@)[k as int] == states@[k as int]@);
        if str_eq(states[k].path.as_str(), path) {
            return Some(&states[k]);
        }
        k = k + 1;
    }
    None
}

/// The section of a move to a new path.
fn section_of_move(source: &FileState, dest: &FileState) -> (r: Option<DiffSection>)
    ensures
        match r {
            Some(s) => move_section(source@, dest@) == Some(s@),
            None => move_section(source@, dest@) is None,
        },
{
    match (&source.before, &dest.before, &source.after, &dest.after) {
        (Some(a), Some(b), Some(c), Some(d)) => {
            if a.exists && !b.exists && !c.exists && d.exists {
                Some(
                    DiffSection {
                        from: owned(source.path.as_str()),
                        to: owned(dest.path.as_str()),
                        old: owned(a.text.as_str()),
                        new: owned(d.text.as_str()),
                    },
                )
            } else {
                None
            }
        },
        _ => None,
    }
}

/// The section that a hunk gives.
fn section_of_hunk(h: &PatchHunk, states: &Vec<FileState>, taken: &Vec<String>) -> (r: Option<
    DiffSection,
>)
    ensures
        match r {
            Some(s) => hunk_section(h@, state_views(states@), text::texts(taken@)) == Some(s@),
            None => hunk_section(h@, state_views(states@), text::texts(taken@)) is None,
        },
{
    match h {
        PatchHunk::UpdateFile { path, move_to: Some(dest), .. } => {
            match (find_state(states, path.as_str()), find_state(states, dest.as_str())) {
                (Some(source), Some(target)) => {
                    if list_contains(taken, path.as_str()) || list_contains(taken, dest.as_str()) {
                        None
                    } else {
                        section_of_move(source, target)
                    }
                },
                _ => None,
            }
        },
        _ => None,
    }
}

/// The name of a side.
fn name_side(path: &str, here: bool, there: bool) -> (r: String)
    ensures
        r@ == side_name(path@, here, there),
{
    if here || !there {
        owned(path)
    } else {
        owned("/dev/null")
    }
}

/// The section of one path.
fn section_of_path(state: &FileState) -> (r: Option<DiffSection>)
    ensures
        match r {
            Some(s) => path_section(state@) == Some(s@),
            None => path_section(state@) is None,
        },
{
    match (&state.before, &state.after) {
        (Some(a), Some(b)) => Some(
            DiffSection {
                from: name_side(state.path.as_str(), a.exists, b.exists),
                to: name_side(state.path.as_str(), b.exists, a.exists),
                old: owned(a.text.as_str()),
                new: owned(b.text.as_str()),
            },
        ),
        _ => None,
    }
}

/// The sections of a run.
pub fn diff_sections(hunks: &Vec<PatchHunk>, states: &Vec<FileState>) -> (r: Vec<DiffSection>)
    ensures
        section_views(r@) == sections(hunk::hunk_views(hunks@), state_views(states@)),
{
    let ghost hs = hunk::hunk_views(hunks@);
    let ghost ss = state_views(states@);
    let ghost moved = move_sections(hs, ss, 0, Seq::empty(), Seq::empty());
    let mut r: Vec<DiffSection> = Vec::new();
    let mut taken: Vec<String> = Vec::new();
    assert(section_views(r@) =~= Seq::<SectionView>::empty());
    assert(text::texts(taken@) =~= Seq::<Seq<char>>::empty());
    let mut k: usize = 0;
    while k < hunks.len()
        invariant
            k <= hunks@.len(),
            hs == hunk::hunk_views(hunks@),
            ss == state_views(states@),
            moved == move_sections(hs, ss, k as int, section_views(r@), text::texts(taken@)),
        decreases hunks@.len() - k,
    {
        assert(hs[k as int] == hunks@[k as int]@);
        if let Some(s) = section_of_hunk(&hunks[k], states, &taken) {
            let from = owned(s.from.as_str());
            let to = owned(s.to.as_str());
            proof {
                text::lemma_texts_push(taken@, from);
                text::lemma_texts_push(taken@.push(from), to);
                assert(section_views(r@.push(s)) =~= section_views(r@).push(s@));
            }
            taken.push(from);
            taken.push(to);
            r.push(s);
        }
        k = k + 1;
    }
    let mut i: usize = 0;
    while i < states.len()
        invariant
            i <= states@.len(),
            ss == state_views(states@),
            moved.1 == text::texts(taken@),
            path_sections(ss, 0, moved.0, moved.1) == path_sections(
                ss,
                i as int,
                section_views(r@),
                moved.1,
            ),
        decreases states@.len() - i,
    {
        assert(ss[i as int] == states@[i as int]@);
        if !list_contains(&taken, states[i].path.as_str()) {
            if let Some(s) = section_of_path(&states[i]) {
                proof {
                    assert(section_views(r@.push(s)) =~= section_views(r@).push(s@));
                }
                r.push(s);
            }
        }
        i = i + 1;
    }
    r
}

// ---------------------------------------------------------------------------
// Laws
// ---------------------------------------------------------------------------

/// Whether a file has a section under its own path: both of its texts are
/// known, and it is not part of a move that has one.
pub open spec fn has_own_section(taken: Seq<Seq<char>>) -> spec_fn(StateView) -> bool {
    |state: StateView|
        state.before is Some && state.after is Some && !taken.contains(state.path)
}

/// The section of a file under its own path.
pub open spec fn own_section() -> spec_fn(StateView) -> SectionView {
    |state: StateView| path_section(state)->0
}

proof fn lemma_path_sections(
    states: Seq<StateView>,
    k: int,
    done: Seq<SectionView>,
    taken: Seq<Seq<char>>,
)
    requires
        0 <= k <= states.len(),
    ensures
        path_sections(states, k, done, taken) == done + states.skip(k).filter(
            has_own_section(taken),
        ).map_values(own_section()),
    decreases states.len() - k,
{
    let p = has_own_section(taken);
    if k < states.len() {
        sort::lemma_filter_first(states.skip(k), p);
        assert(states.skip(k).drop_first() =~= states.skip(k + 1));
        assert(states.skip(k)[0] == states[k]);
        let rest = states.skip(k + 1).filter(p).map_values(own_section());
        if taken.contains(states[k].path) || path_section(states[k]) is None {
            lemma_path_sections(states, k + 1, done, taken);
            assert(states.skip(k).filter(p) =~= states.skip(k + 1).filter(p));
        } else {
            let s = path_section(states[k])->0;
            lemma_path_sections(states, k + 1, done.push(s), taken);
            assert(states.skip(k).filter(p).map_values(own_section()) =~= seq![s] + rest);
            assert(done.push(s) + rest =~= done + (seq![s] + rest));
        }
    } else {
        assert(states.skip(k) =~= Seq::empty());
        sort::lemma_filter_empty(p);
        assert(done + states.skip(k).filter(p).map_values(own_section()) =~= done);
    }
}

/// A diff has the sections of the moves first, then one for each file of which
/// both texts are known and that no move took, in order.
pub proof fn law_every_known_file_has_one_section(hunks: Seq<HunkView>, states: Seq<StateView>)
    ensures
        ({
            let (moves, taken) = move_sections(hunks, states, 0, Seq::empty(), Seq::empty());
            sections(hunks, states) == moves + states.filter(has_own_section(taken)).map_values(
                own_section(),
            )
        }),
{
    let (moves, taken) = move_sections(hunks, states, 0, Seq::empty(), Seq::empty());
    lemma_path_sections(states, 0, moves, taken);
    assert(states.skip(0) =~= states);
}

/// A section compares the text before with the text after. The side where the
/// file was not there is named `/dev/null` where the other side has it, and
/// every other side bears the path.
pub proof fn law_sections_compare_before_with_after(
    path: Seq<char>,
    was: bool,
    old: Seq<char>,
    is_now: bool,
    new: Seq<char>,
)
    ensures
        ({
            let state = StateView { path, before: Some((was, old)), after: Some((is_now, new)) };
            &&& path_section(state) matches Some(s)
            &&& s.old == old && s.new == new
            &&& s.from == if !was && is_now {
                "/dev/null"@
            } else {
                path
            }
            &&& s.to == if was && !is_now {
                "/dev/null"@
            } else {
                path
            }
        }),
{
}

/// A file of which a text is not known has no section.
pub proof fn law_unknown_files_have_no_section(state: StateView)
    ensures
        path_section(state) is Some <==> state.before is Some && state.after is Some,
{
}

/// Whether a section is that of a move: the source was there and is gone, the
/// destination was not there and is, and the texts are those of the source
/// before and of the destination after.
pub open spec fn is_move_section(s: SectionView, source: StateView, dest: StateView) -> bool {
    &&& s.from == source.path && s.to == dest.path
    &&& source.before == Some((true, s.old))
    &&& dest.after == Some((true, s.new))
    &&& source.after matches Some((still, _)) && !still
    &&& dest.before matches Some((was, _)) && !was
}

/// Two files are told as one move exactly where one was there and is gone and
/// the other was not there and is.
pub proof fn law_moves_are_told_as_one(source: StateView, dest: StateView)
    ensures
        move_section(source, dest) matches Some(s) ==> is_move_section(s, source, dest),
        (source.before matches Some((was, _)) && was) && (source.after matches Some((is_now, _))
            && !is_now) && (dest.before matches Some((old_there, _)) && !old_there) && (
        dest.after matches Some((new_there, _)) && new_there) ==> move_section(
            source,
            dest,
        ) is Some,
{
}

proof fn lemma_state_of(states: Seq<StateView>, path: Seq<char>, k: int)
    requires
        0 <= k,
    ensures
        match state_of(states, path, k) {
            Some(state) => state.path == path && states.contains(state) && exists|i: int|
                k <= i < states.len() && states[i] == state && forall|j: int|
                    k <= j < i ==> (#[trigger] states[j]).path != path,
            None => forall|i: int| k <= i < states.len() ==> (#[trigger] states[i]).path != path,
        },
    decreases states.len() - k,
{
    if k < states.len() {
        if states[k].path == path {
            assert(states.contains(states[k]));
        } else {
            lemma_state_of(states, path, k + 1);
            if let Some(state) = state_of(states, path, k) {
                let i = choose|i: int|
                    k + 1 <= i < states.len() && states[i] == state && forall|j: int|
                        k + 1 <= j < i ==> (#[trigger] states[j]).path != path;
                assert(states[i] == state);
            }
        }
    }
}

/// What is known of a path is the first state under it, where there is one.
pub proof fn law_states_are_found_by_path(states: Seq<StateView>, path: Seq<char>)
    ensures
        match state_of(states, path, 0) {
            Some(state) => state.path == path && states.contains(state),
            None => forall|i: int| 0 <= i < states.len() ==> (#[trigger] states[i]).path != path,
        },
{
    lemma_state_of(states, path, 0);
}

/// Whether a section is the move that some hunk asked for.
pub open spec fn is_asked_for(s: SectionView, hunks: Seq<HunkView>, states: Seq<StateView>) -> bool {
    exists|i: int|
        0 <= i < hunks.len() && (#[trigger] hunks[i]) is Update && hunk::path_of(hunks[i]) == s.from
            && hunks[i]->move_to == Some(s.to) && (state_of(
            states,
            s.from,
            0,
        ) matches Some(source) && (state_of(states, s.to, 0) matches Some(dest)
            && is_move_section(s, source, dest)))
}

proof fn lemma_move_sections(
    hunks: Seq<HunkView>,
    states: Seq<StateView>,
    k: int,
    done: Seq<SectionView>,
    taken: Seq<Seq<char>>,
)
    requires
        0 <= k <= hunks.len(),
        taken.len() == 2 * done.len(),
        forall|i: int| 0 <= i < done.len() ==> is_asked_for(#[trigger] done[i], hunks, states),
        forall|i: int| #![trigger done[i]]
            0 <= i < done.len() ==> taken[2 * i] == done[i].from && taken[2 * i + 1]
                == done[i].to,
        forall|i: int, j: int|
            0 <= i < taken.len() && 0 <= j < taken.len() && i / 2 != j / 2 ==> #[trigger] taken[i]
                != #[trigger] taken[j],
    ensures
        ({
            let (moves, all) = move_sections(hunks, states, k, done, taken);
            &&& all.len() == 2 * moves.len()
            &&& forall|i: int|
                0 <= i < moves.len() ==> is_asked_for(#[trigger] moves[i], hunks, states)
            &&& forall|i: int| #![trigger moves[i]]
                0 <= i < moves.len() ==> all[2 * i] == moves[i].from && all[2 * i + 1]
                    == moves[i].to
            &&& forall|i: int, j: int|
                0 <= i < all.len() && 0 <= j < all.len() && i / 2 != j / 2 ==> #[trigger] all[i]
                    != #[trigger] all[j]
        }),
    decreases hunks.len() - k,
{
    if k < hunks.len() {
        if let Some(s) = hunk_section(hunks[k], states, taken) {
            let more = done.push(s);
            let further = taken.push(s.from).push(s.to);
            let path = hunk::path_of(hunks[k]);
            lemma_state_of(states, path, 0);
            lemma_state_of(states, hunks[k]->move_to->0, 0);
            let source = state_of(states, path, 0)->0;
            let dest = state_of(states, hunks[k]->move_to->0, 0)->0;
            law_moves_are_told_as_one(source, dest);
            assert(is_asked_for(s, hunks, states));
            assert forall|i: int| 0 <= i < more.len() implies is_asked_for(
                #[trigger] more[i],
                hunks,
                states,
            ) by {
                if i < done.len() {
                    assert(more[i] == done[i]);
                }
            }
            assert forall|i: int| #![trigger more[i]] 0 <= i < more.len() implies further[2 * i]
                == more[i].from && further[2 * i + 1] == more[i].to by {
                if i < done.len() {
                    assert(more[i] == done[i]);
                    assert(further[2 * i] == taken[2 * i]);
                    assert(further[2 * i + 1] == taken[2 * i + 1]);
                }
            }
            assert forall|i: int, j: int|
                0 <= i < further.len() && 0 <= j < further.len() && i / 2 != j
                    / 2 implies #[trigger] further[i] != #[trigger] further[j] by {
                let n = taken.len() as int;
                if i < n && j < n {
                    assert(further[i] == taken[i] && further[j] == taken[j]);
                } else if i < n {
                    assert(further[i] == taken[i]);
                    assert(taken.contains(taken[i]));
                } else if j < n {
                    assert(further[j] == taken[j]);
                    assert(taken.contains(taken[j]));
                }
            }
            lemma_move_sections(hunks, states, k + 1, more, further);
        } else {
            lemma_move_sections(hunks, states, k + 1, done, taken);
        }
    }
}

/// Each move told is one that a hunk asked for and that the files bear out,
/// and no file is part of two.
pub proof fn law_moves_told_were_asked_for(hunks: Seq<HunkView>, states: Seq<StateView>)
    ensures
        ({
            let (moves, taken) = move_sections(hunks, states, 0, Seq::empty(), Seq::empty());
            &&& taken.len() == 2 * moves.len()
            &&& forall|i: int|
                0 <= i < moves.len() ==> is_asked_for(#[trigger] moves[i], hunks, states)
            &&& forall|i: int| #![trigger moves[i]]
                0 <= i < moves.len() ==> taken[2 * i] == moves[i].from && taken[2 * i + 1]
                    == moves[i].to
            &&& forall|i: int, j: int|
                0 <= i < taken.len() && 0 <= j < taken.len() && i / 2 != j
                    / 2 ==> #[trigger] taken[i] != #[trigger] taken[j]
        }),
{
    lemma_move_sections(hunks, states, 0, Seq::empty(), Seq::empty());
}

/// A single move is always told where the files bear it out.
pub proof fn law_a_move_is_told(h: HunkView, states: Seq<StateView>, source: StateView, dest: StateView)
    requires
        h is Update,
        h->move_to is Some,
        state_of(states, hunk::path_of(h), 0) == Some(source),
        state_of(states, h->move_to->0, 0) == Some(dest),
    ensures
        hunk_section(h, states, Seq::empty()) == move_section(source, dest),
{
}

} // verus!
