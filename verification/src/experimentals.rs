//! Experimental features by model: tags in the configuration transform the
//! tools that a session sees.
//!
//! The transform can be run on every request: it changes nothing where
//! nothing is to be changed, and a switch of models takes effect with the
//! next one.

use crate::sort;
use crate::text;
use crate::text::{cat5, list_contains, owned, str_eq};
use crate::text_map::TextMap;
use vstd::prelude::*;

pub mod tool_apply_patch;
pub mod tool_apply_patch_compat;
pub mod tool_ask_user_question;

verus! {

/// The tools that the transform deals with.
#[derive(Debug, Clone, Copy, PartialEq, Eq, Structural)]
pub enum ToolKind {
    Edit,
    MultiEdit,
    Write,
    Patch,
    ApplyPatch,
    ApplyPatchFreeform,
    AskUserQuestion,
    /// Any other tool, by a number of the caller's.
    Other { number: u64 },
}

/// The tools of a session, by name.
pub type ToolMap = TextMap<ToolKind>;

/// The name of the tool that edits in one place.
pub const EDIT: &'static str = "edit";

/// The name of the tool that edits in several places.
pub const MULTIEDIT: &'static str = "multiedit";

/// The name of the tool that writes files.
pub const WRITE: &'static str = "write";

/// The name of the tool that takes unified diffs.
pub const PATCH: &'static str = "patch";

/// The names of the built-in editing tools, which `apply_patch` replaces.
pub fn edit_family_tools() -> (r: [&'static str; 4])
    ensures
        r@ == seq![EDIT, MULTIEDIT, WRITE, PATCH],
{
    let r = [EDIT, MULTIEDIT, WRITE, PATCH];
    assert(r@ =~= seq![EDIT, MULTIEDIT, WRITE, PATCH]);
    r
}

/// Whether a name is that of a built-in editing tool.
pub open spec fn is_edit_name(name: Seq<char>) -> bool {
    name == EDIT@ || name == MULTIEDIT@ || name == WRITE@ || name == PATCH@
}

/// The built-in editing tool of a name.
pub open spec fn edit_kind(name: Seq<char>) -> ToolKind {
    if name == EDIT@ {
        ToolKind::Edit
    } else if name == MULTIEDIT@ {
        ToolKind::MultiEdit
    } else if name == WRITE@ {
        ToolKind::Write
    } else {
        ToolKind::Patch
    }
}

/// The built-in editing tool of a name, where it is one.
pub fn edit_family_tool(name: &str) -> (r: Option<ToolKind>)
    ensures
        r == (if is_edit_name(name@) {
            Some(edit_kind(name@))
        } else {
            None::<ToolKind>
        }),
{
    if str_eq(name, EDIT) {
        Some(ToolKind::Edit)
    } else if str_eq(name, MULTIEDIT) {
        Some(ToolKind::MultiEdit)
    } else if str_eq(name, WRITE) {
        Some(ToolKind::Write)
    } else if str_eq(name, PATCH) {
        Some(ToolKind::Patch)
    } else {
        None
    }
}

/// Whether a tag is set.
pub open spec fn has_tag(tags: Seq<String>, tag: Seq<char>) -> bool {
    text::texts(tags).contains(tag)
}

/// Whether both variants of `apply_patch` are asked for.
pub open spec fn is_conflict(tags: Seq<String>) -> bool {
    has_tag(tags, tool_apply_patch::TAG@) && has_tag(tags, tool_apply_patch_compat::TAG@)
}

/// Whether one variant of `apply_patch` is asked for, and not the other.
pub open spec fn wants_patches(tags: Seq<String>) -> bool {
    (has_tag(tags, tool_apply_patch::TAG@) || has_tag(tags, tool_apply_patch_compat::TAG@))
        && !is_conflict(tags)
}

/// What is told of a configuration that asks for both variants.
pub open spec fn conflict_message() -> Seq<char> {
    "Configuration error: `experimentals` lists both '"@ + tool_apply_patch::TAG@ + "' and '"@
        + tool_apply_patch_compat::TAG@
        + "' on the active model. The two apply_patch variants are mutually exclusive; neither was enabled and the built-in editing tools remain available. Remove one tag to fix this."@
}

/// What is told of a configuration that asks for both variants.
pub fn patch_tag_conflict(tags: &Vec<String>) -> (r: Option<String>)
    ensures
        text::opt_text(r) == (if is_conflict(tags@) {
            Some(conflict_message())
        } else {
            None::<Seq<char>>
        }),
{
    if list_contains(tags, tool_apply_patch::TAG) && list_contains(
        tags,
        tool_apply_patch_compat::TAG,
    ) {
        Some(
            cat5(
                "Configuration error: `experimentals` lists both '",
                tool_apply_patch::TAG,
                "' and '",
                tool_apply_patch_compat::TAG,
                "' on the active model. The two apply_patch variants are mutually exclusive; neither was enabled and the built-in editing tools remain available. Remove one tag to fix this.",
            ),
        )
    } else {
        None
    }
}

/// Whether a tag is known.
pub open spec fn is_known(tag: Seq<char>) -> bool {
    tag == tool_apply_patch::TAG@ || tag == tool_apply_patch_compat::TAG@ || tag
        == tool_ask_user_question::TAG@
}

/// Files a tool under a name; says whether that changed anything.
pub(crate) fn register(tools: &mut ToolMap, name: &str, kind: ToolKind) -> (changed: bool)
    ensures
        final(tools)@ == old(tools)@.insert(name@, kind),
        changed == !(old(tools)@.dom().contains(name@) && old(tools)@[name@] == kind),
{
    let ghost before = tools@;
    if let Some(filed) = tools.get(name) {
        if *filed == kind {
            assert(before.insert(name@, kind) =~= before);
            return false;
        }
    }
    let _ = tools.insert(name, kind);
    true
}

/// Takes a tool out; says whether that changed anything.
fn withdraw(tools: &mut ToolMap, name: &str) -> (changed: bool)
    ensures
        final(tools)@ == old(tools)@.remove(name@),
        changed == old(tools)@.dom().contains(name@),
{
    tools.remove(name).is_some()
}

/// Files the built-in editing tool of a name where nothing is filed; says
/// whether that changed anything.
fn restore(tools: &mut ToolMap, name: &str, kind: ToolKind) -> (changed: bool)
    ensures
        final(tools)@ == restored(old(tools)@, name@, kind),
        changed == !old(tools)@.dom().contains(name@),
{
    if tools.contains_key(name) {
        return false;
    }
    let _ = tools.insert(name, kind);
    true
}

// ---------------------------------------------------------------------------
// The transform
// ---------------------------------------------------------------------------

/// The tools with one filed where nothing is filed under its name.
pub open spec fn restored(tools: Map<Seq<char>, ToolKind>, name: Seq<char>, kind: ToolKind) -> Map<
    Seq<char>,
    ToolKind,
> {
    if tools.dom().contains(name) {
        tools
    } else {
        tools.insert(name, kind)
    }
}

/// The tools with the tagged features filed.
pub open spec fn with_features(tools: Map<Seq<char>, ToolKind>, tags: Seq<String>) -> Map<
    Seq<char>,
    ToolKind,
> {
    let patched = if !wants_patches(tags) {
        tools
    } else if has_tag(tags, tool_apply_patch::TAG@) {
        tools.insert(tool_apply_patch::TOOL_NAME@, ToolKind::ApplyPatchFreeform)
    } else {
        tools.insert(tool_apply_patch::TOOL_NAME@, ToolKind::ApplyPatch)
    };
    if has_tag(tags, tool_ask_user_question::TAG@) {
        restored(patched, tool_ask_user_question::TOOL_NAME@, ToolKind::AskUserQuestion)
    } else {
        patched
    }
}

/// The tools with one family of editing tools: patches where they are asked
/// for, the built-in ones otherwise.
pub open spec fn with_one_family(tools: Map<Seq<char>, ToolKind>, tags: Seq<String>) -> Map<
    Seq<char>,
    ToolKind,
> {
    if wants_patches(tags) {
        tools.remove(EDIT@).remove(MULTIEDIT@).remove(WRITE@).remove(PATCH@)
    } else {
        let bare = tools.remove(tool_apply_patch::TOOL_NAME@);
        restored(
            restored(
                restored(restored(bare, EDIT@, ToolKind::Edit), MULTIEDIT@, ToolKind::MultiEdit),
                WRITE@,
                ToolKind::Write,
            ),
            PATCH@,
            ToolKind::Patch,
        )
    }
}

/// The tools that a model with those tags sees.
pub open spec fn transformed(tools: Map<Seq<char>, ToolKind>, tags: Seq<String>) -> Map<
    Seq<char>,
    ToolKind,
> {
    with_one_family(with_features(tools, tags), tags)
}

proof fn lemma_names_differ()
    ensures
        EDIT@ != MULTIEDIT@,
        EDIT@ != WRITE@,
        EDIT@ != PATCH@,
        MULTIEDIT@ != WRITE@,
        MULTIEDIT@ != PATCH@,
        WRITE@ != PATCH@,
        !is_edit_name(tool_apply_patch::TOOL_NAME@),
        !is_edit_name(tool_ask_user_question::TOOL_NAME@),
        tool_apply_patch::TOOL_NAME@ != tool_ask_user_question::TOOL_NAME@,
        tool_apply_patch::TAG@ != tool_apply_patch_compat::TAG@,
{
    reveal_strlit("edit");
    reveal_strlit("multiedit");
    reveal_strlit("write");
    reveal_strlit("patch");
    reveal_strlit("apply_patch");
    reveal_strlit("ask_user_question");
    reveal_strlit("tool_apply_patch");
    reveal_strlit("tool_apply_patch_compat");
    assert(WRITE@[0] != PATCH@[0]);
    assert(EDIT@.len() == 4 && MULTIEDIT@.len() == 9);
    assert(WRITE@.len() == 5 && PATCH@.len() == 5);
    assert(tool_apply_patch::TOOL_NAME@.len() == 11);
    assert(tool_ask_user_question::TOOL_NAME@.len() == 17);
    assert(tool_apply_patch::TAG@.len() == 16);
    assert(tool_apply_patch_compat::TAG@.len() == 23);
}

/// Where each name leads after the transform.
proof fn lemma_transformed(tools: Map<Seq<char>, ToolKind>, tags: Seq<String>, name: Seq<char>)
    ensures
        ({
            let after = transformed(tools, tags);
            let filed = after.dom().contains(name);
            if is_edit_name(name) {
                if wants_patches(tags) {
                    !filed
                } else {
                    filed && after[name] == (if tools.dom().contains(name) {
                        tools[name]
                    } else {
                        edit_kind(name)
                    })
                }
            } else if name == tool_apply_patch::TOOL_NAME@ {
                if wants_patches(tags) {
                    filed && after[name] == (if has_tag(tags, tool_apply_patch::TAG@) {
                        ToolKind::ApplyPatchFreeform
                    } else {
                        ToolKind::ApplyPatch
                    })
                } else {
                    !filed
                }
            } else if name == tool_ask_user_question::TOOL_NAME@ && has_tag(
                tags,
                tool_ask_user_question::TAG@,
            ) && !tools.dom().contains(name) {
                filed && after[name] == ToolKind::AskUserQuestion
            } else {
                filed == tools.dom().contains(name) && (filed ==> after[name] == tools[name])
            }
        }),
{
    lemma_names_differ();
}

/// The transform is final: run again, it changes nothing.
pub proof fn law_transform_is_final(tools: Map<Seq<char>, ToolKind>, tags: Seq<String>)
    ensures
        transformed(transformed(tools, tags), tags) == transformed(tools, tags),
{
    let once = transformed(tools, tags);
    let twice = transformed(once, tags);
    assert forall|name: Seq<char>| #[trigger]
        twice.dom().contains(name) == once.dom().contains(name) && (once.dom().contains(name)
            ==> twice[name] == once[name]) by {
        lemma_transformed(tools, tags, name);
        lemma_transformed(once, tags, name);
    }
    assert(twice =~= once);
}

/// A model never sees both families of editing tools, and always one of them.
pub proof fn law_one_editing_family(tools: Map<Seq<char>, ToolKind>, tags: Seq<String>)
    ensures
        ({
            let after = transformed(tools, tags);
            &&& after.dom().contains(tool_apply_patch::TOOL_NAME@) == wants_patches(tags)
            &&& forall|name: Seq<char>|
                is_edit_name(name) ==> #[trigger] after.dom().contains(name) == !wants_patches(tags)
        }),
{
    lemma_names_differ();
    lemma_transformed(tools, tags, tool_apply_patch::TOOL_NAME@);
    let after = transformed(tools, tags);
    assert forall|name: Seq<char>| is_edit_name(name) implies #[trigger] after.dom().contains(name)
        == !wants_patches(tags) by {
        lemma_transformed(tools, tags, name);
    }
}

/// Tools outside the transform stay as they are.
pub proof fn law_other_tools_stay(
    tools: Map<Seq<char>, ToolKind>,
    tags: Seq<String>,
    name: Seq<char>,
)
    requires
        !is_edit_name(name),
        name != tool_apply_patch::TOOL_NAME@,
        name != tool_ask_user_question::TOOL_NAME@,
    ensures
        transformed(tools, tags).dom().contains(name) == tools.dom().contains(name),
        tools.dom().contains(name) ==> transformed(tools, tags)[name] == tools[name],
{
    lemma_transformed(tools, tags, name);
}

/// Asking for both variants enables neither.
pub proof fn law_conflict_enables_neither(tools: Map<Seq<char>, ToolKind>, tags: Seq<String>)
    requires
        is_conflict(tags),
    ensures
        !transformed(tools, tags).dom().contains(tool_apply_patch::TOOL_NAME@),
        transformed(tools, tags).dom().contains(EDIT@),
        transformed(tools, tags).dom().contains(MULTIEDIT@),
        transformed(tools, tags).dom().contains(WRITE@),
        transformed(tools, tags).dom().contains(PATCH@),
{
    law_one_editing_family(tools, tags);
}

/// Transforms the tools of a session for the tags of its model. The answer
/// says whether that changed anything.
pub fn apply(tools: &mut ToolMap, tags: &Vec<String>) -> (changed: bool)
    ensures
        final(tools)@ == transformed(old(tools)@, tags@),
        changed == (final(tools)@ != old(tools)@),
{
    let ghost before = tools@;
    let freeform = list_contains(tags, tool_apply_patch::TAG);
    let compat = list_contains(tags, tool_apply_patch_compat::TAG);
    let conflict = freeform && compat;
    let mut patch_changed = false;
    if freeform && !conflict {
        patch_changed = tool_apply_patch::apply(tools);
    }
    if compat && !conflict {
        patch_changed = tool_apply_patch_compat::apply(tools);
    }
    let mut ask_changed = false;
    if list_contains(tags, tool_ask_user_question::TAG) {
        ask_changed = tool_ask_user_question::apply(tools);
    }
    assert(tools@ == with_features(before, tags@));
    let edit_changed: bool;
    let multi_changed: bool;
    let write_changed: bool;
    let diff_changed: bool;
    if (freeform || compat) && !conflict {
        edit_changed = withdraw(tools, EDIT);
        multi_changed = withdraw(tools, MULTIEDIT);
        write_changed = withdraw(tools, WRITE);
        diff_changed = withdraw(tools, PATCH);
    } else {
        patch_changed = withdraw(tools, tool_apply_patch::TOOL_NAME);
        edit_changed = restore(tools, EDIT, ToolKind::Edit);
        multi_changed = restore(tools, MULTIEDIT, ToolKind::MultiEdit);
        write_changed = restore(tools, WRITE, ToolKind::Write);
        diff_changed = restore(tools, PATCH, ToolKind::Patch);
    }
    let changed = patch_changed || ask_changed || edit_changed || multi_changed || write_changed
        || diff_changed;
    proof {
        lemma_names_differ();
        let after = tools@;
        let patch = tool_apply_patch::TOOL_NAME@;
        lemma_transformed(before, tags@, patch);
        if patch_changed {
            assert(after.dom().contains(patch) != before.dom().contains(patch) || after[patch]
                != before[patch]);
        }
        if ask_changed {
            lemma_transformed(before, tags@, tool_ask_user_question::TOOL_NAME@);
            assert(after.dom().contains(tool_ask_user_question::TOOL_NAME@)
                != before.dom().contains(tool_ask_user_question::TOOL_NAME@));
        }
        if edit_changed {
            assert(after.dom().contains(EDIT@) != before.dom().contains(EDIT@));
        }
        if multi_changed {
            assert(after.dom().contains(MULTIEDIT@) != before.dom().contains(MULTIEDIT@));
        }
        if write_changed {
            assert(after.dom().contains(WRITE@) != before.dom().contains(WRITE@));
        }
        if diff_changed {
            assert(after.dom().contains(PATCH@) != before.dom().contains(PATCH@));
        }
        if !changed {
            assert(after =~= before);
        }
    }
    changed
}

/// The tags that are not known, in order.
pub open spec fn unknown_from(tags: Seq<Seq<char>>, k: int) -> Seq<Seq<char>>
    decreases tags.len() - k,
{
    if k >= tags.len() {
        Seq::empty()
    } else if is_known(tags[k]) {
        unknown_from(tags, k + 1)
    } else {
        seq![tags[k]] + unknown_from(tags, k + 1)
    }
}

/// The tags that are not known, which are passed over.
pub fn unknown_tags(tags: &Vec<String>) -> (r: Vec<String>)
    ensures
        text::texts(r@) == unknown_from(text::texts(tags@), 0),
{
    let ghost names = text::texts(tags@);
    let ghost all = unknown_from(names, 0);
    let mut r: Vec<String> = Vec::new();
    let mut k: usize = 0;
    assert(text::texts(r@) + unknown_from(names, 0) =~= all);
    while k < tags.len()
        invariant
            k <= tags@.len(),
            names == text::texts(tags@),
            text::texts(r@) + unknown_from(names, k as int) == all,
        decreases tags@.len() - k,
    {
        let tag = tags[k].as_str();
        assert(names[k as int] == tag@);
        if !str_eq(tag, tool_apply_patch::TAG) && !str_eq(tag, tool_apply_patch_compat::TAG)
            && !str_eq(tag, tool_ask_user_question::TAG) {
            let unknown = owned(tag);
            proof {
                text::lemma_texts_push(r@, unknown);
                let rest = unknown_from(names, k + 1);
                assert(text::texts(r@) + (seq![unknown@] + rest) =~= text::texts(r@).push(
                    unknown@,
                ) + rest);
            }
            r.push(unknown);
        }
        k = k + 1;
    }
    assert(text::texts(r@) + Seq::<Seq<char>>::empty() =~= text::texts(r@));
    r
}

/// The tags that a warning was given about.
#[derive(Debug)]
pub struct WarnedTags {
    tags: TextMap<()>,
}

impl View for WarnedTags {
    type V = Set<Seq<char>>;

    closed spec fn view(&self) -> Set<Seq<char>> {
        self.tags@.dom()
    }
}

impl WarnedTags {
    /// No warning yet.
    pub fn new() -> (r: Self)
        ensures
            r@ == Set::<Seq<char>>::empty(),
    {
        let r = WarnedTags { tags: TextMap::new() };
        assert(r@ =~= Set::<Seq<char>>::empty());
        r
    }

    /// The warning about an unknown tag: given the first time, and never
    /// again.
    pub fn warn_unknown_tag(&mut self, tag: &str) -> (r: Option<String>)
        ensures
            final(self)@ == old(self)@.insert(tag@),
            text::opt_text(r) == (if old(self)@.contains(tag@) {
                None::<Seq<char>>
            } else {
                Some(
                    "Ignoring unknown experimental tag '"@ + tag@
                        + "' configured on the active model"@,
                )
            }),
    {
        let ghost before = self@;
        let known = self.tags.insert(tag, ()).is_some();
        assert(self@ =~= before.insert(tag@));
        if known {
            None
        } else {
            Some(
                text::cat3(
                    "Ignoring unknown experimental tag '",
                    tag,
                    "' configured on the active model",
                ),
            )
        }
    }
}

proof fn lemma_tool_names_differ()
    ensures
        EDIT@ != MULTIEDIT@ && EDIT@ != WRITE@ && EDIT@ != PATCH@ && MULTIEDIT@ != WRITE@
            && MULTIEDIT@ != PATCH@ && WRITE@ != PATCH@,
        !is_edit_name(tool_apply_patch::TOOL_NAME@),
        !is_edit_name(tool_ask_user_question::TOOL_NAME@),
        tool_apply_patch::TOOL_NAME@ != tool_ask_user_question::TOOL_NAME@,
{
    reveal_strlit("edit");
    reveal_strlit("multiedit");
    reveal_strlit("write");
    reveal_strlit("patch");
    reveal_strlit("apply_patch");
    reveal_strlit("ask_user_question");
    assert(EDIT@.len() == 4 && MULTIEDIT@.len() == 9 && WRITE@.len() == 5 && PATCH@.len() == 5);
    assert(WRITE@[0] != PATCH@[0]);
    assert(tool_apply_patch::TOOL_NAME@.len() == 11);
    assert(tool_ask_user_question::TOOL_NAME@.len() == 17);
}

/// A tool that a tag brings is the tool of that tag: patches in free form or
/// in arguments, by which tag is set, and questions where their tag is set. An
/// editing tool that is brought back is the one of its name, and a tool that
/// is there already stays what it is.
pub proof fn law_tags_bring_their_tools(tools: Map<Seq<char>, ToolKind>, tags: Seq<String>)
    ensures
        ({
            let after = transformed(tools, tags);
            let free = has_tag(tags, "tool_apply_patch"@);
            let plain = has_tag(tags, "tool_apply_patch_compat"@);
            let asks = has_tag(tags, "tool_ask_user_question"@);
            &&& free && !plain ==> after.dom().contains("apply_patch"@) && after["apply_patch"@]
                == ToolKind::ApplyPatchFreeform
            &&& plain && !free ==> after.dom().contains("apply_patch"@) && after["apply_patch"@]
                == ToolKind::ApplyPatch
            &&& free == plain ==> !after.dom().contains("apply_patch"@)
            &&& asks ==> after.dom().contains("ask_user_question"@)
            &&& asks && !tools.dom().contains("ask_user_question"@)
                ==> after["ask_user_question"@] == ToolKind::AskUserQuestion
            &&& tools.dom().contains("ask_user_question"@) ==> after.dom().contains(
                "ask_user_question"@,
            ) && after["ask_user_question"@] == tools["ask_user_question"@]
            &&& !asks && !tools.dom().contains("ask_user_question"@) ==> !after.dom().contains(
                "ask_user_question"@,
            )
            &&& free == plain ==> {
                &&& after["edit"@] == if tools.dom().contains("edit"@) {
                    tools["edit"@]
                } else {
                    ToolKind::Edit
                }
                &&& after["multiedit"@] == if tools.dom().contains("multiedit"@) {
                    tools["multiedit"@]
                } else {
                    ToolKind::MultiEdit
                }
                &&& after["write"@] == if tools.dom().contains("write"@) {
                    tools["write"@]
                } else {
                    ToolKind::Write
                }
                &&& after["patch"@] == if tools.dom().contains("patch"@) {
                    tools["patch"@]
                } else {
                    ToolKind::Patch
                }
            }
        }),
{
    lemma_tool_names_differ();
    assert(EDIT@ == "edit"@ && MULTIEDIT@ == "multiedit"@ && WRITE@ == "write"@ && PATCH@
        == "patch"@);
}

/// A name of the editing tools gives the tool of that name.
pub proof fn law_editing_tools_go_by_name(name: Seq<char>)
    ensures
        is_edit_name(name) <==> name == "edit"@ || name == "multiedit"@ || name == "write"@ || name
            == "patch"@,
        edit_kind("edit"@) == ToolKind::Edit && edit_kind("multiedit"@) == ToolKind::MultiEdit
            && edit_kind("write"@) == ToolKind::Write && edit_kind("patch"@) == ToolKind::Patch,
{
    lemma_tool_names_differ();
}

proof fn lemma_unknown(tags: Seq<Seq<char>>, k: int)
    requires
        0 <= k <= tags.len(),
    ensures
        unknown_from(tags, k) == tags.skip(k).filter(|t: Seq<char>| !is_known(t)),
    decreases tags.len() - k,
{
    let p = |t: Seq<char>| !is_known(t);
    if k < tags.len() {
        lemma_unknown(tags, k + 1);
        sort::lemma_filter_first(tags.skip(k), p);
        assert(tags.skip(k).drop_first() =~= tags.skip(k + 1));
        assert(unknown_from(tags, k) =~= tags.skip(k).filter(p));
    } else {
        assert(tags.skip(k) =~= Seq::empty());
        sort::lemma_filter_empty(p);
    }
}

/// Every tag that is not one of the three known ones is told, in order.
pub proof fn law_every_unknown_tag_is_told(tags: Seq<Seq<char>>, tag: Seq<char>)
    ensures
        unknown_from(tags, 0) == tags.filter(|t: Seq<char>| !is_known(t)),
        is_known(tag) <==> tag == "tool_apply_patch"@ || tag == "tool_apply_patch_compat"@ || tag
            == "tool_ask_user_question"@,
{
    lemma_unknown(tags, 0);
    assert(tags.skip(0) =~= tags);
}

/// The two ways to patch exclude each other, and the message that says so
/// names both tags.
pub proof fn law_conflicts_name_both_tags(tags: Seq<String>)
    ensures
        is_conflict(tags) <==> has_tag(tags, "tool_apply_patch"@) && has_tag(
            tags,
            "tool_apply_patch_compat"@,
        ),
        text::contains(conflict_message(), "'"@ + "tool_apply_patch"@ + "'"@),
        text::contains(conflict_message(), "'"@ + "tool_apply_patch_compat"@ + "'"@),
        text::starts_with(conflict_message(), "Configuration error: `experimentals` lists both '"@),
        text::ends_with(
            conflict_message(),
            "' on the active model. The two apply_patch variants are mutually exclusive; neither was enabled and the built-in editing tools remain available. Remove one tag to fix this."@,
        ),
{
    reveal_strlit("'");
    reveal_strlit("Configuration error: `experimentals` lists both '");
    reveal_strlit("' and '");
    let a = "Configuration error: `experimentals` lists both '"@;
    let b = "' and '"@;
    let c =
        "' on the active model. The two apply_patch variants are mutually exclusive; neither was enabled and the built-in editing tools remain available. Remove one tag to fix this."@;
    reveal_strlit(
        "' on the active model. The two apply_patch variants are mutually exclusive; neither was enabled and the built-in editing tools remain available. Remove one tag to fix this.",
    );
    let first = "'"@ + tool_apply_patch::TAG@ + "'"@;
    let second = "'"@ + tool_apply_patch_compat::TAG@ + "'"@;
    let whole = conflict_message();
    assert(whole.take(a.len() as int) =~= a);
    assert(whole.skip(whole.len() - c.len()) =~= c);
    assert(whole =~= a.drop_last() + first + (b.drop_first() + tool_apply_patch_compat::TAG@ + c));
    text::law_searching_finds_the_first_place(
        a.drop_last(),
        first,
        b.drop_first() + tool_apply_patch_compat::TAG@ + c,
    );
    assert(whole =~= (a + tool_apply_patch::TAG@ + b.drop_last()) + second + c.drop_first());
    text::law_searching_finds_the_first_place(
        a + tool_apply_patch::TAG@ + b.drop_last(),
        second,
        c.drop_first(),
    );
}

} // verus!
