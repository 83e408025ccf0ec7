use jcode_core::apply_patch::tool::{ApplyPatchFreeformTool, ApplyPatchTool, ToolDefinition};
use jcode_core::experimentals::{
    apply, edit_family_tool, edit_family_tools, patch_tag_conflict, tool_apply_patch,
    tool_apply_patch_compat, tool_ask_user_question, unknown_tags, ToolKind, ToolMap, WarnedTags,
};

fn map_with_apply_patch() -> ToolMap {
    let mut tools = ToolMap::new();
    tools.insert(tool_apply_patch::TOOL_NAME, ToolKind::ApplyPatch);
    tools
}

fn map_with_edit_family() -> ToolMap {
    let mut tools = ToolMap::new();
    for name in edit_family_tools() {
        tools.insert(name, edit_family_tool(name).expect("known edit family tool"));
    }
    tools
}

fn tags_of(tags: &[&str]) -> Vec<String> {
    tags.iter().map(|tag| tag.to_string()).collect()
}

fn definition_of(kind: ToolKind) -> ToolDefinition {
    match kind {
        ToolKind::ApplyPatch => ApplyPatchTool::new().to_definition(),
        ToolKind::ApplyPatchFreeform => ApplyPatchFreeformTool::new().to_definition(),
        other => panic!("no patch tool: {other:?}"),
    }
}

#[test]
fn apply_patch_is_removed_without_a_tag() {
    let mut tools = map_with_apply_patch();
    assert!(apply(&mut tools, &Vec::new()));
    assert!(!tools.contains_key("apply_patch"));
    // Converged: a second pass reports no change.
    assert!(!apply(&mut tools, &Vec::new()));
}

#[test]
fn apply_patch_tag_restores_the_tool() {
    let mut tools = ToolMap::new();
    let tags = tags_of(&[tool_apply_patch::TAG]);
    assert!(apply(&mut tools, &tags));
    assert!(tools.contains_key("apply_patch"));
    assert!(!apply(&mut tools, &tags));
}

#[test]
fn freeform_tag_registers_the_freeform_variant() {
    let mut tools = ToolMap::new();
    let tags = tags_of(&[tool_apply_patch::TAG]);
    apply(&mut tools, &tags);
    let tool = tools.get("apply_patch").expect("apply_patch registered");
    let def = definition_of(*tool);
    assert!(
        def.freeform_format().is_some(),
        "freeform variant must declare a grammar format"
    );
}

#[test]
fn compat_tag_registers_the_json_variant() {
    let mut tools = ToolMap::new();
    let tags = tags_of(&[tool_apply_patch_compat::TAG]);
    apply(&mut tools, &tags);
    let tool = tools.get("apply_patch").expect("apply_patch registered");
    let def = definition_of(*tool);
    assert!(def.freeform_format().is_none());
    assert_eq!(
        def.parameter, "patch_text",
        "compat variant keeps the patch_text JSON parameter"
    );
}

#[test]
fn any_apply_patch_tag_removes_the_edit_family() {
    for tag in [tool_apply_patch::TAG, tool_apply_patch_compat::TAG] {
        let mut tools = map_with_edit_family();
        let tags = tags_of(&[tag]);
        assert!(apply(&mut tools, &tags));
        assert!(tools.contains_key("apply_patch"));
        for name in edit_family_tools() {
            assert!(
                !tools.contains_key(name),
                "{name} must be removed while {tag} is active"
            );
        }
        // Converged on a second pass.
        assert!(!apply(&mut tools, &tags));
    }
}

#[test]
fn edit_family_returns_when_tags_are_removed() {
    let mut tools = map_with_edit_family();
    let tags = tags_of(&[tool_apply_patch::TAG]);
    assert!(apply(&mut tools, &tags));
    for name in edit_family_tools() {
        assert!(!tools.contains_key(name));
    }
    // Switching to a model without the tag restores the family and drops
    // apply_patch.
    assert!(apply(&mut tools, &Vec::new()));
    assert!(!tools.contains_key("apply_patch"));
    for name in edit_family_tools() {
        assert!(tools.contains_key(name), "{name} must be restored");
    }
    assert!(!apply(&mut tools, &Vec::new()));
}

#[test]
fn both_patch_tags_is_a_conflict_enabling_neither() {
    let mut tools = map_with_edit_family();
    tools.insert(tool_apply_patch::TOOL_NAME, ToolKind::ApplyPatch);
    let tags = tags_of(&[tool_apply_patch::TAG, tool_apply_patch_compat::TAG]);
    assert!(patch_tag_conflict(&tags).is_some());
    assert!(apply(&mut tools, &tags));
    // Neither patch variant is enabled; the edit family stays.
    assert!(!tools.contains_key("apply_patch"));
    for name in edit_family_tools() {
        assert!(tools.contains_key(name));
    }
    assert!(!apply(&mut tools, &tags));
}

#[test]
fn compat_tag_also_keeps_apply_patch_on_the_surface() {
    let mut tools = map_with_apply_patch();
    let tags = tags_of(&[tool_apply_patch_compat::TAG]);
    assert!(!apply(&mut tools, &tags));
    assert!(tools.contains_key("apply_patch"));
}

#[test]
fn unknown_tags_are_ignored_not_fatal() {
    let mut tools = map_with_apply_patch();
    let tags = tags_of(&["tool_future_thing"]);
    // Only the apply_patch removal applies; the unknown tag is a no-op.
    assert!(apply(&mut tools, &tags));
    assert!(!tools.contains_key("apply_patch"));
}

#[test]
fn ask_user_question_tag_registers_the_tool() {
    let mut tools = map_with_apply_patch();
    let tags = tags_of(&[tool_ask_user_question::TAG]);
    assert!(apply(&mut tools, &tags));
    assert!(tools.contains_key(tool_ask_user_question::TOOL_NAME));
    // A second pass is idempotent.
    assert!(!apply(&mut tools, &tags));
    // The apply_patch removal still applies since no apply_patch tag is set.
    assert!(!tools.contains_key("apply_patch"));
}

#[test]
fn switching_variants_replaces_the_tool() {
    let mut tools = map_with_apply_patch();
    assert!(apply(&mut tools, &tags_of(&[tool_apply_patch::TAG])));
    assert_eq!(tools.get("apply_patch"), Some(&ToolKind::ApplyPatchFreeform));
    assert!(apply(&mut tools, &tags_of(&[tool_apply_patch_compat::TAG])));
    assert_eq!(tools.get("apply_patch"), Some(&ToolKind::ApplyPatch));
}

#[test]
fn other_tools_are_left_alone() {
    let mut tools = map_with_edit_family();
    tools.insert("bash", ToolKind::Other { number: 7 });
    apply(&mut tools, &tags_of(&[tool_apply_patch::TAG]));
    apply(&mut tools, &Vec::new());
    assert_eq!(tools.get("bash"), Some(&ToolKind::Other { number: 7 }));
}

#[test]
fn one_patch_tag_is_no_conflict() {
    assert!(patch_tag_conflict(&tags_of(&[tool_apply_patch::TAG])).is_none());
    assert!(patch_tag_conflict(&tags_of(&[tool_apply_patch_compat::TAG])).is_none());
    assert!(patch_tag_conflict(&Vec::new()).is_none());
}

#[test]
fn unknown_tags_are_listed_and_warned_about_once() {
    let tags = tags_of(&[tool_apply_patch::TAG, "tool_future_thing", "another"]);
    assert_eq!(unknown_tags(&tags), vec!["tool_future_thing", "another"]);
    let mut warned = WarnedTags::new();
    assert_eq!(
        warned.warn_unknown_tag("another").as_deref(),
        Some("Ignoring unknown experimental tag 'another' configured on the active model")
    );
    assert_eq!(warned.warn_unknown_tag("another"), None);
    assert!(warned.warn_unknown_tag("tool_future_thing").is_some());
}

#[test]
fn names_outside_the_family_are_no_edit_tools() {
    assert_eq!(edit_family_tool("edit"), Some(ToolKind::Edit));
    assert_eq!(edit_family_tool("multiedit"), Some(ToolKind::MultiEdit));
    assert_eq!(edit_family_tool("write"), Some(ToolKind::Write));
    assert_eq!(edit_family_tool("patch"), Some(ToolKind::Patch));
    assert_eq!(edit_family_tool("apply_patch"), None);
}
