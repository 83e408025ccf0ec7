//! `tool_apply_patch_compat`: the JSON variant of `apply_patch`, for models
//! that cannot drive the freeform one.

use crate::experimentals;
use crate::experimentals::{tool_apply_patch, ToolKind, ToolMap};
use vstd::prelude::*;

verus! {

/// The tag that enables the JSON variant for a model.
pub const TAG: &'static str = "tool_apply_patch_compat";

/// Sees to it that the JSON variant is there; says whether that changed
/// anything.
pub fn apply(tools: &mut ToolMap) -> (changed: bool)
    ensures
        final(tools)@ == old(tools)@.insert(tool_apply_patch::TOOL_NAME@, ToolKind::ApplyPatch),
        changed == !(old(tools)@.dom().contains(tool_apply_patch::TOOL_NAME@) && old(tools)@[tool_apply_patch::TOOL_NAME@]
            == ToolKind::ApplyPatch),
{
    experimentals::register(tools, tool_apply_patch::TOOL_NAME, ToolKind::ApplyPatch)
}

} // verus!
