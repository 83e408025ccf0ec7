//! `tool_apply_patch`: the freeform variant of `apply_patch`, for models that
//! opt in.

use crate::experimentals;
use crate::experimentals::{ToolKind, ToolMap};
use vstd::prelude::*;

verus! {

/// The tag that enables the freeform variant for a model.
pub const TAG: &'static str = "tool_apply_patch";

/// The name that both variants are filed under.
pub const TOOL_NAME: &'static str = "apply_patch";

/// Sees to it that the freeform variant is there; says whether that changed
/// anything.
pub fn apply(tools: &mut ToolMap) -> (changed: bool)
    ensures
        final(tools)@ == old(tools)@.insert(TOOL_NAME@, ToolKind::ApplyPatchFreeform),
        changed == !(old(tools)@.dom().contains(TOOL_NAME@) && old(tools)@[TOOL_NAME@]
            == ToolKind::ApplyPatchFreeform),
{
    experimentals::register(tools, TOOL_NAME, ToolKind::ApplyPatchFreeform)
}

} // verus!
