//! `tool_ask_user_question`: the tool that asks the user structured
//! questions.

use crate::experimentals::{ToolKind, ToolMap};
use vstd::prelude::*;

verus! {

/// The tag that enables the tool for a model.
pub const TAG: &'static str = "tool_ask_user_question";

/// The name that the tool is filed under.
pub const TOOL_NAME: &'static str = "ask_user_question";

/// Sees to it that the tool is there; says whether that changed anything.
pub fn apply(tools: &mut ToolMap) -> (changed: bool)
    ensures
        final(tools)@ == (if old(tools)@.dom().contains(TOOL_NAME@) {
            old(tools)@
        } else {
            old(tools)@.insert(TOOL_NAME@, ToolKind::AskUserQuestion)
        }),
        changed == !old(tools)@.dom().contains(TOOL_NAME@),
{
    if tools.contains_key(TOOL_NAME) {
        return false;
    }
    let _ = tools.insert(TOOL_NAME, ToolKind::AskUserQuestion);
    true
}

} // verus!
