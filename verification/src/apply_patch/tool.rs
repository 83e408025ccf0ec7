//! The two variants of the tool: one takes the patch as a JSON parameter, the
//! other as raw text under a grammar.

use vstd::prelude::*;

verus! {

/// The variant that takes the patch as a JSON parameter.
#[derive(Debug)]
pub struct ApplyPatchTool;

/// The freeform variant: a grammar lets capable models write the patch as raw
/// text.
#[derive(Debug)]
pub struct ApplyPatchFreeformTool;

/// The grammar of a freeform patch.
pub const APPLY_PATCH_LARK_GRAMMAR: &'static str =
    "start: begin_patch hunk+ end_patch\nbegin_patch: \"*** Begin Patch\" LF\nend_patch: \"*** End Patch\" LF?\n\nhunk: add_hunk | delete_hunk | update_hunk\nadd_hunk: \"*** Add File: \" filename LF add_line+\ndelete_hunk: \"*** Delete File: \" filename LF\nupdate_hunk: \"*** Update File: \" filename LF change_move? change?\n\nfilename: /(.+)/\nadd_line: \"+\" /(.*)/ LF -> line\n\nchange_move: \"*** Move to: \" filename LF\nchange: (change_context | change_line)+ eof_line?\nchange_context: (\"@@\" | \"@@ \" /(.+)/) LF\nchange_line: (\"+\" | \"-\" | \" \") /(.*)/ LF\neof_line: \"*** End of File\" LF\n\n%import common.LF\n";

/// How raw text is constrained.
#[derive(Debug, Clone, Copy)]
pub struct FreeformFormat {
    pub kind: &'static str,
    pub syntax: &'static str,
    pub definition: &'static str,
}

/// How a variant presents itself to the model.
#[derive(Debug, Clone, Copy)]
pub struct ToolDefinition {
    pub name: &'static str,
    pub description: &'static str,
    /// The parameter that holds the patch, which is required.
    pub parameter: &'static str,
    pub parameter_description: &'static str,
    pub format: Option<FreeformFormat>,
}

impl ToolDefinition {
    /// How raw text is constrained, where the tool takes it.
    pub fn freeform_format(&self) -> (r: Option<FreeformFormat>)
        ensures
            r == self.format,
    {
        self.format
    }
}

impl ApplyPatchTool {
    pub fn new() -> (r: Self)
        ensures
            r == ApplyPatchTool,
    {
        ApplyPatchTool
    }

    /// How this variant presents itself.
    pub fn to_definition(&self) -> (r: ToolDefinition)
        ensures
            r.name@ == "apply_patch"@,
            r.description@
                == "Apply a Codex-style *** Begin Patch / *** End Patch patch. Prefer over patch."@,
            r.parameter@ == "patch_text"@,
            r.parameter_description@ == "Patch text."@,
            r.format is None,
    {
        ToolDefinition {
            name: "apply_patch",
            description: "Apply a Codex-style *** Begin Patch / *** End Patch patch. Prefer over patch.",
            parameter: "patch_text",
            parameter_description: "Patch text.",
            format: None,
        }
    }
}

impl ApplyPatchFreeformTool {
    pub fn new() -> (r: Self)
        ensures
            r == ApplyPatchFreeformTool,
    {
        ApplyPatchFreeformTool
    }

    /// How this variant presents itself.
    pub fn to_definition(&self) -> (r: ToolDefinition)
        ensures
            r.name@ == "apply_patch"@,
            r.description@
                == "The `apply_patch` tool can be used to edit files. This is a FREEFORM tool, so do not wrap the patch in JSON."@,
            r.parameter@ == "input"@,
            r.parameter_description@ == "Patch text (freeform)."@,
            r.format matches Some(f) && f.kind@ == "grammar"@ && f.syntax@ == "lark"@
                && f.definition@ == APPLY_PATCH_LARK_GRAMMAR@,
    {
        ToolDefinition {
            name: "apply_patch",
            description: "The `apply_patch` tool can be used to edit files. This is a FREEFORM tool, so do not wrap the patch in JSON.",
            parameter: "input",
            parameter_description: "Patch text (freeform).",
            format: Some(
                FreeformFormat {
                    kind: "grammar",
                    syntax: "lark",
                    definition: APPLY_PATCH_LARK_GRAMMAR,
                },
            ),
        }
    }
}

} // verus!
