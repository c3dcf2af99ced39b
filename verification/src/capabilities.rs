//! The cached summary of what a language server can do.

use crate::text::str_eq;
use vstd::prelude::*;

verus! {

/// The server capabilities the pool keeps track of, captured once when a
/// client is created and never refreshed afterwards.
#[derive(Clone, Copy, Debug, PartialEq, Eq, Structural)]
pub struct CapabilitiesSummary {
    pub supports_document_symbol: bool,
    pub supports_definition: bool,
    pub supports_references: bool,
    pub supports_type_definition: bool,
    pub supports_implementation: bool,
    pub supports_workspace_symbol: bool,
    pub supports_call_hierarchy: bool,
    pub supports_semantic_tokens: bool,
}

/// The protocol name of the tracked capability at `index`.
pub open spec fn capability_name(index: int) -> Seq<char> {
    if index == 0 {
        "textDocument/documentSymbol"@
    } else if index == 1 {
        "textDocument/definition"@
    } else if index == 2 {
        "textDocument/references"@
    } else if index == 3 {
        "textDocument/typeDefinition"@
    } else if index == 4 {
        "textDocument/implementation"@
    } else if index == 5 {
        "workspace/symbol"@
    } else if index == 6 {
        "textDocument/prepareCallHierarchy"@
    } else {
        "textDocument/semanticTokens"@
    }
}

/// Position of `name` among the tracked capabilities, if it is one of them.
pub open spec fn capability_index(name: Seq<char>) -> Option<int> {
    if name == capability_name(0) {
        Some(0)
    } else if name == capability_name(1) {
        Some(1)
    } else if name == capability_name(2) {
        Some(2)
    } else if name == capability_name(3) {
        Some(3)
    } else if name == capability_name(4) {
        Some(4)
    } else if name == capability_name(5) {
        Some(5)
    } else if name == capability_name(6) {
        Some(6)
    } else if name == capability_name(7) {
        Some(7)
    } else {
        None
    }
}

/// The tracked capability names are pairwise different, so every one of them
/// is found at its own position.
pub proof fn lemma_capability_names_distinct()
    ensures
        forall|i: int| 0 <= i < 8 ==> capability_index(#[trigger] capability_name(i)) == Some(i),
{
    reveal_strlit("textDocument/documentSymbol");
    reveal_strlit("textDocument/definition");
    reveal_strlit("textDocument/references");
    reveal_strlit("textDocument/typeDefinition");
    reveal_strlit("textDocument/implementation");
    reveal_strlit("workspace/symbol");
    reveal_strlit("textDocument/prepareCallHierarchy");
    reveal_strlit("textDocument/semanticTokens");
    // Any two names differ at index 0, 13 or 14.
    assert("workspace/symbol"@[0] == 'w');
    assert("textDocument/documentSymbol"@[0] == 't' && "textDocument/documentSymbol"@[13] == 'd'
        && "textDocument/documentSymbol"@[14] == 'o');
    assert("textDocument/definition"@[0] == 't' && "textDocument/definition"@[13] == 'd'
        && "textDocument/definition"@[14] == 'e');
    assert("textDocument/references"@[0] == 't' && "textDocument/references"@[13] == 'r');
    assert("textDocument/typeDefinition"@[0] == 't' && "textDocument/typeDefinition"@[13] == 't');
    assert("textDocument/implementation"@[0] == 't' && "textDocument/implementation"@[13] == 'i');
    assert("textDocument/prepareCallHierarchy"@[0] == 't'
        && "textDocument/prepareCallHierarchy"@[13] == 'p');
    assert("textDocument/semanticTokens"@[0] == 't' && "textDocument/semanticTokens"@[13] == 's');
    assert(capability_index(capability_name(0)) == Some(0int));
    assert(capability_index(capability_name(1)) == Some(1int));
    assert(capability_index(capability_name(2)) == Some(2int));
    assert(capability_index(capability_name(3)) == Some(3int));
    assert(capability_index(capability_name(4)) == Some(4int));
    assert(capability_index(capability_name(5)) == Some(5int));
    assert(capability_index(capability_name(6)) == Some(6int));
    assert(capability_index(capability_name(7)) == Some(7int));
}

impl CapabilitiesSummary {
    /// The flag stored for the tracked capability at `index`.
    pub open spec fn flag(self, index: int) -> bool {
        if index == 0 {
            self.supports_document_symbol
        } else if index == 1 {
            self.supports_definition
        } else if index == 2 {
            self.supports_references
        } else if index == 3 {
            self.supports_type_definition
        } else if index == 4 {
            self.supports_implementation
        } else if index == 5 {
            self.supports_workspace_symbol
        } else if index == 6 {
            self.supports_call_hierarchy
        } else {
            self.supports_semantic_tokens
        }
    }

    /// Whether the summary records support for the capability called `name`.
    /// A name that is not tracked is not supported.
    pub open spec fn spec_supports(self, name: Seq<char>) -> bool {
        match capability_index(name) {
            Some(index) => self.flag(index),
            None => false,
        }
    }

    /// A summary in which no capability is supported.
    pub fn none() -> (summary: Self)
        ensures
            forall|i: int| 0 <= i < 8 ==> !summary.flag(i),
    {
        CapabilitiesSummary {
            supports_document_symbol: false,
            supports_definition: false,
            supports_references: false,
            supports_type_definition: false,
            supports_implementation: false,
            supports_workspace_symbol: false,
            supports_call_hierarchy: false,
            supports_semantic_tokens: false,
        }
    }

    /// Builds the summary from the server's answers, one per tracked
    /// capability, in the order of `tracked_capabilities`. Answers beyond the
    /// eighth are ignored; a missing answer counts as "not supported".
    pub fn from_answers(answers: &Vec<bool>) -> (summary: Self)
        ensures
            forall|i: int|
                0 <= i < 8 ==> summary.flag(i) == (i < answers@.len() && answers@[i]),
    {
        let n = answers.len();
        CapabilitiesSummary {
            supports_document_symbol: 0 < n && answers[0],
            supports_definition: 1 < n && answers[1],
            supports_references: 2 < n && answers[2],
            supports_type_definition: 3 < n && answers[3],
            supports_implementation: 4 < n && answers[4],
            supports_workspace_symbol: 5 < n && answers[5],
            supports_call_hierarchy: 6 < n && answers[6],
            supports_semantic_tokens: 7 < n && answers[7],
        }
    }

    /// Looks a capability up by its protocol name.
    pub fn supports(&self, capability: &str) -> (supported: bool)
        ensures
            supported == self.spec_supports(capability@),
    {
        if str_eq(capability, "textDocument/documentSymbol") {
            self.supports_document_symbol
        } else if str_eq(capability, "textDocument/definition") {
            self.supports_definition
        } else if str_eq(capability, "textDocument/references") {
            self.supports_references
        } else if str_eq(capability, "textDocument/typeDefinition") {
            self.supports_type_definition
        } else if str_eq(capability, "textDocument/implementation") {
            self.supports_implementation
        } else if str_eq(capability, "workspace/symbol") {
            self.supports_workspace_symbol
        } else if str_eq(capability, "textDocument/prepareCallHierarchy") {
            self.supports_call_hierarchy
        } else if str_eq(capability, "textDocument/semanticTokens") {
            self.supports_semantic_tokens
        } else {
            false
        }
    }
}

/// The protocol names of the tracked capabilities, in the order of the
/// summary's flags: what the host asks a freshly initialized server, once
/// per name.
pub fn tracked_capabilities() -> (names: Vec<&'static str>)
    ensures
        names@.len() == 8,
        forall|i: int| 0 <= i < 8 ==> (#[trigger] names@[i])@ == capability_name(i),
{
    let mut names: Vec<&'static str> = Vec::new();
    names.push("textDocument/documentSymbol");
    names.push("textDocument/definition");
    names.push("textDocument/references");
    names.push("textDocument/typeDefinition");
    names.push("textDocument/implementation");
    names.push("workspace/symbol");
    names.push("textDocument/prepareCallHierarchy");
    names.push("textDocument/semanticTokens");
    names
}

} // verus!
