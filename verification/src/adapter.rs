//! The capability surface of a language adapter: what the pool and the
//! text-based search ask of a language, whichever language it is.

use vstd::prelude::*;

verus! {

/// The kind of a symbol in source code.
#[derive(Clone, Copy, Debug, PartialEq, Eq, Structural)]
pub enum SymbolKind {
    Function,
    Method,
    Class,
    Interface,
    Module,
    Variable,
    Constant,
    Parameter,
    Field,
}

/// What a definition pattern introduces.
#[derive(Clone, Copy, Debug, PartialEq, Eq, Structural)]
pub enum PatternType {
    FunctionDef,
    ClassDef,
    VariableDef,
    ModuleDef,
}

/// Keywords that mark the site of a definition in a line of text.
#[derive(Clone, Debug, PartialEq, Eq)]
pub struct DefinitionPattern {
    /// The keywords, any of which introduces the definition.
    pub keywords: Vec<String>,
    /// What the keywords introduce.
    pub pattern_type: PatternType,
    /// Whether the defined name follows the keyword.
    pub requires_name_after: bool,
}

/// One language's answers to what the pool and the text-based search ask.
/// Positions in a line are byte offsets.
pub trait LanguageAdapter {
    /// The language identifier.
    fn language_id(&self) -> &'static str;

    /// The extensions of the language's source files, without the dot.
    fn supported_extensions(&self) -> Vec<&'static str>;

    /// The keyword patterns that mark definition sites.
    fn definition_patterns(&self) -> Vec<DefinitionPattern>;

    /// A regular expression that matches references to the symbol `name`.
    fn build_reference_pattern(&self, name: &str, kind: &SymbolKind) -> String;

    /// Whether the text before `position` in `line` ends where a
    /// definition begins.
    fn is_definition_context(&self, line: &str, position: usize) -> bool;

    /// Whether `position` in `line` lies inside a comment or a string
    /// literal.
    fn is_in_string_or_comment(&self, line: &str, position: usize) -> bool;
}

} // verus!
