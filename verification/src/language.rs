//! The supported languages, and how a file path names one of them.

use crate::text::str_eq;
use vstd::prelude::*;
use vstd::string::StrSliceExecFns;

verus! {

/// A language for which a server adapter is registered.
#[derive(Clone, Copy, Debug, PartialEq, Eq, Structural)]
pub enum Language {
    Rust,
    TypeScript,
    JavaScript,
    Python,
    Go,
    Java,
    Nix,
}

impl Language {
    /// The language identifier, under which the pool keeps the records.
    pub open spec fn id(self) -> Seq<char> {
        match self {
            Language::Rust => "rust"@,
            Language::TypeScript => "typescript"@,
            Language::JavaScript => "javascript"@,
            Language::Python => "python"@,
            Language::Go => "go"@,
            Language::Java => "java"@,
            Language::Nix => "nix"@,
        }
    }

    /// The file extension of the language's source files.
    pub open spec fn extension(self) -> Seq<char> {
        match self {
            Language::Rust => "rs"@,
            Language::TypeScript => "ts"@,
            Language::JavaScript => "js"@,
            Language::Python => "py"@,
            Language::Go => "go"@,
            Language::Java => "java"@,
            Language::Nix => "nix"@,
        }
    }

    /// The language with the given identifier.
    pub open spec fn with_id(id: Seq<char>) -> Option<Language> {
        if id == Language::Rust.id() {
            Some(Language::Rust)
        } else if id == Language::TypeScript.id() {
            Some(Language::TypeScript)
        } else if id == Language::JavaScript.id() {
            Some(Language::JavaScript)
        } else if id == Language::Python.id() {
            Some(Language::Python)
        } else if id == Language::Go.id() {
            Some(Language::Go)
        } else if id == Language::Java.id() {
            Some(Language::Java)
        } else if id == Language::Nix.id() {
            Some(Language::Nix)
        } else {
            None
        }
    }

    /// The language whose source files have the given extension.
    pub open spec fn with_extension(extension: Seq<char>) -> Option<Language> {
        if extension == Language::Rust.extension() {
            Some(Language::Rust)
        } else if extension == Language::TypeScript.extension() {
            Some(Language::TypeScript)
        } else if extension == Language::JavaScript.extension() {
            Some(Language::JavaScript)
        } else if extension == Language::Python.extension() {
            Some(Language::Python)
        } else if extension == Language::Go.extension() {
            Some(Language::Go)
        } else if extension == Language::Java.extension() {
            Some(Language::Java)
        } else if extension == Language::Nix.extension() {
            Some(Language::Nix)
        } else {
            None
        }
    }

    pub fn language_id(&self) -> (id: &'static str)
        ensures
            id@ == self.id(),
    {
        match self {
            Language::Rust => "rust",
            Language::TypeScript => "typescript",
            Language::JavaScript => "javascript",
            Language::Python => "python",
            Language::Go => "go",
            Language::Java => "java",
            Language::Nix => "nix",
        }
    }

    pub fn file_extension(&self) -> (extension: &'static str)
        ensures
            extension@ == self.extension(),
    {
        match self {
            Language::Rust => "rs",
            Language::TypeScript => "ts",
            Language::JavaScript => "js",
            Language::Python => "py",
            Language::Go => "go",
            Language::Java => "java",
            Language::Nix => "nix",
        }
    }

    /// Looks a language up by its identifier.
    pub fn from_language_id(language_id: &str) -> (language: Option<Language>)
        ensures
            language == Language::with_id(language_id@),
    {
        if str_eq(language_id, "rust") {
            Some(Language::Rust)
        } else if str_eq(language_id, "typescript") {
            Some(Language::TypeScript)
        } else if str_eq(language_id, "javascript") {
            Some(Language::JavaScript)
        } else if str_eq(language_id, "python") {
            Some(Language::Python)
        } else if str_eq(language_id, "go") {
            Some(Language::Go)
        } else if str_eq(language_id, "java") {
            Some(Language::Java)
        } else if str_eq(language_id, "nix") {
            Some(Language::Nix)
        } else {
            None
        }
    }

    /// Looks a language up by the extension of its source files.
    pub fn from_extension(extension: &str) -> (language: Option<Language>)
        ensures
            language == Language::with_extension(extension@),
    {
        if str_eq(extension, "rs") {
            Some(Language::Rust)
        } else if str_eq(extension, "ts") {
            Some(Language::TypeScript)
        } else if str_eq(extension, "js") {
            Some(Language::JavaScript)
        } else if str_eq(extension, "py") {
            Some(Language::Python)
        } else if str_eq(extension, "go") {
            Some(Language::Go)
        } else if str_eq(extension, "java") {
            Some(Language::Java)
        } else if str_eq(extension, "nix") {
            Some(Language::Nix)
        } else {
            None
        }
    }
}

/// Every language is found under its own identifier and under its own
/// extension: no two languages share either.
pub proof fn lemma_languages_distinct(language: Language)
    ensures
        Language::with_id(language.id()) == Some(language),
        Language::with_extension(language.extension()) == Some(language),
{
    reveal_strlit("rust");
    reveal_strlit("typescript");
    reveal_strlit("javascript");
    reveal_strlit("python");
    reveal_strlit("go");
    reveal_strlit("java");
    reveal_strlit("nix");
    reveal_strlit("rs");
    reveal_strlit("ts");
    reveal_strlit("js");
    reveal_strlit("py");
    assert("rust"@[0] == 'r' && "java"@[0] == 'j');
    assert("typescript"@[0] == 't' && "javascript"@[0] == 'j');
    assert("rs"@[0] == 'r' && "ts"@[0] == 't' && "js"@[0] == 'j' && "py"@[0] == 'p' && "go"@[0]
        == 'g');
    assert("rust"@.len() == 4 && "typescript"@.len() == 10 && "javascript"@.len() == 10);
    assert("python"@.len() == 6 && "go"@.len() == 2 && "java"@.len() == 4 && "nix"@.len() == 3);
    assert("rs"@.len() == 2 && "ts"@.len() == 2 && "js"@.len() == 2 && "py"@.len() == 2);
    match language {
        Language::Rust => {},
        Language::TypeScript => {},
        Language::JavaScript => {},
        Language::Python => {},
        Language::Go => {},
        Language::Java => {},
        Language::Nix => {},
    }
}

/// A language that is found under an identifier has that identifier.
pub proof fn lemma_id_found(id: Seq<char>)
    ensures
        Language::with_id(id) matches Some(language) ==> language.id() == id,
{
}

/// `dot` is the position of the dot that starts the extension of `path`:
/// the last dot of the file name, and not the file name's first character.
/// The file name is what follows the last `/`.
pub open spec fn extension_starts_at(path: Seq<char>, dot: int) -> bool {
    &&& 0 < dot < path.len()
    &&& path[dot] == '.'
    &&& path[dot - 1] != '/'
    &&& forall|j: int| dot < j < path.len() ==> #[trigger] path[j] != '.' && path[j] != '/'
}

/// The extension of the file that `path` names, without the dot; none if
/// the file name has no dot, or only a leading one.
pub open spec fn extension_of(path: Seq<char>) -> Option<Seq<char>> {
    if exists|dot: int| extension_starts_at(path, dot) {
        let dot = choose|dot: int| extension_starts_at(path, dot);
        Some(path.subrange(dot + 1, path.len() as int))
    } else {
        None
    }
}

/// The language of the file that `path` names, by its extension.
pub open spec fn language_of_path(path: Seq<char>) -> Option<Language> {
    match extension_of(path) {
        Some(extension) => Language::with_extension(extension),
        None => None,
    }
}

/// The extension of the file that `path` names.
pub fn path_extension(path: &str) -> (extension: Option<&str>)
    ensures
        match extension_of(path@) {
            Some(expected) => extension matches Some(found) && found@ == expected,
            None => extension is None,
        },
{
    let n = path.unicode_len();
    let mut i = n;
    while i > 0
        invariant
            i <= n,
            n == path@.len(),
            forall|j: int| i <= j < n ==> #[trigger] path@[j] != '.' && path@[j] != '/',
        decreases i,
    {
        let c = path.get_char(i - 1);
        if c == '/' {
            proof {
                let at = i - 1;
                assert forall|dot: int| !extension_starts_at(path@, dot) by {
                    if extension_starts_at(path@, dot) {
                        if dot < at {
                            assert(path@[at] != '/');
                        } else if dot > at {
                            assert(path@[dot] != '.');
                        }
                    }
                }
            }
            return None;
        }
        if c == '.' {
            let first_of_name = i - 1 == 0 || path.get_char(i - 2) == '/';
            proof {
                let at = i - 1;
                assert forall|dot: int| extension_starts_at(path@, dot) implies dot == at by {
                    if dot < at {
                        assert(path@[at] != '.');
                    } else if dot > at {
                        assert(path@[dot] != '.');
                    }
                }
                if !first_of_name {
                    assert(extension_starts_at(path@, at));
                }
            }
            if first_of_name {
                return None;
            }
            return Some(path.substring_char(i, n));
        }
        i -= 1;
    }
    proof {
        assert forall|dot: int| !extension_starts_at(path@, dot) by {
            if extension_starts_at(path@, dot) {
                assert(path@[dot] != '.');
            }
        }
    }
    None
}

/// The language of the file that `file_path` names, if it is a supported
/// one.
pub fn detect_language(file_path: &str) -> (language: Option<Language>)
    ensures
        language == language_of_path(file_path@),
{
    match path_extension(file_path) {
        Some(extension) => Language::from_extension(extension),
        None => None,
    }
}

/// The identifier of the language of the file that `file_path` names.
pub fn get_language_id(file_path: &str) -> (language_id: Option<&'static str>)
    ensures
        match language_of_path(file_path@) {
            Some(language) => language_id matches Some(id) && id@ == language.id(),
            None => language_id is None,
        },
{
    match detect_language(file_path) {
        Some(language) => Some(language.language_id()),
        None => None,
    }
}

} // verus!
