//! The adapter for Nix, served by `nixd`.

use crate::adapter::{DefinitionPattern, LanguageAdapter, SymbolKind};
use crate::language::Language;
use crate::pattern::{whole_word, word_pattern};
use vstd::prelude::*;
use vstd::string::StrSliceExecFns;
use vstd::utf8::{decode_utf8, encode_utf8, encode_utf8_decode_utf8, is_char_boundary};

verus! {

/// The white-space characters, as Unicode defines them.
pub open spec fn is_whitespace(c: char) -> bool {
    let code = c as u32;
    ||| 0x09 <= code <= 0x0d
    ||| code == 0x20
    ||| code == 0x85
    ||| code == 0xa0
    ||| code == 0x1680
    ||| 0x2000 <= code <= 0x200a
    ||| code == 0x2028
    ||| code == 0x2029
    ||| code == 0x202f
    ||| code == 0x205f
    ||| code == 0x3000
}

/// Whether `text`, without the white space at its end, ends with `=` or
/// with `:`.
pub open spec fn ends_with_binder(text: Seq<char>) -> bool {
    exists|last: int|
        {
            &&& 0 <= last < text.len()
            &&& (#[trigger] text[last] == '=' || text[last] == ':')
            &&& forall|j: int| last < j < text.len() ==> is_whitespace(#[trigger] text[j])
        }
}

/// The text of `line` before the byte offset `position`.
pub open spec fn text_before(line: Seq<char>, position: int) -> Seq<char> {
    decode_utf8(encode_utf8(line).subrange(0, position))
}

/// In Nix a name is defined where it stands before `=` or `:`. The text
/// before `position` is a definition context if it ends with one of the
/// two, white space aside. Position zero, a position beyond the end of the
/// line, and a position inside a character are no definition context.
pub open spec fn nix_definition_context(line: Seq<char>, position: int) -> bool {
    &&& 0 < position <= encode_utf8(line).len()
    &&& is_char_boundary(encode_utf8(line), position)
    &&& ends_with_binder(text_before(line, position))
}

/// In Nix a comment begins with `#`. A position lies in a comment if a `#`
/// stands before it; a position beyond the end of the line counts as the
/// end. String literals are not looked at. In UTF-8 the byte 0x23 is always
/// the character `#`.
pub open spec fn nix_in_comment(line: Seq<char>, position: int) -> bool {
    exists|i: int|
        0 <= i < position && i < encode_utf8(line).len() && #[trigger] encode_utf8(line)[i]
            == 0x23
}

fn whitespace(c: char) -> (yes: bool)
    ensures
        yes == is_whitespace(c),
{
    let code = c as u32;
    (0x09 <= code && code <= 0x0d) || code == 0x20 || code == 0x85 || code == 0xa0 || code
        == 0x1680 || (0x2000 <= code && code <= 0x200a) || code == 0x2028 || code == 0x2029
        || code == 0x202f || code == 0x205f || code == 0x3000
}

/// The adapter for Nix.
#[derive(Clone, Copy, Debug, PartialEq, Eq, Structural)]
pub struct NixdAdapter;

impl NixdAdapter {
    pub fn new() -> (adapter: Self)
        ensures
            adapter == NixdAdapter,
    {
        NixdAdapter
    }

    /// The language that the adapter serves.
    pub fn language(&self) -> (language: Language)
        ensures
            language == Language::Nix,
    {
        Language::Nix
    }
}

impl LanguageAdapter for NixdAdapter {
    fn language_id(&self) -> (id: &'static str)
        ensures
            id@ == Language::Nix.id(),
    {
        "nix"
    }

    fn supported_extensions(&self) -> (extensions: Vec<&'static str>)
        ensures
            extensions@.len() == 1,
            extensions@[0]@ == Language::Nix.extension(),
    {
        let mut extensions: Vec<&'static str> = Vec::new();
        extensions.push("nix");
        extensions
    }

    /// Nix has no keywords that introduce a definition.
    fn definition_patterns(&self) -> (patterns: Vec<DefinitionPattern>)
        ensures
            patterns@.len() == 0,
    {
        Vec::new()
    }

    /// The name as a whole word, whatever the kind of the symbol.
    fn build_reference_pattern(&self, name: &str, kind: &SymbolKind) -> (pattern: String)
        ensures
            pattern@ == whole_word(name@),
    {
        word_pattern(name)
    }

    fn is_definition_context(&self, line: &str, position: usize) -> (yes: bool)
        ensures
            yes == nix_definition_context(line@, position as int),
    {
        if position == 0 || position > line.as_bytes().len() || !line.is_char_boundary(position) {
            return false;
        }
        let (text, _) = line.split_at(position);
        let length = text.unicode_len();
        let ghost before = text@;
        proof {
            encode_utf8_decode_utf8(before);
            assert(before == text_before(line@, position as int));
        }
        let mut end = length;
        while end > 0
            invariant
                end <= length,
                length == before.len(),
                before == text@,
                before == text_before(line@, position as int),
                0 < position <= encode_utf8(line@).len(),
                is_char_boundary(encode_utf8(line@), position as int),
                forall|j: int| end <= j < length ==> is_whitespace(#[trigger] before[j]),
            decreases end,
        {
            let c = text.get_char(end - 1);
            if !whitespace(c) {
                let found = c == '=' || c == ':';
                proof {
                    let at = end - 1;
                    if !found {
                        assert forall|last: int|
                            !{
                                &&& 0 <= last < before.len()
                                &&& (#[trigger] before[last] == '=' || before[last] == ':')
                                &&& forall|j: int|
                                    last < j < before.len() ==> is_whitespace(#[trigger] before[j])
                            } by {
                            if 0 <= last < at {
                                assert(!is_whitespace(before[at]));
                            } else if at < last < before.len() {
                                assert(is_whitespace(before[last]));
                            }
                        }
                    } else {
                        assert(before[at] == '=' || before[at] == ':');
                    }
                }
                return found;
            }
            end -= 1;
        }
        proof {
            assert forall|last: int|
                !{
                    &&& 0 <= last < before.len()
                    &&& (#[trigger] before[last] == '=' || before[last] == ':')
                    &&& forall|j: int|
                        last < j < before.len() ==> is_whitespace(#[trigger] before[j])
                } by {
                if 0 <= last < before.len() {
                    assert(is_whitespace(before[last]));
                }
            }
        }
        false
    }

    fn is_in_string_or_comment(&self, line: &str, position: usize) -> (yes: bool)
        ensures
            yes == nix_in_comment(line@, position as int),
    {
        let bytes = line.as_bytes();
        let end = if position < bytes.len() {
            position
        } else {
            bytes.len()
        };
        let mut i: usize = 0;
        while i < end
            invariant
                i <= end <= bytes@.len(),
                end <= position,
                end == position || end == bytes@.len(),
                bytes@ == encode_utf8(line@),
                forall|k: int| 0 <= k < i ==> #[trigger] bytes@[k] != 0x23,
            decreases end - i,
        {
            if bytes[i] == 0x23 {
                return true;
            }
            i += 1;
        }
        false
    }
}

} // verus!
