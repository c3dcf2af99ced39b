//! Text patterns for the search that works without a server.

use vstd::prelude::*;
use vstd::string::StringExecFns;

verus! {

/// The characters that have a meaning of their own in a regular
/// expression.
pub open spec fn is_meta_character(c: char) -> bool {
    ||| c == '\\'
    ||| c == '.'
    ||| c == '+'
    ||| c == '*'
    ||| c == '?'
    ||| c == '('
    ||| c == ')'
    ||| c == '|'
    ||| c == '['
    ||| c == ']'
    ||| c == '{'
    ||| c == '}'
    ||| c == '^'
    ||| c == '$'
    ||| c == '#'
    ||| c == '&'
    ||| c == '-'
    ||| c == '~'
}

/// `text` with a backslash before each of its meta characters.
pub open spec fn escaped(text: Seq<char>) -> Seq<char>
    decreases text.len(),
{
    if text.len() == 0 {
        Seq::empty()
    } else if is_meta_character(text.last()) {
        escaped(text.drop_last()).push('\\').push(text.last())
    } else {
        escaped(text.drop_last()).push(text.last())
    }
}

/// Calls `regex::escape`, which walks through the characters of its
/// argument and writes each of them out, with a backslash before it where
/// `regex_syntax::is_meta_character` holds of it. The contract claims that
/// the result is exactly that text.
#[verifier::external_body]
fn escape(text: &str) -> (quoted: String)
    ensures
        quoted@ == escaped(text@),
{
    regex::escape(text)
}

/// A pattern that matches `name` as a whole word: the escaped name between
/// two word boundaries.
pub open spec fn whole_word(name: Seq<char>) -> Seq<char> {
    seq!['\\', 'b'] + escaped(name) + seq!['\\', 'b']
}

/// Puts a text that is already escaped between two word boundaries.
pub fn between_word_boundaries(quoted: &str) -> (pattern: String)
    ensures
        pattern@ == seq!['\\', 'b'] + quoted@ + seq!['\\', 'b'],
{
    proof {
        reveal_strlit("\\b");
        assert("\\b"@ =~= seq!['\\', 'b']);
    }
    let mut pattern = String::from_str("\\b");
    pattern.append(quoted);
    pattern.append("\\b");
    pattern
}

/// The pattern that matches `name` as a whole word.
pub fn word_pattern(name: &str) -> (pattern: String)
    ensures
        pattern@ == whole_word(name@),
{
    let quoted = escape(name);
    between_word_boundaries(quoted.as_str())
}

} // verus!
