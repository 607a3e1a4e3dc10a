//! Quoting of device identifiers for the shells and scripts that receive
//! them.

use crate::text::{chars_of, replace_char, replace_char_spec, string_of};
use vstd::prelude::*;

verus! {

/// What stands for a single quote inside a single-quoted shell word: the
/// quote is closed, an escaped quote follows, and the quote is opened again.
pub open spec fn shell_quote_escape() -> Seq<char> {
    seq!['\'', '\\', '\'', '\'']
}

/// `s` made safe for a single-quoted shell word.
pub open spec fn escape_shell_single_spec(s: Seq<char>) -> Seq<char> {
    replace_char_spec(s, '\'', shell_quote_escape())
}

/// `s` made safe for a double-quoted AppleScript string: every backslash is
/// doubled, then every double quote gets a backslash in front.
pub open spec fn escape_applescript_spec(s: Seq<char>) -> Seq<char> {
    replace_char_spec(replace_char_spec(s, '\\', seq!['\\', '\\']), '"', seq!['\\', '"'])
}

/// Escapes `input` for use inside a double-quoted AppleScript string.
pub fn escape_applescript(input: &str) -> (out: String)
    ensures
        out@ == escape_applescript_spec(input@),
{
    let chars = chars_of(input);
    let mut backslashes: Vec<char> = Vec::new();
    backslashes.push('\\');
    backslashes.push('\\');
    let mut quote: Vec<char> = Vec::new();
    quote.push('\\');
    quote.push('"');
    proof {
        assert(backslashes@ =~= seq!['\\', '\\']);
        assert(quote@ =~= seq!['\\', '"']);
    }
    let doubled = replace_char(&chars, '\\', &backslashes);
    let escaped = replace_char(&doubled, '"', &quote);
    string_of(&escaped)
}

/// Escapes `input` for use inside a single-quoted shell word.
pub fn escape_shell_single(input: &str) -> (out: String)
    ensures
        out@ == escape_shell_single_spec(input@),
{
    let chars = chars_of(input);
    let mut quote: Vec<char> = Vec::new();
    quote.push('\'');
    quote.push('\\');
    quote.push('\'');
    quote.push('\'');
    proof {
        assert(quote@ =~= shell_quote_escape());
    }
    let escaped = replace_char(&chars, '\'', &quote);
    string_of(&escaped)
}

} // verus!
