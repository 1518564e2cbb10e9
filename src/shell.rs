//! Shell words: one command line to a token list and back, through shellwords.

use vstd::prelude::*;

verus! {

/// The tokens that shellwords reads from a line, or `None` where the line has a
/// quote without its closing match.
pub uninterp spec fn shell_split(line: Seq<char>) -> Option<Seq<Seq<char>>>;

/// The characters that shellwords leaves unescaped: `[A-Za-z0-9_\-.,:/@]`.
pub open spec fn shell_safe(c: char) -> bool {
    ('A' <= c && c <= 'Z') || ('a' <= c && c <= 'z') || ('0' <= c && c <= '9') || c == '_'
        || c == '-' || c == '.' || c == ',' || c == ':' || c == '/' || c == '@'
}

/// One character as shellwords escapes it: a line feed between single quotes,
/// a safe character as it is, any other after a backslash.
pub open spec fn escape_char(c: char) -> Seq<char> {
    if c == '\n' {
        seq!['\'', '\n', '\'']
    } else if shell_safe(c) {
        seq![c]
    } else {
        seq!['\\', c]
    }
}

pub open spec fn escape_chars(t: Seq<char>) -> Seq<char>
    decreases t.len(),
{
    if t.len() == 0 {
        Seq::empty()
    } else {
        escape_chars(t.drop_last()) + escape_char(t.last())
    }
}

/// One token as shellwords escapes it; an empty token becomes `''`.
pub open spec fn escape_word(t: Seq<char>) -> Seq<char> {
    if t.len() == 0 {
        seq!['\'', '\'']
    } else {
        escape_chars(t)
    }
}

/// The line that shellwords writes for a token list: the escaped tokens,
/// separated by single spaces.
pub open spec fn shell_join(tokens: Seq<Seq<char>>) -> Seq<char>
    decreases tokens.len(),
{
    if tokens.len() == 0 {
        Seq::empty()
    } else if tokens.len() == 1 {
        escape_word(tokens[0])
    } else {
        shell_join(tokens.drop_last()) + seq![' '] + escape_word(tokens.last())
    }
}

/// The characters of each token, in order.
pub open spec fn token_views(tokens: Seq<String>) -> Seq<Seq<char>> {
    tokens.map_values(|t: String| t@)
}

/// Relies on shellwords::split: splits a line into words as a Bourne shell
/// would, and fails only where quotes are mismatched.
#[verifier::external_body]
pub(crate) fn split_words(line: &str) -> (r: Option<Vec<String>>)
    ensures
        match r {
            Some(tokens) => shell_split(line@) == Some(token_views(tokens@)),
            None => shell_split(line@) is None,
        },
{
    shellwords::split(line).ok()
}

/// Relies on shellwords::join: escapes each token with shellwords::escape (a
/// backslash before each character outside `[A-Za-z0-9_\-.,:/@\n]`, then each
/// line feed replaced by one between single quotes; `''` for an empty token)
/// and joins them with single spaces.
#[verifier::external_body]
pub(crate) fn join_words(tokens: &Vec<String>) -> (r: String)
    ensures
        r@ == shell_join(token_views(tokens@)),
{
    shellwords::join(&tokens.iter().map(String::as_str).collect::<Vec<&str>>())
}

} // verus!
