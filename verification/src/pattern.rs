//! Compiled regular expressions of the `regex` crate, for the two simple
//! forms of pattern the message parser uses: a word of ASCII letters and
//! digits, and such a word whose last character is starred.
use vstd::prelude::*;

verus! {

#[verifier::external_type_specification]
#[verifier::external_body]
pub struct ExRegex(regex::Regex);

#[verifier::external_type_specification]
#[verifier::external_body]
pub struct ExRegexError(regex::Error);

/// An ASCII letter or digit: a character that a regular expression matches
/// literally.
pub open spec fn is_word_char(c: char) -> bool {
    ('a' <= c && c <= 'z') || ('A' <= c && c <= 'Z') || ('0' <= c && c <= '9')
}

/// A non-empty word of ASCII letters and digits.
pub open spec fn is_literal_word(p: Seq<char>) -> bool {
    p.len() > 0 && forall|i: int| 0 <= i < p.len() ==> is_word_char(#[trigger] p[i])
}

/// Such a word followed by `*`: its last letter may occur any number of times,
/// none included.
pub open spec fn is_starred_word(p: Seq<char>) -> bool {
    p.len() >= 2 && p.last() == '*' && is_literal_word(p.drop_last())
}

/// `needle` occurs somewhere in `haystack`.
pub open spec fn contains_text(haystack: Seq<char>, needle: Seq<char>) -> bool {
    exists|i: int|
        0 <= i <= haystack.len() - needle.len() && #[trigger] haystack.subrange(
            i,
            i + needle.len(),
        ) == needle
}

/// Whether a pattern of one of the two simple forms matches somewhere in
/// `haystack`: a word matches where it occurs; a starred word matches where the
/// word without its starred letter occurs.
pub open spec fn simple_pattern_matches(pattern: Seq<char>, haystack: Seq<char>) -> bool {
    if is_literal_word(pattern) {
        contains_text(haystack, pattern)
    } else {
        contains_text(haystack, pattern.drop_last().drop_last())
    }
}

/// A regular expression together with the text it was compiled from.
pub struct Pattern {
    source: String,
    compiled: regex::Regex,
}

impl Pattern {
    /// The text the expression was compiled from.
    pub closed spec fn source(&self) -> Seq<char> {
        self.source@
    }
}

/// `regex::Regex::new`: compiles `pattern`. Claimed: a compiled expression is
/// kept with the text it was compiled from; and a short pattern of one of the
/// two simple forms compiles, since the crate fails only on invalid syntax or
/// on a program above its default size limit (10 MiB).
#[verifier::external_body]
pub(crate) fn compile(pattern: &str) -> (r: Result<Pattern, regex::Error>)
    ensures
        r matches Ok(p) ==> p.source() == pattern@,
        (is_literal_word(pattern@) || is_starred_word(pattern@)) && pattern@.len() <= 16 ==> r is Ok,
{
    match regex::Regex::new(pattern) {
        Ok(compiled) => Ok(Pattern { source: pattern.to_owned(), compiled }),
        Err(e) => Err(e),
    }
}

/// `regex::Regex::is_match`: whether the expression matches anywhere in
/// `haystack`. Claimed only for the two simple pattern forms, where the
/// crate's documented syntax (literal characters match themselves, `x*` is
/// zero or more `x`) fixes the answer.
#[verifier::external_body]
pub(crate) fn is_match(pattern: &Pattern, haystack: &str) -> (b: bool)
    requires
        is_literal_word(pattern.source()) || is_starred_word(pattern.source()),
    ensures
        b == simple_pattern_matches(pattern.source(), haystack@),
{
    pattern.compiled.is_match(haystack)
}

} // verus!
