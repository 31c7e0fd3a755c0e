//! The `regex` crate, as the rules use it: compile a pattern, test a text.
use vstd::prelude::*;

verus! {

#[verifier::external_type_specification]
#[verifier::external_body]
pub struct ExRegex(regex::Regex);

#[verifier::external_type_specification]
#[verifier::external_body]
pub struct ExRegexError(regex::Error);

/// `Clone` for `regex::Regex` (derived in the crate): the copy shares the
/// compiled program; nothing is claimed of it here.
pub assume_specification[ <regex::Regex as Clone>::clone ](re: &regex::Regex) -> regex::Regex;

/// Whether `regex::Regex::new` accepts `pattern`.
pub uninterp spec fn regex_compiles(pattern: Seq<char>) -> bool;

/// Whether the regex compiled from `pattern` matches somewhere in `text`
/// (`regex::Regex::is_match`).
pub uninterp spec fn regex_matches(pattern: Seq<char>, text: Seq<char>) -> bool;

/// The characters `regex::escape` puts a backslash in front of.
pub open spec fn is_meta_char(c: char) -> bool {
    c == '\\' || c == '.' || c == '+' || c == '*' || c == '?' || c == '(' || c == ')' || c
        == '|' || c == '[' || c == ']' || c == '{' || c == '}' || c == '^' || c == '$' || c
        == '#' || c == '&' || c == '-' || c == '~'
}

/// What `regex::escape` returns: every meta character preceded by `\`.
pub open spec fn escaped(s: Seq<char>) -> Seq<char>
    decreases s.len(),
{
    if s.len() == 0 {
        Seq::empty()
    } else {
        let prev = escaped(s.drop_last());
        if is_meta_char(s.last()) {
            prev.push('\\').push(s.last())
        } else {
            prev.push(s.last())
        }
    }
}

/// A compiled regular expression together with the pattern it was compiled
/// from. Values are only made by [`regex_new`], so `re` is always the
/// compilation of `source`.
#[derive(Clone, Debug)]
pub struct CompiledRegex {
    source: String,
    re: regex::Regex,
}

impl CompiledRegex {
    /// The pattern this regex was compiled from.
    pub closed spec fn source(&self) -> Seq<char> {
        self.source@
    }

    /// Whether the regex matches somewhere in `text`.
    pub fn is_match(&self, text: &str) -> (b: bool)
        ensures
            b == regex_matches(self.source(), text@),
    {
        regex_is_match(self, text)
    }
}

/// `regex::Regex::new`: succeeds exactly when `regex_compiles(pattern)`,
/// and the value it gives is the compilation of `pattern`.
#[verifier::external_body]
pub(crate) fn regex_new(pattern: &str) -> (r: Result<CompiledRegex, regex::Error>)
    ensures
        r is Ok <==> regex_compiles(pattern@),
        r matches Ok(c) ==> c.source() == pattern@,
{
    match regex::Regex::new(pattern) {
        Ok(re) => Ok(CompiledRegex { source: pattern.to_string(), re }),
        Err(e) => Err(e),
    }
}

/// `regex::Regex::is_match`; the answer is named `regex_matches` of the
/// pattern and the text.
#[verifier::external_body]
pub(crate) fn regex_is_match(re: &CompiledRegex, text: &str) -> (b: bool)
    ensures
        b == regex_matches(re.source(), text@),
{
    re.re.is_match(text)
}

/// `regex::escape`: a backslash before each of `\ . + * ? ( ) | [ ] { } ^ $ # & - ~`.
#[verifier::external_body]
pub(crate) fn regex_escape(text: &str) -> (r: String)
    ensures
        r@ == escaped(text@),
{
    regex::escape(text)
}

/// The text of a `regex::Error` (its `Display`); nothing is claimed of it.
#[verifier::external_body]
pub(crate) fn regex_error_text(e: &regex::Error) -> String {
    e.to_string()
}

} // verus!
