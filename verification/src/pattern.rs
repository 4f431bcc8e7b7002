//! Regular expressions, as far as matching a text goes.

use vstd::prelude::*;

verus! {

/// A regular expression as it is written, and whether it is to match
/// without regard to case.
#[derive(Debug)]
pub struct Pattern {
    pub source: String,
    pub insensitive: bool,
}

/// Whether `source` is a regular expression that `regex` accepts.
pub uninterp spec fn is_regex(source: Seq<char>, insensitive: bool) -> bool;

/// Whether the regular expression `source` matches somewhere in `text`.
pub uninterp spec fn regex_matches(source: Seq<char>, insensitive: bool, text: Seq<char>) -> bool;

impl Pattern {
    /// Whether this is a regular expression that can be matched.
    pub open spec fn valid(&self) -> bool {
        is_regex(self.source@, self.insensitive)
    }

    /// Whether this matches somewhere in `text`.
    pub open spec fn matches(&self, text: Seq<char>) -> bool {
        regex_matches(self.source@, self.insensitive, text)
    }
}

/// `regex::RegexBuilder::new(source).case_insensitive(insensitive)
/// .build()`, then `Regex::is_match` on each text. There is a result
/// where the expression is accepted, which depends on the expression and
/// the flag alone. It says of each text whether the expression matches
/// somewhere in it, which depends on these two and the text alone.
#[verifier::external_body]
pub(crate) fn match_each(pattern: &Pattern, texts: &Vec<String>) -> (r: Option<Vec<bool>>)
    ensures
        r.is_some() == is_regex(pattern.source@, pattern.insensitive),
        r.is_some() ==> r.unwrap().len() == texts.len(),
        r.is_some() ==> forall|i: int|
            0 <= i < texts.len() ==> #[trigger] r.unwrap()[i] == regex_matches(
                pattern.source@,
                pattern.insensitive,
                texts[i]@,
            ),
{
    match regex::RegexBuilder::new(&pattern.source).case_insensitive(pattern.insensitive).build() {
        Ok(re) => Some(texts.iter().map(|text| re.is_match(text)).collect()),
        Err(_) => None,
    }
}

/// Whether `pattern` is a regular expression that can be matched.
pub fn is_valid(pattern: &Pattern) -> (b: bool)
    ensures
        b == pattern.valid(),
{
    let none: Vec<String> = Vec::new();
    match_each(pattern, &none).is_some()
}

/// Whether `pattern` matches somewhere in `text`, if it is a regular
/// expression that can be matched.
pub fn is_match(pattern: &Pattern, text: &str) -> (r: Option<bool>)
    ensures
        r is Some <==> pattern.valid(),
        r matches Some(b) ==> b == pattern.matches(text@),
{
    let mut one: Vec<String> = Vec::new();
    one.push(text.to_owned());
    match match_each(pattern, &one) {
        Some(flags) => Some(flags[0]),
        None => None,
    }
}

} // verus!
