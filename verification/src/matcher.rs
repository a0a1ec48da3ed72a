//! The regular-expression engine, as far as the library relies on it.

use crate::error::ProcessError;
use crate::text::{parse_number, parsed};
use regex::Regex;
use vstd::prelude::*;

verus! {

/// A compiled expression of the `regex` crate. Nothing of its inside is
/// known here; it is kept inside a `Pattern` from `Regex::new` to the search.
#[verifier::external_type_specification]
#[verifier::external_body]
pub struct ExRegex(regex::Regex);

/// What `Regex::new` gives back for a pattern that it does not take.
#[verifier::external_type_specification]
#[verifier::external_body]
pub struct ExRegexError(regex::Error);

/// The pattern text that a compiled expression was built from, as
/// `Regex::as_str` gives it back.
pub uninterp spec fn regex_source(re: Regex) -> Seq<char>;

/// The groups of one match: group 0 is the whole match; a group is the text
/// it matched, or `None` where it took no part.
pub type Groups = Seq<Option<Seq<char>>>;

/// What `Regex::captures_iter` yields for an expression that `Regex::new`
/// compiled from `pattern`, on the haystack `text`: the successive
/// non-overlapping matches from left to right, each as the list of its groups
/// (group 0 is the whole match), a group being the text it matched or `None`
/// where it took no part.
pub uninterp spec fn regex_captures(pattern: Seq<char>, text: Seq<char>) -> Seq<Groups>;

/// Whether `Regex::new`, which compiles with the engine's default settings
/// and limits, takes `pattern`: whether the text is a valid expression whose
/// compiled form stays within the default size limit.
pub uninterp spec fn regex_accepts(pattern: Seq<char>) -> bool;

/// `Regex::new` decides by the pattern alone whether it takes it, and keeps
/// the pattern it was given: a compiled expression reports that very text as
/// its source. Not proved, but taken from the engine.
pub assume_specification[ Regex::new ](re: &str) -> (r: Result<Regex, regex::Error>)
    ensures
        r is Ok <==> regex_accepts(re@),
        r matches Ok(compiled) ==> regex_source(compiled) == re@,
;

/// `Regex::as_str` gives back the text that the expression was built from.
/// Not proved, but taken from the engine.
pub assume_specification<'a>[ Regex::as_str ](re: &'a Regex) -> (source: &'a str)
    ensures
        source@ == regex_source(*re),
;

/// A pattern that the engine has compiled with its default settings. The
/// only way to one is `Pattern::new`, so that what a pattern finds in a text
/// depends on its source and on the text alone.
pub struct Pattern {
    regex: Regex,
}

impl View for Pattern {
    type V = Seq<char>;

    /// The text that the pattern was compiled from.
    closed spec fn view(&self) -> Seq<char> {
        regex_source(self.regex)
    }
}

impl Pattern {
    /// Compiles `source`. Succeeds exactly where the engine takes the text;
    /// the pattern then has that text as its source.
    pub fn new(source: &str) -> (compiled: Result<Pattern, ProcessError>)
        ensures
            compiled is Ok <==> regex_accepts(source@),
            compiled matches Ok(pattern) ==> pattern@ == source@,
            compiled matches Err(e) ==> e == ProcessError::PatternRejected,
    {
        match Regex::new(source) {
            Ok(regex) => Ok(Pattern { regex }),
            Err(_) => Err(ProcessError::PatternRejected),
        }
    }

    /// The text that the pattern was compiled from.
    pub fn as_str(&self) -> (source: &str)
        ensures
            source@ == self@,
    {
        self.regex.as_str()
    }
}

/// The groups of one match, each as owned text.
pub struct Captures {
    pub groups: Vec<Option<String>>,
}

/// The value of one group.
pub open spec fn group_view(group: Option<String>) -> Option<Seq<char>> {
    match group {
        Some(s) => Some(s@),
        None => None,
    }
}

impl View for Captures {
    type V = Groups;

    open spec fn view(&self) -> Groups {
        self.groups@.map_values(|g: Option<String>| group_view(g))
    }
}

/// What the groups of one match hold at `index`, if the group is there and
/// took part in the match.
pub open spec fn text_of(groups: Groups, index: int) -> Option<Seq<char>> {
    if 0 <= index < groups.len() {
        groups[index]
    } else {
        None
    }
}

/// The number that the group at `index` spells.
pub open spec fn number_of(groups: Groups, index: int) -> Option<usize> {
    match text_of(groups, index) {
        Some(s) => parsed(s),
        None => None,
    }
}

impl Captures {
    /// The text of the group at `index`.
    pub fn get(&self, index: usize) -> (text: Option<&String>)
        ensures
            match text {
                Some(s) => text_of(self@, index as int) == Some(s@),
                None => text_of(self@, index as int) is None,
            },
    {
        if index < self.groups.len() {
            self.groups[index].as_ref()
        } else {
            None
        }
    }

    /// The number that the group at `index` spells.
    pub fn number(&self, index: usize) -> (n: Option<usize>)
        ensures
            n == number_of(self@, index as int),
    {
        match self.get(index) {
            Some(s) => parse_number(s.as_str()),
            None => None,
        }
    }
}

/// The values of a list of matches.
pub open spec fn captures_view(found: Seq<Captures>) -> Seq<Groups> {
    found.map_values(|c: Captures| c@)
}

/// Calls `Regex::captures_iter` on the expression inside `pattern` and
/// copies every match out of the haystack, group by group. Not proved, but
/// taken from the engine: every `Pattern` was compiled by `Regex::new` with
/// the default settings, so what is found depends on the pattern's source and
/// on `text` alone, and the result is `regex_captures` of the two.
#[verifier::external_body]
pub(crate) fn all_captures(pattern: &Pattern, text: &str) -> (found: Vec<Captures>)
    ensures
        captures_view(found@) == regex_captures(pattern@, text@),
{
    pattern.regex.captures_iter(text)
        .map(|c| Captures { groups: c.iter().map(|g| g.map(|m| m.as_str().to_owned())).collect() })
        .collect()
}

} // verus!
