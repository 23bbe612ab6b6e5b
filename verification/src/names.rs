//! Sets of regular expressions that names are matched against.

use regex::RegexSet;
use vstd::prelude::*;
use crate::text;

verus! {

/// A set of regular expressions of the `regex` crate.
#[verifier::external_type_specification]
#[verifier::external_body]
pub struct ExRegexSet(RegexSet);

/// The patterns that a set of regular expressions holds, in order.
pub uninterp spec fn set_patterns(set: RegexSet) -> Seq<Seq<char>>;

/// What is wrong with some patterns, as the `regex` crate says it, if they do not all compile.
pub uninterp spec fn patterns_error(patterns: Seq<Seq<char>>) -> Option<Seq<char>>;

/// Whether any of some patterns matches somewhere in a text, as the `regex` crate matches them.
pub uninterp spec fn patterns_match(patterns: Seq<Seq<char>>, name: Seq<char>) -> bool;

/// Compiles some patterns by `regex::RegexSet::new`, which fails where one of them does not compile; whether it fails, and
/// with which message, depends on the patterns alone.
#[verifier::external_body]
pub(crate) fn compile_patterns(patterns: &Vec<String>) -> (r: Result<RegexSet, String>)
    ensures
        match r {
            Ok(set) => patterns_error(text::texts(patterns@)) is None && set_patterns(set) == text::texts(patterns@),
            Err(message) => patterns_error(text::texts(patterns@)) == Some(message@),
        },
{
    match RegexSet::new(patterns) {
        Ok(set) => Ok(set),
        Err(err) => Err(err.to_string()),
    }
}

/// Whether any pattern of a set matches somewhere in a text, by `regex::RegexSet::is_match`, which depends on the patterns
/// and on the text alone.
#[verifier::external_body]
pub(crate) fn set_matches(set: &RegexSet, name: &str) -> (r: bool)
    ensures
        r == patterns_match(set_patterns(*set), name@),
{
    set.is_match(name)
}

/// Which mutants are wanted, by name.
pub struct NameFilter {
    /// If there are patterns here, only names that match one of them are wanted.
    examine: Option<RegexSet>,
    /// Names that match one of these patterns are not wanted.
    exclude: Option<RegexSet>,
}

/// The model of a [`NameFilter`]: no patterns, or some.
pub ghost struct FilterModel {
    pub examine: Option<Seq<Seq<char>>>,
    pub exclude: Option<Seq<Seq<char>>>,
}

impl FilterModel {
    /// Whether a name is wanted.
    pub open spec fn allows(self, name: Seq<char>) -> bool {
        &&& self.examine matches Some(patterns) ==> patterns_match(patterns, name)
        &&& self.exclude matches Some(patterns) ==> !patterns_match(patterns, name)
    }
}

/// Some patterns, unless there are none.
pub open spec fn patterns_if_any(patterns: Seq<Seq<char>>) -> Option<Seq<Seq<char>>> {
    if patterns.len() == 0 {
        None
    } else {
        Some(patterns)
    }
}

impl View for NameFilter {
    type V = FilterModel;

    closed spec fn view(&self) -> FilterModel {
        FilterModel {
            examine: match self.examine {
                Some(set) => Some(set_patterns(set)),
                None => None,
            },
            exclude: match self.exclude {
                Some(set) => Some(set_patterns(set)),
                None => None,
            },
        }
    }
}

/// Compiles some patterns, unless there are none.
fn compile_if_any(patterns: &Vec<String>) -> (r: Result<Option<RegexSet>, String>)
    ensures
        match r {
            Ok(None) => patterns@.len() == 0,
            Ok(Some(set)) => patterns@.len() > 0 && patterns_error(text::texts(patterns@)) is None && set_patterns(set)
                == text::texts(patterns@),
            Err(message) => patterns@.len() > 0 && patterns_error(text::texts(patterns@)) == Some(message@),
        },
{
    if patterns.len() == 0 {
        return Ok(None);
    }
    match compile_patterns(patterns) {
        Ok(set) => Ok(Some(set)),
        Err(message) => Err(message),
    }
}

impl NameFilter {
    /// A filter that lets every name pass.
    pub fn all() -> (r: NameFilter)
        ensures
            r@ == (FilterModel { examine: None, exclude: None }),
    {
        NameFilter { examine: None, exclude: None }
    }

    /// A filter made of patterns for wanted names, and patterns for names that are not wanted. The patterns that do not
    /// compile are reported: first those for wanted names.
    pub fn new(examine: &Vec<String>, exclude: &Vec<String>) -> (r: Result<NameFilter, String>)
        ensures
            ({
                let wanted = text::texts(examine@);
                let unwanted = text::texts(exclude@);
                let first = if wanted.len() > 0 {
                    patterns_error(wanted)
                } else {
                    None
                };
                let second = if unwanted.len() > 0 {
                    patterns_error(unwanted)
                } else {
                    None
                };
                match r {
                    Ok(filter) => first is None && second is None && filter@ == (FilterModel {
                        examine: patterns_if_any(wanted),
                        exclude: patterns_if_any(unwanted),
                    }),
                    Err(message) => if first is Some {
                        first == Some(message@)
                    } else {
                        second == Some(message@)
                    },
                }
            }),
    {
        let examine = match compile_if_any(examine) {
            Ok(set) => set,
            Err(message) => return Err(message),
        };
        let exclude = match compile_if_any(exclude) {
            Ok(set) => set,
            Err(message) => return Err(message),
        };
        Ok(NameFilter { examine, exclude })
    }

    /// Whether a name is wanted.
    pub fn allows(&self, name: &str) -> (r: bool)
        ensures
            r == self@.allows(name@),
    {
        let examined = match &self.examine {
            Some(set) => set_matches(set, name),
            None => true,
        };
        let excluded = match &self.exclude {
            Some(set) => set_matches(set, name),
            None => false,
        };
        examined && !excluded
    }
}

/// A name is wanted if it matches one of the patterns for wanted names, or there are none, and none of the patterns for names
/// that are not wanted; and a filter that is made of no patterns lets every name pass.
pub proof fn filters_want_by_their_patterns(examine: &Vec<String>, exclude: &Vec<String>, filter: NameFilter, name: Seq<char>)
    requires
        call_ensures(NameFilter::new, (examine, exclude), Ok::<NameFilter, String>(filter)),
    ensures
        filter@.allows(name) <==> (examine@.len() == 0 || patterns_match(text::texts(examine@), name)) && (exclude@.len() == 0
            || !patterns_match(text::texts(exclude@), name)),
{
    assert(text::texts(examine@).len() == examine@.len());
    assert(text::texts(exclude@).len() == exclude@.len());
}

} // verus!
