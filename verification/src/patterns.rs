//! Resource patterns: which item names count as resources, and in which
//! category.

use crate::text::chars_of;
use crate::text::string_of;
use vstd::prelude::*;

verus! {

/// A regular expression and the category of the names that it matches.
#[derive(Debug, Clone)]
pub struct ResourcePattern {
    pub pattern: String,
    pub category: String,
}

/// The resource patterns, in the order in which they are tried.
#[derive(Debug, Clone)]
pub struct PatternConfig {
    pub resource_pattern: Vec<ResourcePattern>,
}

/// Whether the regular expression `pattern` matches somewhere in `input`, or
/// nothing where `pattern` is no regular expression that can be compiled.
pub uninterp spec fn regex_match(pattern: Seq<char>, input: Seq<char>) -> Option<bool>;

/// `regex::Regex::new` and, on the expression it compiled,
/// `regex::Regex::is_match`: whether `pattern` matches somewhere in `input`.
/// Where `pattern` does not compile the result is `None`. The result is a
/// function of the two texts alone.
#[verifier::external_body]
fn regex_is_match(pattern: &str, input: &str) -> (r: Option<bool>)
    ensures
        r == regex_match(pattern@, input@),
{
    match regex::Regex::new(pattern) {
        Ok(compiled) => Some(compiled.is_match(input)),
        Err(_) => None,
    }
}

/// The category of names that match no pattern.
pub open spec fn default_category() -> Seq<char> {
    "miscellaneous"@
}

/// What each of `patterns` says of `input`, in order.
pub open spec fn match_results(input: Seq<char>, patterns: Seq<ResourcePattern>) -> Seq<
    Option<bool>,
> {
    Seq::new(patterns.len(), |i: int| regex_match(patterns[i].pattern@, input))
}

/// The position of the first result that is a match. A pattern that does not
/// compile matches nothing.
pub open spec fn first_match(results: Seq<Option<bool>>) -> Option<int>
    decreases results.len(),
{
    if results.len() == 0 {
        None
    } else {
        match first_match(results.drop_last()) {
            Some(i) => Some(i),
            None => if results.last() == Some(true) {
                Some(results.len() - 1)
            } else {
                None
            },
        }
    }
}

/// The category that the results `results` of `patterns` give: that of the
/// first pattern that matched, and the default category where none did.
pub open spec fn category_of_results(
    results: Seq<Option<bool>>,
    patterns: Seq<ResourcePattern>,
) -> Seq<char> {
    match first_match(results) {
        Some(i) => patterns[i].category@,
        None => default_category(),
    }
}

/// Whether one of `patterns` matches `input`.
pub open spec fn is_resource(input: Seq<char>, patterns: Seq<ResourcePattern>) -> bool {
    first_match(match_results(input, patterns)) is Some
}

/// The category of `input` under `patterns`.
pub open spec fn resource_category(input: Seq<char>, patterns: Seq<ResourcePattern>) -> Seq<char> {
    category_of_results(match_results(input, patterns), patterns)
}

/// The first match is a match, lies within the results, and has no match
/// before it; where there is none, no result is a match.
pub proof fn lemma_first_match(results: Seq<Option<bool>>)
    ensures
        match first_match(results) {
            Some(i) => 0 <= i < results.len() && results[i] == Some(true) && forall|j: int|
                0 <= j < i ==> results[j] != Some(true),
            None => forall|j: int| 0 <= j < results.len() ==> results[j] != Some(true),
        },
    decreases results.len(),
{
    if results.len() > 0 {
        lemma_first_match(results.drop_last());
        assert forall|j: int| 0 <= j < results.len() - 1 implies results.drop_last()[j]
            == results[j] by {}
    }
}

/// What each of `patterns` says of `input`.
pub fn match_all(input: &str, patterns: &[ResourcePattern]) -> (results: Vec<Option<bool>>)
    ensures
        results@ == match_results(input@, patterns@),
{
    let mut results: Vec<Option<bool>> = Vec::new();
    let mut i: usize = 0;
    while i < patterns.len()
        invariant
            i <= patterns.len(),
            results@ == match_results(input@, patterns@).take(i as int),
        decreases patterns.len() - i,
    {
        let result = regex_is_match(patterns[i].pattern.as_str(), input);
        results.push(result);
        assert(results@ =~= match_results(input@, patterns@).take(i + 1));
        i += 1;
    }
    assert(match_results(input@, patterns@).take(patterns@.len() as int) =~= match_results(
        input@,
        patterns@,
    ));
    results
}

/// The position of the first result that is a match.
pub fn first_matching(results: &Vec<Option<bool>>) -> (r: Option<usize>)
    ensures
        match r {
            Some(i) => first_match(results@) == Some(i as int),
            None => first_match(results@) is None,
        },
{
    let mut found: Option<usize> = None;
    let mut i: usize = 0;
    assert(results@.take(0) =~= Seq::<Option<bool>>::empty());
    while i < results.len()
        invariant
            i <= results.len(),
            match found {
                Some(at) => first_match(results@.take(i as int)) == Some(at as int),
                None => first_match(results@.take(i as int)) is None,
            },
        decreases results.len() - i,
    {
        assert(results@.take(i + 1).drop_last() =~= results@.take(i as int));
        if found.is_none() {
            match results[i] {
                Some(true) => {
                    found = Some(i);
                },
                _ => {},
            }
        }
        i += 1;
    }
    assert(results@.take(results@.len() as int) =~= results@);
    found
}

/// The category that the results `results` of `patterns` give.
pub fn category_of_matches(results: &Vec<Option<bool>>, patterns: &[ResourcePattern]) -> (category:
    String)
    requires
        results.len() == patterns.len(),
    ensures
        category@ == category_of_results(results@, patterns@),
{
    proof {
        lemma_first_match(results@);
    }
    match first_matching(results) {
        Some(i) => patterns[i].category.clone(),
        None => {
            let fallback = chars_of("miscellaneous");
            string_of(fallback.as_slice())
        },
    }
}

/// Whether `input` matches one of `patterns`. A pattern that does not
/// compile matches nothing.
pub fn matches_pattern(input: &str, patterns: &[ResourcePattern]) -> (r: bool)
    ensures
        r == is_resource(input@, patterns@),
{
    let results = match_all(input, patterns);
    first_matching(&results).is_some()
}

/// The category of `input`: that of the first of `patterns` that matches
/// it, and the default category where none does.
pub fn get_resource_category(input: &str, patterns: &[ResourcePattern]) -> (category: String)
    ensures
        category@ == resource_category(input@, patterns@),
{
    let results = match_all(input, patterns);
    category_of_matches(&results, patterns)
}

/// The category of `input` under the patterns of `config`.
pub fn categorize_resource(input: &str, config: &PatternConfig) -> (category: String)
    ensures
        category@ == resource_category(input@, config.resource_pattern@),
{
    get_resource_category(input, config.resource_pattern.as_slice())
}

} // verus!
