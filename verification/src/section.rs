//! A searchable part of a settings page: a title and the descriptions of
//! what it offers.

use regex::Regex;
use slab::Slab;
use vstd::prelude::*;

verus! {

/// `regex::Regex`, whose inside stays hidden: what a rule matches is
/// [`rule_accepts`].
#[verifier::external_type_specification]
#[verifier::external_body]
pub struct ExRegex(Regex);

/// Whether the rule finds a match somewhere in `text`.
pub uninterp spec fn rule_accepts(rule: Regex, text: Seq<char>) -> bool;

/// The descriptions that a slab holds, by key.
pub uninterp spec fn descriptions_of(descriptions: Slab<String>) -> Map<usize, Seq<char>>;

/// Some description is `text`.
pub open spec fn holds_text(descriptions: Map<usize, Seq<char>>, text: Seq<char>) -> bool {
    exists|key: usize| descriptions.contains_key(key) && #[trigger] descriptions[key] == text
}

/// Some element of `texts` is `text`.
pub open spec fn offers_text(texts: Seq<&String>, text: Seq<char>) -> bool {
    exists|i: int| 0 <= i < texts.len() && (#[trigger] texts[i])@ == text
}

/// `texts` holds the descriptions, and nothing else.
pub open spec fn lists_all(texts: Seq<&String>, descriptions: Map<usize, Seq<char>>) -> bool {
    &&& forall|i: int| 0 <= i < texts.len() ==> holds_text(descriptions, (#[trigger] texts[i])@)
    &&& forall|key: usize|
        descriptions.contains_key(key) ==> offers_text(texts, #[trigger] descriptions[key])
}

/// `Regex::is_match`: whether the rule finds a match somewhere in `text`.
#[verifier::external_body]
fn is_match(rule: &Regex, text: &str) -> (hit: bool)
    ensures
        hit == rule_accepts(*rule, text@),
{
    rule.is_match(text)
}

/// `Slab::new`, for descriptions: the new slab holds none.
#[verifier::external_body]
fn no_descriptions() -> (descriptions: Slab<String>)
    ensures
        descriptions_of(descriptions).dom() == Set::<usize>::empty(),
{
    Slab::new()
}

/// `Slab::iter`, for descriptions: every description that the slab holds,
/// and nothing else.
#[verifier::external_body]
fn description_texts(descriptions: &Slab<String>) -> (texts: Vec<&String>)
    ensures
        lists_all(texts@, descriptions_of(*descriptions)),
{
    descriptions.iter().map(|(_, text)| text).collect()
}

/// A searchable sub-component of a page.
///
/// Searches can group multiple sections together.
#[must_use]
pub struct Section {
    pub title: String,
    pub descriptions: Slab<String>,
    pub search_ignore: bool,
}

impl Default for Section {
    fn default() -> (r: Section)
        ensures
            r.title@.len() == 0,
            descriptions_of(r.descriptions).dom() == Set::<usize>::empty(),
            !r.search_ignore,
    {
        Section { title: String::new(), descriptions: no_descriptions(), search_ignore: false }
    }
}

impl Section {
    /// Whether a search by `rule` finds the section: it is not left out of
    /// searches, and the rule accepts its title or one of its descriptions.
    pub open spec fn found_by(&self, rule: Regex) -> bool {
        let descriptions = descriptions_of(self.descriptions);
        !self.search_ignore && (rule_accepts(rule, self.title@) || exists|key: usize|
            descriptions.contains_key(key) && rule_accepts(rule, #[trigger] descriptions[key]))
    }

    /// The section under a new title.
    pub fn title(self, value: String) -> (r: Section)
        ensures
            r.title == value,
            r.descriptions == self.descriptions,
            r.search_ignore == self.search_ignore,
    {
        Section { title: value, descriptions: self.descriptions, search_ignore: self.search_ignore }
    }

    /// The section with new descriptions.
    pub fn descriptions(self, value: Slab<String>) -> (r: Section)
        ensures
            r.title == self.title,
            r.descriptions == value,
            r.search_ignore == self.search_ignore,
    {
        Section { title: self.title, descriptions: value, search_ignore: self.search_ignore }
    }

    /// The section, left out of searches.
    pub fn search_ignore(self) -> (r: Section)
        ensures
            r.title == self.title,
            r.descriptions == self.descriptions,
            r.search_ignore,
    {
        Section { title: self.title, descriptions: self.descriptions, search_ignore: true }
    }

    /// Whether a search by `rule` finds the section.
    #[must_use]
    #[inline]
    pub fn search_matches(&self, rule: &Regex) -> (r: bool)
        ensures
            r == self.found_by(*rule),
    {
        if self.search_ignore {
            return false;
        }
        if is_match(rule, self.title.as_str()) {
            return true;
        }
        let texts = description_texts(&self.descriptions);
        let ghost descriptions = descriptions_of(self.descriptions);
        let mut i: usize = 0;
        while i < texts.len()
            invariant
                i <= texts.len(),
                !self.search_ignore,
                !rule_accepts(*rule, self.title@),
                descriptions == descriptions_of(self.descriptions),
                lists_all(texts@, descriptions),
                forall|j: int| 0 <= j < i ==> !rule_accepts(*rule, (#[trigger] texts[j])@),
            decreases texts.len() - i,
        {
            let text: &String = texts[i];
            if is_match(rule, text.as_str()) {
                proof {
                    let key = choose|key: usize|
                        descriptions.contains_key(key) && #[trigger] descriptions[key]
                            == texts[i as int]@;
                    assert(rule_accepts(*rule, descriptions[key]));
                }
                return true;
            }
            i += 1;
        }
        proof {
            assert forall|key: usize| descriptions.contains_key(key) implies !rule_accepts(
                *rule,
                #[trigger] descriptions[key],
            ) by {
                let i = choose|i: int|
                    0 <= i < texts.len() && (#[trigger] texts[i])@ == descriptions[key];
                assert(!rule_accepts(*rule, texts[i]@));
            }
        }
        false
    }
}

} // verus!
