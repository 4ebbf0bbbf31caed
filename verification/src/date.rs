//! The date stripper: an ordered table of calendar-date shapes. The first
//! shape that a text has decides what is left of it once the date is gone.

use crate::cascade::{
    first_outcome, first_present, lemma_first_present_decides, lemma_first_present_none, texts_of,
};
use crate::extract::standardized;
use crate::pattern::{captured_group, is_match, pattern_group, pattern_matches, text_of};
use crate::version::{ComposerVersion, DEFAULT};
use vstd::prelude::*;

verus! {

/// The date shapes, in the order in which they are tried. Each captures what
/// surrounds the date under the group name `rest`.
pub const DATE_RULES: [&'static str; 10] = [
    r"^(?P<date>\d{2}-\d{2}-\d{4})\.(?P<rest>\d+)$",
    r"^(?P<date>\d{4}-\d{2}\.\d{2})-(?P<rest>.+)$",
    r"^(?P<date>\d{4}-(?:Jan|Feb|Mar|Apr|May|Jun|Jul|Aug|Sep|Oct|Nov|Dec)-\d{2})-(?P<rest>.+)$",
    r"^(?P<date>(19|20)\d{2}-(0?[1-9]|1[0-2])-(0?[1-9]|[12]\d|3[01]))\.(?P<rest>.+)$",
    r"^(?P<date>(19|20)\d{2}\.(0?[1-9]|1[0-2])\.(0?[1-9]|[12]\d|3[01]))\.(?P<rest>.+)$",
    r"^(?P<date>(19|20)\d{2}\.(0?[1-9]|1[0-2])\.(0?[1-9]|[12]\d|3[01]))-(?P<rest>.+)$",
    r"^(?P<date>(19|20)\d{2}\.(0?[1-9]|[12]\d|3[01])\.(0?[1-9]|1[0-2]))-(?P<rest>.+)$",
    r"^(?P<date>\d{4}\.\d{2}-\d{2})-(?P<rest>\d+)$",
    r"^(?P<date>\d{4}-\d{2}-\d{2})_(?P<rest>\d+)$",
    r"^(?P<date>(?:19|20)\d{2}-(?:0?[1-9]|1[0-2])-(?:0?[1-9]|[12]\d|3[01]))-(?P<rest>\w+|\d+)$",
];

/// The name of the capture group that holds what is left without the date.
pub const REST_GROUP: &'static str = "rest";

/// Whether the date shape at `rule` matches `text`.
pub open spec fn date_rule_matches(text: Seq<char>, rule: int) -> bool {
    0 <= rule < DATE_RULES@.len() && pattern_matches(DATE_RULES@[rule]@, text)
}

/// What the date shape at `rule` leaves of `text`: the captured rest, or the
/// default where the shape is a date and nothing else.
pub open spec fn date_rule_rest(text: Seq<char>, rule: int) -> Seq<char> {
    match pattern_group(DATE_RULES@[rule]@, text, REST_GROUP@) {
        Some(rest) => rest,
        None => DEFAULT@,
    }
}

/// What one date shape leaves, given what was asked of it: nothing where it
/// does not match, else the captured rest, or the default where it captured
/// none.
pub open spec fn rule_leaves(matched: bool, rest: Option<Seq<char>>) -> Option<Seq<char>> {
    if matched {
        Some(
            match rest {
                Some(rest) => rest,
                None => DEFAULT@,
            },
        )
    } else {
        None
    }
}

/// What the date shape at `rule` makes of `text`.
pub open spec fn date_rule_outcome(text: Seq<char>, rule: int) -> Option<Seq<char>> {
    rule_leaves(
        pattern_matches(DATE_RULES@[rule]@, text),
        pattern_group(DATE_RULES@[rule]@, text, REST_GROUP@),
    )
}

/// What each date shape makes of `text`, in the order of the table.
pub open spec fn date_outcomes(text: Seq<char>) -> Seq<Option<Seq<char>>> {
    Seq::new(DATE_RULES@.len(), |rule: int| date_rule_outcome(text, rule))
}

/// What is left of `text` without its date: what the first matching shape
/// leaves; nothing when the text has the shape of no known date.
pub open spec fn cleaned(text: Seq<char>) -> Option<Seq<char>> {
    first_present(date_outcomes(text))
}

/// The standardized text of a raw version text: the date is stripped where
/// there is one, and the extractor runs on what is left.
pub open spec fn standardized_raw(text: Seq<char>) -> Seq<char> {
    match cleaned(text) {
        Some(rest) => standardized(rest),
        None => standardized(text),
    }
}

/// Says what one date shape leaves, given whether it matched and what it
/// captured as the rest.
pub fn rule_outcome(matched: bool, rest: Option<String>) -> (left: Option<String>)
    ensures
        text_of(left) == rule_leaves(matched, text_of(rest)),
{
    if matched {
        Some(
            match rest {
                Some(rest) => rest,
                None => String::from_str(DEFAULT),
            },
        )
    } else {
        None
    }
}

impl ComposerVersion {
    /// Strips a calendar date. The first shape of the table that matches
    /// decides, whatever later shapes make of the text.
    pub fn clean_from_date(original_version: &str) -> (rest: Option<String>)
        ensures
            text_of(rest) == cleaned(original_version@),
    {
        let mut outcomes: Vec<Option<String>> = Vec::new();
        let mut rule: usize = 0;
        while rule < DATE_RULES.len()
            invariant
                rule <= DATE_RULES@.len(),
                outcomes@.len() == rule,
                forall|k: int|
                    0 <= k < rule ==> text_of(#[trigger] outcomes@[k]) == date_rule_outcome(
                        original_version@,
                        k,
                    ),
            decreases DATE_RULES@.len() - rule,
        {
            let matched = is_match(DATE_RULES[rule], original_version);
            let rest = if matched {
                captured_group(DATE_RULES[rule], original_version, REST_GROUP)
            } else {
                None
            };
            outcomes.push(rule_outcome(matched, rest));
            rule = rule + 1;
        }
        assert(texts_of(outcomes@) =~= date_outcomes(original_version@));
        first_outcome(outcomes)
    }

    /// Standardizes a raw version text: strips a date, then extracts.
    pub fn standardize(original_version: &str) -> (version: String)
        ensures
            version@ == standardized_raw(original_version@),
    {
        match ComposerVersion::clean_from_date(original_version) {
            Some(rest) => ComposerVersion::get_standardized_version(rest.as_str()),
            None => ComposerVersion::get_standardized_version(original_version),
        }
    }
}

/// Law: a matching shape decides as soon as no earlier shape matches.
pub proof fn lemma_first_date_rule_decides(text: Seq<char>, rule: int)
    ensures
        date_rule_matches(text, rule) && (forall|earlier: int|
            0 <= earlier < rule ==> !date_rule_matches(text, earlier)) ==> cleaned(text) == Some(
            date_rule_rest(text, rule),
        ),
{
    if date_rule_matches(text, rule) && (forall|earlier: int|
        0 <= earlier < rule ==> !date_rule_matches(text, earlier)) {
        let outcomes = date_outcomes(text);
        assert forall|earlier: int| 0 <= earlier < rule implies (
        #[trigger] outcomes[earlier]).is_none() by {
            assert(!date_rule_matches(text, earlier));
        }
        lemma_first_present_decides(outcomes, rule);
    }
}

/// Law: a text is left alone exactly when it has none of the shapes.
pub proof fn lemma_no_date_rule(text: Seq<char>)
    ensures
        cleaned(text).is_none() <==> forall|rule: int| !date_rule_matches(text, rule),
{
    let outcomes = date_outcomes(text);
    lemma_first_present_none(outcomes);
    if cleaned(text).is_none() {
        assert forall|rule: int| !date_rule_matches(text, rule) by {
            if 0 <= rule < DATE_RULES@.len() {
                assert(outcomes[rule].is_none());
            }
        }
    } else {
        let k = choose|k: int| 0 <= k < outcomes.len() && !(#[trigger] outcomes[k]).is_none();
        assert(date_rule_matches(text, k));
    }
}

} // verus!
