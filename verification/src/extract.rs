//! The version extractor: an ordered cascade of recognizers that turns a
//! candidate text into a standardized `major.minor.patch` text. The first
//! recognizer that succeeds decides; when none does, the default stands.

use crate::cascade::{first_outcome, first_present, texts_of};
use crate::decimal::{chars_of, parse_digits, render_number};
use crate::dotted::{shortened, split_bounds};
use crate::pattern::{captured_group, is_match, pattern_group, pattern_matches, text_of};
use crate::version::{ComposerVersion, DEFAULT};
use vstd::prelude::*;

verus! {

/// A bare calendar date `YYYY.MM.DD` of the twentieth or twenty-first
/// century, with nothing after it.
pub const JUST_DOTTED_DATE: &'static str = r"^(?:19\d{2}|20\d{2})\.\d{2}\.\d{2}$";

/// A number, possibly behind leading zeros.
pub const LEADING_ZEROS: &'static str = r"^0*(?P<version>\d+)$";

/// A major version alone.
pub const MAJOR: &'static str = r"^\d+$";

/// A major and a minor version.
pub const MAJOR_MINOR: &'static str = r"^\d+\.\d+$";

/// A full triple.
pub const MAJOR_MINOR_PATCH: &'static str = r"^\d+\.\d+\.\d+$";

/// A full triple, a dash, and trailing text.
pub const TRIPLE_WITH_META: &'static str = r"^(?P<version>\d+\.\d+\.\d+)-[\w.-]+$";

/// A number, optionally followed by a dash and trailing text.
pub const MAJOR_WITH_META: &'static str = r"^(?P<version>\d+)(?:-(?P<meta>.*))?$";

/// Text that ends in a dash and a number marked with `v`.
pub const META_WITH_MARKED: &'static str = r"^(?P<meta>.+)-v(?P<version>\d+)$";

/// Four numbers separated by dots.
pub const FOUR_PART: &'static str = r"^(\d+)\.(\d+)\.(\d+)\.(\d+)$";

/// The name of the capture group that holds a version.
pub const VERSION_GROUP: &'static str = "version";

/// `s` without one leading version marker, `v` or `V`.
pub open spec fn strip_marker(s: Seq<char>) -> Seq<char> {
    if s.len() > 0 && (s[0] == 'v' || s[0] == 'V') {
        s.skip(1)
    } else {
        s
    }
}

/// A short version padded to three parts: a major version gets `.0.0`, a
/// major and minor version `.0`, and a full triple stays as it is. A text
/// of no such shape gives nothing.
pub open spec fn padded(s: Seq<char>) -> Option<Seq<char>> {
    if pattern_matches(MAJOR@, s) {
        Some(s + ".0.0"@)
    } else if pattern_matches(MAJOR_MINOR@, s) {
        Some(s + ".0"@)
    } else if pattern_matches(MAJOR_MINOR_PATCH@, s) {
        Some(s)
    } else {
        None
    }
}

/// The version that `pattern` captures in `s`, padded to three parts.
pub open spec fn captured_version(s: Seq<char>, pattern: Seq<char>) -> Option<Seq<char>> {
    match pattern_group(pattern, s, VERSION_GROUP@) {
        Some(version) => padded(version),
        None => None,
    }
}

/// The four-part version in `s` collapsed into three parts, where `s` has
/// the shape of four dotted numbers.
pub open spec fn collapsed(s: Seq<char>) -> Option<Seq<char>> {
    if pattern_matches(FOUR_PART@, s) {
        shortened(s)
    } else {
        None
    }
}

/// What each recognizer makes of a candidate without its leading marker, in
/// the order in which the recognizers count:
///
/// - a number behind leading zeros, padded;
/// - a major, major.minor or full version, padded;
/// - a full triple followed by a dash and trailing text: the triple;
/// - text that ends in `-v` and a number: that number, padded;
/// - a number followed by a dash and trailing text: that number, padded;
/// - four dotted numbers, collapsed into three.
///
/// A number marked with `v` is looked for only at the end of the text and
/// behind a dash, so a `v` inside trailing text (`1.2.3-rev2`, `5-rev2`)
/// marks nothing. Where a text both ends in such a marked number and begins
/// with digits (`2023-023-29-v3`), the marked number counts: the marker
/// vouches for it, and nothing vouches for the leading digits.
pub open spec fn recognized(stripped: Seq<char>) -> Seq<Option<Seq<char>>> {
    seq![
        captured_version(stripped, LEADING_ZEROS@),
        padded(stripped),
        pattern_group(TRIPLE_WITH_META@, stripped, VERSION_GROUP@),
        captured_version(stripped, META_WITH_MARKED@),
        captured_version(stripped, MAJOR_WITH_META@),
        collapsed(stripped),
    ]
}

/// The standardized text, given what the recognizers answered: the default
/// for a bare calendar date, else the first answer that is present, else the
/// default.
pub open spec fn decided(bare_date: bool, recognized: Seq<Option<Seq<char>>>) -> Seq<char> {
    if bare_date {
        DEFAULT@
    } else {
        match first_present(recognized) {
            Some(version) => version,
            None => DEFAULT@,
        }
    }
}

/// The standardized text of a candidate. Whether it is a bare dotted
/// calendar date is asked of the candidate as given; the recognizers look at
/// the candidate without its leading marker.
pub open spec fn standardized(original: Seq<char>) -> Seq<char> {
    decided(pattern_matches(JUST_DOTTED_DATE@, original), recognized(strip_marker(original)))
}

/// Decides the standardized text from what the recognizers answered: the
/// default for a bare calendar date, else the first answer that is present,
/// else the default.
pub fn decide_version(bare_date: bool, recognized: Vec<Option<String>>) -> (version: String)
    ensures
        version@ == decided(bare_date, texts_of(recognized@)),
{
    if bare_date {
        return String::from_str(DEFAULT);
    }
    match first_outcome(recognized) {
        Some(version) => version,
        None => String::from_str(DEFAULT),
    }
}

/// Removes one leading version marker, `v` or `V`, if there is one.
pub fn without_marker(original: &str) -> (stripped: &str)
    ensures
        stripped@ == strip_marker(original@),
{
    let n: usize = original.unicode_len();
    if n > 0 {
        let first: char = original.get_char(0);
        if first == 'v' || first == 'V' {
            let stripped = original.substring_char(1, n);
            assert(original@.subrange(1, n as int) =~= original@.skip(1));
            return stripped;
        }
    }
    original
}

impl ComposerVersion {
    /// Collapses a four-part version `a.b.c.d` into `a.b.(c+d)`. Gives
    /// nothing unless the text has exactly four parts, the last two are
    /// numbers, and their sum fits in 32 bits.
    pub fn shorten_version(version: &str) -> (short: Option<String>)
        ensures
            text_of(short) == shortened(version@),
    {
        let chars = chars_of(version);
        let bounds = split_bounds(&chars);
        if bounds.len() != 4 {
            return None;
        }
        let third = parse_digits(&chars, bounds[2].0, bounds[2].1);
        let fourth = parse_digits(&chars, bounds[3].0, bounds[3].1);
        match (third, fourth) {
            (Some(third), Some(fourth)) => {
                match third.checked_add(fourth) {
                    Some(sum) => {
                        let mut short = String::from_str(
                            version.substring_char(bounds[0].0, bounds[0].1),
                        );
                        short.append(".");
                        short.append(version.substring_char(bounds[1].0, bounds[1].1));
                        short.append(".");
                        short.append(render_number(sum).as_str());
                        proof {
                            reveal_strlit(".");
                            assert("."@ =~= seq!['.']);
                        }
                        Some(short)
                    },
                    None => None,
                }
            },
            _ => None,
        }
    }

    /// Pads a short version to three parts.
    pub fn get_standard_version_from_shortened_version(original: &str) -> (version: Option<String>)
        ensures
            text_of(version) == padded(original@),
    {
        if is_match(MAJOR, original) {
            let mut version = String::from_str(original);
            version.append(".0.0");
            return Some(version);
        }
        if is_match(MAJOR_MINOR, original) {
            let mut version = String::from_str(original);
            version.append(".0");
            return Some(version);
        }
        if is_match(MAJOR_MINOR_PATCH, original) {
            return Some(String::from_str(original));
        }
        None
    }

    /// Pads the version that `pattern` captures in `original` under the
    /// group name `version`.
    pub fn get_full_version_from_captured_version(original: &str, pattern: &str) -> (version:
        Option<String>)
        ensures
            text_of(version) == captured_version(original@, pattern@),
    {
        match captured_group(pattern, original, VERSION_GROUP) {
            Some(version) => ComposerVersion::get_standard_version_from_shortened_version(
                version.as_str(),
            ),
            None => None,
        }
    }

    /// Runs the recognizers on a candidate text and decides by the first
    /// that answers.
    pub fn get_standardized_version(original: &str) -> (version: String)
        ensures
            version@ == standardized(original@),
    {
        let original_without_start_v = without_marker(original);
        let bare_date = is_match(JUST_DOTTED_DATE, original);
        let mut answers: Vec<Option<String>> = Vec::new();
        answers.push(
            ComposerVersion::get_full_version_from_captured_version(
                original_without_start_v,
                LEADING_ZEROS,
            ),
        );
        answers.push(
            ComposerVersion::get_standard_version_from_shortened_version(original_without_start_v),
        );
        answers.push(captured_group(TRIPLE_WITH_META, original_without_start_v, VERSION_GROUP));
        answers.push(
            ComposerVersion::get_full_version_from_captured_version(
                original_without_start_v,
                META_WITH_MARKED,
            ),
        );
        answers.push(
            ComposerVersion::get_full_version_from_captured_version(
                original_without_start_v,
                MAJOR_WITH_META,
            ),
        );
        answers.push(
            if is_match(FOUR_PART, original_without_start_v) {
                ComposerVersion::shorten_version(original_without_start_v)
            } else {
                None
            },
        );
        assert(texts_of(answers@) =~= recognized(original_without_start_v@));
        decide_version(bare_date, answers)
    }
}

} // verus!
