use composer_version::cascade::first_outcome;
use composer_version::date::{rule_outcome, DATE_RULES};
use composer_version::decimal::{parse_component, render_number};
use composer_version::dotted::read_triple;
use composer_version::extract::{decide_version, without_marker};
use composer_version::pattern::{captured_group, is_match};
use composer_version::{ComposerVersion, DEFAULT};

#[test]
fn default_is_one_zero_zero() {
    assert_eq!("1.0.0", DEFAULT);
    assert_eq!((1, 0, 0), ComposerVersion::resolve(DEFAULT));
}

#[test]
fn unrecognizable_text_gives_the_default() {
    assert_eq!("1.0.0", ComposerVersion::new("release-candidate").to_string());
    assert_eq!("1.0.0", ComposerVersion::new("").to_string());
}

#[test]
fn original_is_kept_verbatim() {
    let version = ComposerVersion::new("  2021-11-24.3 ");
    assert_eq!("  2021-11-24.3 ", version.get_original());
    let version = ComposerVersion::new("v1.0.1");
    assert_eq!("v1.0.1", version.get_original());
}

#[test]
fn clone_keeps_text_and_triple() {
    let mut version = ComposerVersion::new("v1.2.3");
    let copy = version.clone();
    version.bump_major();
    assert_eq!("1.2.3", copy.to_string());
    assert_eq!("v1.2.3", copy.get_original());
    assert_eq!("2.0.0", version.to_string());
}

#[test]
fn parse_component_reads_digits() {
    assert_eq!(Some(0), parse_component("0"));
    assert_eq!(Some(7), parse_component("007"));
    assert_eq!(Some(20211), parse_component("20211"));
    assert_eq!(Some(4294967295), parse_component("4294967295"));
    assert_eq!(Some(4294967295), parse_component("0004294967295"));
}

#[test]
fn parse_component_rejects_what_is_no_number() {
    assert_eq!(None, parse_component(""));
    assert_eq!(None, parse_component("12a"));
    assert_eq!(None, parse_component("+5"));
    assert_eq!(None, parse_component("-5"));
    assert_eq!(None, parse_component(" 5"));
    assert_eq!(None, parse_component("\u{0663}"));
}

#[test]
fn parse_component_rejects_what_does_not_fit() {
    assert_eq!(None, parse_component("4294967296"));
    assert_eq!(None, parse_component("4294967300"));
    assert_eq!(None, parse_component("42949672950"));
    assert_eq!(None, parse_component("99999999999999999999999"));
}

#[test]
fn render_number_writes_decimal() {
    assert_eq!("0", render_number(0));
    assert_eq!("9", render_number(9));
    assert_eq!("10", render_number(10));
    assert_eq!("20211", render_number(20211));
    assert_eq!("4294967295", render_number(u32::MAX));
}

#[test]
fn read_triple_wants_three_numbers() {
    assert_eq!(Some((1, 2, 3)), read_triple("1.2.3"));
    assert_eq!(Some((1, 2, 3)), read_triple("01.002.3"));
    assert_eq!(None, read_triple("1.2"));
    assert_eq!(None, read_triple("1.2.3.4"));
    assert_eq!(None, read_triple("1..3"));
    assert_eq!(None, read_triple("1.2."));
    assert_eq!(None, read_triple(".1.2"));
    assert_eq!(None, read_triple(""));
    assert_eq!(None, read_triple("1.2.x"));
    assert_eq!(None, read_triple("1.2.4294967296"));
}

#[test]
fn resolve_falls_back_to_the_default() {
    assert_eq!((20211, 11, 24), ComposerVersion::resolve("20211.11.24"));
    assert_eq!((1, 0, 0), ComposerVersion::resolve("4294967296.0.0"));
    assert_eq!((1, 0, 0), ComposerVersion::resolve("\u{0663}.0.0"));
    assert_eq!((1, 0, 0), ComposerVersion::resolve("nothing"));
}

#[test]
fn shorten_version_adds_the_last_two_parts() {
    assert_eq!(Some("1.3.4".to_string()), ComposerVersion::shorten_version("1.3.3.1"));
    assert_eq!(Some("01.3.0".to_string()), ComposerVersion::shorten_version("01.3.0.0"));
    assert_eq!(
        Some("1.2.4294967295".to_string()),
        ComposerVersion::shorten_version("1.2.4294967294.1")
    );
    assert_eq!(Some("a.b.7".to_string()), ComposerVersion::shorten_version("a.b.3.4"));
}

#[test]
fn shorten_version_gives_nothing_otherwise() {
    assert_eq!(None, ComposerVersion::shorten_version("1.2.3"));
    assert_eq!(None, ComposerVersion::shorten_version("1.2.3.4.5"));
    assert_eq!(None, ComposerVersion::shorten_version("1.2.x.4"));
    assert_eq!(None, ComposerVersion::shorten_version("1.2.3."));
    assert_eq!(None, ComposerVersion::shorten_version("1.2.4294967295.1"));
    assert_eq!(None, ComposerVersion::shorten_version("1.2.4294967296.0"));
}

#[test]
fn a_sum_that_does_not_fit_gives_the_default() {
    assert_eq!("1.0.0", ComposerVersion::new("1.2.4294967295.1").to_string());
}

#[test]
fn a_number_that_does_not_fit_gives_the_default() {
    assert_eq!("4294967295.0.0", ComposerVersion::new("4294967295").to_string());
    assert_eq!("1.0.0", ComposerVersion::new("4294967296").to_string());
    assert_eq!("1.0.0", ComposerVersion::new("1.2.99999999999").to_string());
    assert_eq!("1.0.0", ComposerVersion::new("99999999999-rc1").to_string());
}

#[test]
fn digits_outside_ascii_give_the_default() {
    assert_eq!("1.0.0", ComposerVersion::new("\u{0663}").to_string());
    assert_eq!("1.0.0", ComposerVersion::new("\u{0663}.1.2").to_string());
}

#[test]
fn without_marker_drops_one_leading_marker() {
    assert_eq!("1.2", without_marker("v1.2"));
    assert_eq!("1.2", without_marker("V1.2"));
    assert_eq!("v1", without_marker("vv1"));
    assert_eq!("1v", without_marker("1v"));
    assert_eq!("", without_marker("v"));
    assert_eq!("", without_marker(""));
    assert_eq!("\u{00e9}1", without_marker("v\u{00e9}1"));
}

#[test]
fn is_match_asks_the_pattern() {
    assert!(is_match(r"^\d+$", "123"));
    assert!(!is_match(r"^\d+$", "12a"));
    assert!(!is_match(r"^\d+$", ""));
    assert!(is_match(r"v\d", "rev-v2-x"));
    assert!(!is_match(r"^a$", "^a$"));
}

#[test]
fn is_match_treats_a_broken_pattern_as_matching_nothing() {
    assert!(!is_match(r"(", "("));
    assert!(!is_match(r"(", ""));
}

#[test]
fn captured_group_gives_the_named_text() {
    assert_eq!(Some("42".to_string()), captured_group(r"^(?P<rest>\d+)-x$", "42-x", "rest"));
    assert_eq!(Some("3".to_string()), captured_group(r"^0*(?P<version>\d+)$", "003", "version"));
    assert_eq!(Some("0".to_string()), captured_group(r"^0*(?P<version>\d+)$", "000", "version"));
    assert_eq!(Some("3".to_string()), captured_group(r"v(?P<version>\d+)", "a-v3-v4", "version"));
}

#[test]
fn captured_group_gives_nothing_without_match_or_group() {
    assert_eq!(None, captured_group(r"^(?P<rest>\d+)-x$", "42-y", "rest"));
    assert_eq!(None, captured_group(r"^(?P<rest>\d+)-x$", "42-x", "other"));
    assert_eq!(None, captured_group(r"^(?:(?P<a>a)|(?P<b>b))$", "b", "a"));
    assert_eq!(None, captured_group(r"(?P<rest>", "42-x", "rest"));
}

#[test]
fn every_date_rule_compiles_and_names_a_rest() {
    let samples = [
        ("24-11-2021.3", "3"),
        ("2022-03.01-2", "2"),
        ("2023-Nov-02-v3", "v3"),
        ("2021-11-24.3", "3"),
        ("2023.04.25.3", "3"),
        ("2023.09.05-2", "2"),
        ("2023.22.03-2", "2"),
        ("2022.03-01-2", "2"),
        ("2021-07-15_003", "003"),
        ("2022-01-24-3", "3"),
    ];
    assert_eq!(samples.len(), DATE_RULES.len());
    for (rule, (text, rest)) in DATE_RULES.iter().zip(samples) {
        assert_eq!(Some(rest.to_string()), captured_group(rule, text, "rest"), "{rule}");
    }
}

#[test]
fn clean_from_date_strips_known_dates() {
    assert_eq!(Some("3".to_string()), ComposerVersion::clean_from_date("2021-11-24.3"));
    assert_eq!(Some("003".to_string()), ComposerVersion::clean_from_date("2021-07-15_003"));
    assert_eq!(
        Some("V3-Revert-MV-G9-HF-SG-Red-V2".to_string()),
        ComposerVersion::clean_from_date("2023.10.25-V3-Revert-MV-G9-HF-SG-Red-V2")
    );
    assert_eq!(Some("1.2.3".to_string()), ComposerVersion::clean_from_date("2023.04.25.1.2.3"));
}

#[test]
fn clean_from_date_leaves_other_texts_alone() {
    assert_eq!(None, ComposerVersion::clean_from_date("1.2.3"));
    assert_eq!(None, ComposerVersion::clean_from_date("20211.11.24-1"));
    assert_eq!(None, ComposerVersion::clean_from_date("2023.05.03"));
    assert_eq!(None, ComposerVersion::clean_from_date("release-2022-01-25"));
    assert_eq!(None, ComposerVersion::clean_from_date("2023-023-29-v3"));
    assert_eq!(None, ComposerVersion::clean_from_date(""));
}

#[test]
fn padding_fills_missing_parts() {
    let pad = ComposerVersion::get_standard_version_from_shortened_version;
    assert_eq!(Some("3.0.0".to_string()), pad("3"));
    assert_eq!(Some("3.1.0".to_string()), pad("3.1"));
    assert_eq!(Some("3.1.4".to_string()), pad("3.1.4"));
    assert_eq!(Some("003.0.0".to_string()), pad("003"));
    assert_eq!(None, pad("3.1.4.1"));
    assert_eq!(None, pad("v3"));
    assert_eq!(None, pad(""));
}

#[test]
fn captured_version_is_padded() {
    let full = ComposerVersion::get_full_version_from_captured_version;
    assert_eq!(Some("3.0.0".to_string()), full("003", r"^0*(?P<version>\d+)$"));
    assert_eq!(Some("7.0.0".to_string()), full("build-v7", r"^(?P<meta>.+)-v(?P<version>\d+)$"));
    assert_eq!(None, full("build-7", r"^(?P<meta>.+)-v(?P<version>\d+)$"));
    assert_eq!(None, full("x1", r"^(?P<version>x\d+)$"));
    assert_eq!(None, full("1", r"^(?P<other>\d+)$"));
}

#[test]
fn extractor_applies_the_first_rule_that_fits() {
    let run = ComposerVersion::get_standardized_version;
    assert_eq!("1.0.0", run("2023.05.03"));
    assert_eq!("2023.05.03", run("v2023.05.03"));
    assert_eq!("3.0.0", run("2023-023-29-v3"));
    assert_eq!("3.0.0", run("v3"));
    assert_eq!("3.0.0", run("V003"));
    assert_eq!("1.2.0", run("V1.2"));
    assert_eq!("1.2.3", run("1.2.3"));
    assert_eq!("1.2.3", run("1.2.3-beta.1"));
    assert_eq!("5.0.0", run("5-rc"));
    assert_eq!("5.0.0", run("5-"));
    assert_eq!("7.0.0", run("build-v7"));
    assert_eq!("1.3.4", run("1.3.3.1"));
    assert_eq!("1.0.0", run("1.2.3.4.5"));
    assert_eq!("1.0.0", run("nothing here"));
    assert_eq!("1.0.0", run(""));
}

#[test]
fn standardize_strips_the_date_first() {
    assert_eq!("3.0.0", ComposerVersion::standardize("2021-11-24.3"));
    assert_eq!("1.2.3", ComposerVersion::standardize("2023.04.25.1.2.3"));
    assert_eq!("20211.11.24", ComposerVersion::standardize("20211.11.24-1"));
    assert_eq!("1.0.0", ComposerVersion::standardize("release-2022-01-25"));
}

fn text(s: &str) -> Option<String> {
    Some(s.to_string())
}

#[test]
fn first_outcome_takes_the_first_that_is_present() {
    assert_eq!(None, first_outcome(vec![]));
    assert_eq!(None, first_outcome(vec![None, None, None]));
    assert_eq!(text("a"), first_outcome(vec![text("a")]));
    assert_eq!(text("a"), first_outcome(vec![text("a"), text("b")]));
    assert_eq!(text("b"), first_outcome(vec![None, text("b"), text("c")]));
    assert_eq!(text("c"), first_outcome(vec![None, None, text("c")]));
    assert_eq!(text(""), first_outcome(vec![None, text(""), text("c")]));
}

#[test]
fn rule_outcome_prefers_the_rest_to_the_default() {
    assert_eq!(text("3"), rule_outcome(true, text("3")));
    assert_eq!(text("1.0.0"), rule_outcome(true, None));
    assert_eq!(None, rule_outcome(false, text("3")));
    assert_eq!(None, rule_outcome(false, None));
}

#[test]
fn decide_version_takes_the_first_answer() {
    let answers = vec![None, None, text("1.2.3"), text("9.0.0"), text("1.0.0"), None];
    assert_eq!("1.2.3", decide_version(false, answers));
    let answers = vec![None, None, None, text("3.0.0"), text("2023.0.0"), None];
    assert_eq!("3.0.0", decide_version(false, answers));
    let answers = vec![None, None, None, None, text("5.0.0"), None];
    assert_eq!("5.0.0", decide_version(false, answers));
    let answers = vec![None, None, None, None, None, text("1.3.4")];
    assert_eq!("1.3.4", decide_version(false, answers));
}

#[test]
fn decide_version_gives_the_default_for_a_bare_date_or_no_answer() {
    assert_eq!("1.0.0", decide_version(true, vec![None, text("2023.05.03")]));
    assert_eq!("1.0.0", decide_version(false, vec![None, None, None, None, None, None]));
    assert_eq!("1.0.0", decide_version(false, vec![]));
}

#[test]
fn a_marker_inside_trailing_text_does_not_displace_the_triple() {
    assert_eq!("1.2.3", ComposerVersion::get_standardized_version("1.2.3-rev2"));
    assert_eq!("1.2.3", ComposerVersion::get_standardized_version("1.2.3-dev1"));
    assert_eq!("1.2.3", ComposerVersion::get_standardized_version("v1.2.3-v9"));
    assert_eq!("1.2.3", ComposerVersion::new("1.2.3-rev2").to_string());
    assert_eq!("0.2.0", ComposerVersion::new("2023.04.25.0.2.0-rev7").to_string());
}

#[test]
fn a_marked_number_is_preferred_to_unmarked_leading_digits() {
    assert_eq!("3.0.0", ComposerVersion::get_standardized_version("2023-023-29-v3"));
    assert_eq!("3.0.0", ComposerVersion::get_standardized_version("5-v3"));
    assert_eq!("7.0.0", ComposerVersion::get_standardized_version("1.2-v7"));
    assert_eq!("2.0.0", ComposerVersion::get_standardized_version("a-v1-v2"));
}

#[test]
fn a_marker_counts_only_at_the_end_and_behind_a_dash() {
    assert_eq!("5.0.0", ComposerVersion::get_standardized_version("5-rev2"));
    assert_eq!("5.0.0", ComposerVersion::get_standardized_version("5-v3-final"));
    assert_eq!("1.0.0", ComposerVersion::get_standardized_version("rev2"));
    assert_eq!("1.0.0", ComposerVersion::get_standardized_version("build_v7"));
    assert_eq!("1.0.0", ComposerVersion::get_standardized_version("release-V3"));
}
