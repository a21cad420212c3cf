//! Engine verdicts and the assembled report: intents, reasons, stickiness,
//! short-circuiting, and re-parse determinism.

use phoner::runner::{run_tests, validate_test, Reason, ResultType, TestResults, Validity};
use phoner::scheme::{Scheme, TestType};

fn parse(doc: &str) -> Scheme {
    Scheme::parse(doc).unwrap()
}

#[test]
fn match_means_invalid_under_plus_intent() {
    let scheme = parse("&+ab");
    assert_eq!(validate_test("ab", &scheme.rules), Validity::Invalid(None));
    assert_eq!(validate_test("xy", &scheme.rules), Validity::Valid);
}

#[test]
fn expected_invalid_passes_and_expected_valid_fails_on_a_match() {
    let results = run_tests(parse("&+ab\n*+ab\n*!ab"));
    assert_eq!(results.list.len(), 2);
    match &results.list[0] {
        ResultType::Test { pass, reason, .. } => {
            assert!(*pass);
            assert_eq!(*reason, Reason::Passed);
        }
        _ => panic!("expected a test outcome"),
    }
    match &results.list[1] {
        ResultType::Test { pass, reason, .. } => {
            assert!(!*pass);
            assert_eq!(*reason, Reason::NoReasonGiven);
        }
        _ => panic!("expected a test outcome"),
    }
    assert_eq!(results.fail_count, 1);
}

#[test]
fn failure_reason_comes_from_the_rule() {
    let results = run_tests(parse("@no ab allowed\n&+ab\n*!ab"));
    match &results.list[0] {
        ResultType::Test { pass, reason, .. } => {
            assert!(!*pass);
            assert_eq!(*reason, Reason::Custom("no ab allowed".to_string()));
        }
        _ => panic!("expected a test outcome"),
    }
}

#[test]
fn required_match_rule_invalidates_nonmatching_words() {
    let scheme = parse("&!ab");
    assert_eq!(validate_test("xy", &scheme.rules), Validity::Invalid(None));
    assert_eq!(validate_test("ab", &scheme.rules), Validity::Valid);
}

#[test]
fn class_substitution_reaches_the_engine() {
    let scheme = parse("$Va|e|i|o|u\n&+V");
    assert_eq!(validate_test("a", &scheme.rules), Validity::Invalid(None));
    assert_eq!(validate_test("b", &scheme.rules), Validity::Valid);
    let results = run_tests(parse("$Va|e|i|o|u\n&+V\n*+a\n*!b"));
    assert_eq!(results.fail_count, 0);
}

#[test]
fn sticky_reason_attaches_to_every_following_rule() {
    let results = run_tests(parse("@@shared reason\n&+ab\n&+cd\n*!ab\n*!cd"));
    for item in &results.list {
        match item {
            ResultType::Test { pass, reason, .. } => {
                assert!(!*pass);
                assert_eq!(*reason, Reason::Custom("shared reason".to_string()));
            }
            _ => panic!("expected a test outcome"),
        }
    }
    assert_eq!(results.fail_count, 2);
}

#[test]
fn one_off_reason_attaches_to_the_next_rule_only() {
    let results = run_tests(parse("@one-off\n&+ab\n&+cd\n*!ab\n*!cd"));
    match &results.list[0] {
        ResultType::Test { reason, .. } => {
            assert_eq!(*reason, Reason::Custom("one-off".to_string()))
        }
        _ => panic!("expected a test outcome"),
    }
    match &results.list[1] {
        ResultType::Test { reason, .. } => assert_eq!(*reason, Reason::NoReasonGiven),
        _ => panic!("expected a test outcome"),
    }
}

#[test]
fn a_new_declaration_replaces_the_pending_reason() {
    let results = run_tests(parse("@one\n@two\n&+ab\n*!ab"));
    match &results.list[0] {
        ResultType::Test { reason, .. } => assert_eq!(*reason, Reason::Custom("two".to_string())),
        _ => panic!("expected a test outcome"),
    }
}

#[test]
fn a_one_off_reason_replaces_a_sticky_one() {
    let results = run_tests(parse("@@sticky\n&+ab\n@once\n&+cd\n&+ef\n*!ab\n*!cd\n*!ef"));
    let reasons: Vec<&Reason> = results
        .list
        .iter()
        .map(|item| match item {
            ResultType::Test { reason, .. } => reason,
            _ => panic!("expected a test outcome"),
        })
        .collect();
    assert_eq!(*reasons[0], Reason::Custom("sticky".to_string()));
    assert_eq!(*reasons[1], Reason::Custom("once".to_string()));
    assert_eq!(*reasons[2], Reason::NoReasonGiven);
    assert_eq!(results.fail_count, 3);
}

#[test]
fn first_violating_rule_wins() {
    // The first rule disqualifies "ab"; the second would qualify it. The
    // reported reason must come from the first rule only.
    let scheme = parse("@first\n&+ab\n@second\n&!ab");
    assert_eq!(validate_test("ab", &scheme.rules), Validity::Invalid(Some(0)));
    let results = run_tests(parse("@first\n&+ab\n@second\n&!ab\n*!ab"));
    match &results.list[0] {
        ResultType::Test { reason, .. } => {
            assert_eq!(*reason, Reason::Custom("first".to_string()))
        }
        _ => panic!("expected a test outcome"),
    }
}

#[test]
fn reparsing_the_same_document_reports_identically() {
    let doc = "$Cb|c|d\n@@no double consonants\n&+CC\n&!a\n*+bca\n*!abba\n*!ada";
    let first = run_tests(parse(doc));
    let second = run_tests(parse(doc));
    assert_eq!(first, second);
}

#[test]
fn fail_count_and_longest_word_are_tracked() {
    let results = run_tests(parse("&+zz\n*!word\n*!zzz\n*+no"));
    // "word": no match, valid, expected valid: pass
    // "zzz": match, invalid, expected valid: fail
    // "no": no match, valid, expected invalid: fail
    assert_eq!(results.fail_count, 2);
    assert_eq!(results.max_word_len, 4);
}

#[test]
fn word_length_counts_characters() {
    let results = run_tests(parse("&+zz\n*!né"));
    assert_eq!(results.max_word_len, 2);
}

#[test]
fn notes_pass_through_the_report() {
    let scheme = Scheme {
        rules: Vec::new(),
        reasons: Vec::new(),
        tests: vec![
            TestType::Note("section one".to_string()),
            TestType::Test(false, "ab".to_string()),
        ],
    };
    let results = run_tests(scheme);
    assert_eq!(results.list.len(), 2);
    assert_eq!(results.list[0], ResultType::Note("section one".to_string()));
    match &results.list[1] {
        ResultType::Test { pass, .. } => assert!(*pass),
        _ => panic!("expected a test outcome"),
    }
    assert_eq!(results.fail_count, 0);
}

#[test]
fn a_word_with_no_rules_is_valid() {
    let rules = Vec::new();
    assert_eq!(validate_test("anything", &rules), Validity::Valid);
}

#[test]
fn validity_reports_its_variant() {
    assert!(Validity::Valid.is_valid());
    assert!(!Validity::Invalid(None).is_valid());
    assert!(!Validity::Invalid(Some(3)).is_valid());
}

#[test]
fn empty_results_are_empty() {
    let empty = TestResults::empty();
    assert_eq!(empty.list.len(), 0);
    assert_eq!(empty.fail_count, 0);
    assert_eq!(empty.max_word_len, 0);
}
