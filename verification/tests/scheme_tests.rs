//! Parser behaviour: line grammar, class substitution, and the fatal errors.

use phoner::runner::{run_tests, Reason, ResultType};
use phoner::scheme::{substitute_classes, ParseError, Scheme};

#[test]
fn empty_document_gives_empty_report() {
    let scheme = Scheme::parse("").unwrap();
    assert_eq!(scheme.rules.len(), 0);
    assert_eq!(scheme.tests.len(), 0);
    let results = run_tests(scheme);
    assert_eq!(results.list.len(), 0);
    assert_eq!(results.fail_count, 0);
    assert_eq!(results.max_word_len, 0);
}

#[test]
fn inert_document_gives_empty_report() {
    let doc = "# a comment\n$Vaeiou\n@@a reason nobody uses\n\n   \n";
    let scheme = Scheme::parse(doc).unwrap();
    assert_eq!(scheme.rules.len(), 0);
    assert_eq!(scheme.tests.len(), 0);
    let results = run_tests(scheme);
    assert_eq!(results.list.len(), 0);
    assert_eq!(results.fail_count, 0);
}

#[test]
fn unknown_class_is_a_parse_failure() {
    let err = Scheme::parse("&+X").unwrap_err();
    assert!(matches!(err, ParseError::UnknownClass('X')));
}

#[test]
fn unknown_class_fails_even_with_other_definitions() {
    let err = Scheme::parse("$Vaeiou\n&+aXV").unwrap_err();
    assert!(matches!(err, ParseError::UnknownClass('X')));
}

#[test]
fn unknown_intent_identifier_on_rule_is_fatal() {
    let err = Scheme::parse("&?ab").unwrap_err();
    assert!(matches!(err, ParseError::UnknownIntentIdentifier('?')));
}

#[test]
fn unknown_intent_identifier_on_test_is_fatal() {
    let err = Scheme::parse("*-xy").unwrap_err();
    assert!(matches!(err, ParseError::UnknownIntentIdentifier('-')));
}

#[test]
fn unknown_line_operator_is_fatal() {
    let err = Scheme::parse("%anything").unwrap_err();
    assert!(matches!(err, ParseError::UnknownLineOperator('%')));
}

#[test]
fn pattern_that_does_not_compile_is_fatal() {
    let err = Scheme::parse("&+(").unwrap_err();
    assert!(matches!(err, ParseError::RegexFail(_)));
}

#[test]
fn bare_markers_are_silently_skipped() {
    let scheme = Scheme::parse("&\n*\n").unwrap();
    assert_eq!(scheme.rules.len(), 0);
    assert_eq!(scheme.tests.len(), 0);
}

#[test]
fn empty_test_word_is_dropped() {
    let scheme = Scheme::parse("*+   \n*+ab").unwrap();
    assert_eq!(scheme.tests.len(), 1);
}

#[test]
fn test_words_are_trimmed_but_keep_inner_whitespace() {
    let scheme = Scheme::parse("*+  a b  ").unwrap();
    match &scheme.tests[0] {
        phoner::scheme::TestType::Test(intent, word) => {
            assert!(*intent);
            assert_eq!(word, "a b");
        }
        _ => panic!("expected a test"),
    }
}

#[test]
fn rule_patterns_lose_all_whitespace() {
    // "a b" becomes the pattern "ab", which must match the word "ab"
    let scheme = Scheme::parse("&+ a b\n*+ab").unwrap();
    let results = run_tests(scheme);
    assert_eq!(results.fail_count, 0);
}

#[test]
fn later_class_definition_wins() {
    let doc = "$Vab\n$Vcd\n&+V\n*+cd\n*!ab";
    let results = run_tests(Scheme::parse(doc).unwrap());
    assert_eq!(results.fail_count, 0);
}

#[test]
fn substitution_wraps_class_values_in_parentheses() {
    let rule: Vec<char> = "aVb".chars().collect();
    let classes = vec![('V', "xy".chars().collect::<Vec<char>>())];
    let out = substitute_classes(&rule, &classes).unwrap();
    let expected: Vec<char> = "a(xy)b".chars().collect();
    assert_eq!(out, expected);
}

#[test]
fn substitution_replaces_every_occurrence() {
    let rule: Vec<char> = "VzV".chars().collect();
    let classes = vec![('V', "q".chars().collect::<Vec<char>>())];
    let out = substitute_classes(&rule, &classes).unwrap();
    let expected: Vec<char> = "(q)z(q)".chars().collect();
    assert_eq!(out, expected);
}

#[test]
fn substitution_reports_the_missing_class() {
    let rule: Vec<char> = "aXb".chars().collect();
    let classes = vec![('V', "q".chars().collect::<Vec<char>>())];
    let err = substitute_classes(&rule, &classes).unwrap_err();
    assert!(matches!(err, ParseError::UnknownClass('X')));
}

#[test]
fn substituted_values_are_not_rescanned() {
    // X expands to the literal letter Y; Y's own definition is not applied to
    // the expansion, so the compiled pattern matches the literal word "Y".
    let doc = "$XY\n$Yab\n&+X\n*+Y\n*!ab";
    let results = run_tests(Scheme::parse(doc).unwrap());
    assert_eq!(results.fail_count, 0);
}

#[test]
fn lowercase_letters_are_not_class_triggers() {
    // A definition under a lowercase name is never applied: the pattern keeps
    // the literal letter.
    let doc = "$vxy\n&+v\n*+v\n*!xy";
    let results = run_tests(Scheme::parse(doc).unwrap());
    assert_eq!(results.fail_count, 0);
}

#[test]
fn uppercase_beyond_ascii_triggers_substitution() {
    let doc = "$\u{c4}ab\n&+\u{c4}\n*+ab\n*!xy";
    let results = run_tests(Scheme::parse(doc).unwrap());
    assert_eq!(results.fail_count, 0);
}

#[test]
fn an_empty_reason_is_still_a_reason() {
    let results = run_tests(Scheme::parse("@\n&+ab\n*!ab").unwrap());
    match &results.list[0] {
        ResultType::Test { reason, .. } => assert_eq!(*reason, Reason::Custom(String::new())),
        _ => panic!("expected a test outcome"),
    }
}

#[test]
fn class_values_are_substituted_verbatim() {
    // The class value is spliced in verbatim: "aeiou" is the literal sequence,
    // not an alternation, so only the whole sequence matches.
    let doc = "$Vaeiou\n&+V\n*+aeiou\n*!a";
    let results = run_tests(Scheme::parse(doc).unwrap());
    assert_eq!(results.fail_count, 0);
}
