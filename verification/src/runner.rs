//! The validation engine and the test runner. The engine judges one word
//! against the rules in document order, first violation wins; the runner
//! turns every declared test into a pass/fail outcome with a derived display
//! reason, counting failures and the longest word. Both are pinned to the
//! spec-level `spec_validate` and `spec_run`.

use vstd::prelude::*;
use vstd::string::StrSliceExecFns;

use crate::pattern::regex_matches;
use crate::scheme::{
    reasons_view, rules_view, tests_view, RuleModel, Rules, Scheme, SchemeModel, TestModel,
    TestType,
};

verus! {

/// The engine's verdict on one word: valid, or invalid carrying the reason
/// reference of the first violated rule (if that rule had one).
#[derive(Debug, PartialEq, Eq)]
pub enum Validity {
    Valid,
    Invalid(Option<usize>),
}

impl Validity {
    pub fn is_valid(&self) -> (r: bool)
        ensures
            r == (*self is Valid),
    {
        match self {
            Validity::Valid => true,
            Validity::Invalid(_) => false,
        }
    }
}

/// The verdict on `word`: rules are tried strictly in order, and the first
/// rule whose match outcome equals its intent (a match where a match means
/// invalid, or no match where a match was required) decides; later rules are
/// never consulted. No violation means the word is valid.
pub open spec fn spec_validate(rules: Seq<RuleModel>, word: Seq<char>) -> Validity
    decreases rules.len(),
{
    if rules.len() == 0 {
        Validity::Valid
    } else if regex_matches(rules[0].pattern, word) == rules[0].intent {
        Validity::Invalid(rules[0].reason)
    } else {
        spec_validate(rules.drop_first(), word)
    }
}

/// Check one word against the rules, in document order, short-circuiting on
/// the first violation.
pub fn validate_test(word: &str, rules: &Rules) -> (v: Validity)
    ensures
        v == spec_validate(rules_view(rules@), word@),
{
    let ghost rm = rules_view(rules@);
    let mut i: usize = 0;
    proof {
        assert(rm.subrange(0, rm.len() as int) =~= rm);
    }
    while i < rules.len()
        invariant
            i <= rules.len(),
            rm == rules_view(rules@),
            rm.len() == rules@.len(),
            spec_validate(rm, word@) == spec_validate(
                rm.subrange(i as int, rm.len() as int),
                word@,
            ),
        decreases rules.len() - i,
    {
        let ghost rest = rm.subrange(i as int, rm.len() as int);
        proof {
            assert(rest[0] == rm[i as int]);
            assert(rest.drop_first() =~= rm.subrange(i + 1, rm.len() as int));
            assert(rm[i as int] == rules@[i as int]@);
        }
        let matched = rules[i].pattern.is_match(word);
        if matched == rules[i].intent {
            return Validity::Invalid(rules[i].reason);
        }
        i += 1;
    }
    proof {
        assert(rm.subrange(rm.len() as int, rm.len() as int) =~= Seq::<RuleModel>::empty());
    }
    Validity::Valid
}

/// Why a test failed (or the marker that it passed).
#[derive(Debug, PartialEq, Eq)]
pub enum Reason {
    /// Test passed, no reason to display.
    Passed,
    /// The violated rule had no reason attached (or a dangling reference).
    NoReasonGiven,
    /// The word was valid although the test expected it to be invalid.
    ShouldNotHaveMatched,
    /// The violated rule's own reason text.
    Custom(String),
}

pub ghost enum ReasonModel {
    Passed,
    NoReasonGiven,
    ShouldNotHaveMatched,
    Custom(Seq<char>),
}

impl View for Reason {
    type V = ReasonModel;

    open spec fn view(&self) -> ReasonModel {
        match self {
            Reason::Passed => ReasonModel::Passed,
            Reason::NoReasonGiven => ReasonModel::NoReasonGiven,
            Reason::ShouldNotHaveMatched => ReasonModel::ShouldNotHaveMatched,
            Reason::Custom(s) => ReasonModel::Custom(s@),
        }
    }
}

/// One line of the report: a carried-through note, or a test outcome.
#[derive(Debug, PartialEq, Eq)]
pub enum ResultType {
    Note(String),
    Test { intent: bool, word: String, pass: bool, reason: Reason },
}

pub ghost enum ResultModel {
    Note(Seq<char>),
    Test { intent: bool, word: Seq<char>, pass: bool, reason: ReasonModel },
}

impl View for ResultType {
    type V = ResultModel;

    open spec fn view(&self) -> ResultModel {
        match self {
            ResultType::Note(s) => ResultModel::Note(s@),
            ResultType::Test { intent, word, pass, reason } => ResultModel::Test {
                intent: *intent,
                word: word@,
                pass: *pass,
                reason: reason@,
            },
        }
    }
}

pub open spec fn results_view(rs: Seq<ResultType>) -> Seq<ResultModel> {
    rs.map_values(|r: ResultType| r@)
}

/// The report: outcomes in declaration order, the number of failed tests, and
/// the longest tested word (in characters, for column alignment).
#[derive(Debug, PartialEq, Eq)]
pub struct TestResults {
    pub list: Vec<ResultType>,
    pub fail_count: usize,
    pub max_word_len: usize,
}

pub ghost struct ResultsModel {
    pub list: Seq<ResultModel>,
    pub fail_count: nat,
    pub max_word_len: nat,
}

impl View for TestResults {
    type V = ResultsModel;

    open spec fn view(&self) -> ResultsModel {
        ResultsModel {
            list: results_view(self.list@),
            fail_count: self.fail_count as nat,
            max_word_len: self.max_word_len as nat,
        }
    }
}

pub open spec fn empty_results() -> ResultsModel {
    ResultsModel { list: Seq::empty(), fail_count: 0, max_word_len: 0 }
}

impl TestResults {
    /// Create empty `TestResults`.
    pub fn empty() -> (r: TestResults)
        ensures
            r@ == empty_results(),
    {
        let r = TestResults { list: Vec::new(), fail_count: 0, max_word_len: 0 };
        proof {
            assert(results_view(r.list@) =~= Seq::<ResultModel>::empty());
        }
        r
    }
}

/// The display reason derived for a failed test: a valid word that was
/// expected invalid "should not have matched"; an invalid word that was
/// expected valid carries its rule's reason text, or the no-reason marker
/// when the rule had none (or the reference does not resolve).
pub open spec fn fail_reason(v: Validity, reasons: Seq<Seq<char>>) -> ReasonModel {
    match v {
        Validity::Valid => ReasonModel::ShouldNotHaveMatched,
        Validity::Invalid(r) => match r {
            None => ReasonModel::NoReasonGiven,
            Some(i) => if i < reasons.len() {
                ReasonModel::Custom(reasons[i as int])
            } else {
                ReasonModel::NoReasonGiven
            },
        },
    }
}

/// One report item folded onto the accumulated report: a note passes through;
/// a test is judged by the engine, passes when the verdict matches the
/// declared expectation, and bumps the failure count and the longest-word
/// tally.
pub open spec fn run_item(
    rules: Seq<RuleModel>,
    reasons: Seq<Seq<char>>,
    acc: ResultsModel,
    t: TestModel,
) -> ResultsModel {
    match t {
        TestModel::Note(n) => ResultsModel {
            list: acc.list.push(ResultModel::Note(n)),
            fail_count: acc.fail_count,
            max_word_len: acc.max_word_len,
        },
        TestModel::Test(intent, word) => {
            let v = spec_validate(rules, word);
            let pass = (v is Invalid) == intent;
            let reason = if pass {
                ReasonModel::Passed
            } else {
                fail_reason(v, reasons)
            };
            ResultsModel {
                list: acc.list.push(ResultModel::Test { intent, word, pass, reason }),
                fail_count: acc.fail_count + (if pass {
                    0int
                } else {
                    1int
                }) as nat,
                max_word_len: if word.len() > acc.max_word_len {
                    word.len()
                } else {
                    acc.max_word_len
                },
            }
        },
    }
}

pub open spec fn run_items(
    rules: Seq<RuleModel>,
    reasons: Seq<Seq<char>>,
    ts: Seq<TestModel>,
    acc: ResultsModel,
) -> ResultsModel
    decreases ts.len(),
{
    if ts.len() == 0 {
        acc
    } else {
        run_items(rules, reasons, ts.drop_first(), run_item(rules, reasons, acc, ts[0]))
    }
}

/// The whole report for a scheme: empty when no tests were declared,
/// otherwise every declared item folded in declaration order.
pub open spec fn spec_run(s: SchemeModel) -> ResultsModel {
    if s.tests.len() == 0 {
        empty_results()
    } else {
        run_items(s.rules, s.reasons, s.tests, empty_results())
    }
}

proof fn lemma_results_view_push(s: Seq<ResultType>, x: ResultType)
    ensures
        results_view(s.push(x)) == results_view(s).push(x@),
{
    assert(results_view(s.push(x)) =~= results_view(s).push(x@));
}

/// Run every declared test against the scheme's rules and assemble the
/// report.
pub fn run_tests(scheme: Scheme) -> (r: TestResults)
    ensures
        r@ == spec_run(scheme@),
{
    if scheme.tests.len() == 0 {
        return TestResults::empty();
    }
    let ghost rm = rules_view(scheme.rules@);
    let ghost rsn = reasons_view(scheme.reasons@);
    let ghost tm = tests_view(scheme.tests@);

    let mut list: Vec<ResultType> = Vec::new();
    let mut fail_count: usize = 0;
    let mut max_word_len: usize = 0;
    let ghost mut acc = empty_results();
    let mut i: usize = 0;
    proof {
        assert(results_view(list@) =~= Seq::<ResultModel>::empty());
        assert(tm.subrange(0, tm.len() as int) =~= tm);
    }
    while i < scheme.tests.len()
        invariant
            i <= scheme.tests.len(),
            rm == rules_view(scheme.rules@),
            rsn == reasons_view(scheme.reasons@),
            tm == tests_view(scheme.tests@),
            tm.len() == scheme.tests@.len(),
            tm.len() > 0,
            acc.list == results_view(list@),
            acc.fail_count == fail_count as nat,
            acc.max_word_len == max_word_len as nat,
            fail_count <= i,
            spec_run(scheme@) == run_items(rm, rsn, tm.subrange(i as int, tm.len() as int), acc),
        decreases scheme.tests.len() - i,
    {
        let ghost rest = tm.subrange(i as int, tm.len() as int);
        proof {
            assert(rest[0] == tm[i as int]);
            assert(rest.drop_first() =~= tm.subrange(i + 1, tm.len() as int));
            assert(tm[i as int] == scheme.tests@[i as int]@);
        }
        match &scheme.tests[i] {
            TestType::Note(note) => {
                let item = ResultType::Note(note.clone());
                proof {
                    lemma_results_view_push(list@, item);
                }
                list.push(item);
                proof {
                    acc = run_item(rm, rsn, acc, tm[i as int]);
                }
            },
            TestType::Test(intent, word) => {
                let v = validate_test(word.as_str(), &scheme.rules);
                let pass = v.is_valid() != *intent;
                let reason = if pass {
                    Reason::Passed
                } else {
                    match &v {
                        Validity::Valid => Reason::ShouldNotHaveMatched,
                        Validity::Invalid(opt) => match opt {
                            None => Reason::NoReasonGiven,
                            Some(idx) => {
                                if *idx < scheme.reasons.len() {
                                    proof {
                                        assert(rsn[*idx as int] == scheme.reasons@[*idx as int]@);
                                    }
                                    Reason::Custom(scheme.reasons[*idx].clone())
                                } else {
                                    Reason::NoReasonGiven
                                }
                            },
                        },
                    }
                };
                if !pass {
                    fail_count += 1;
                }
                let wlen = word.as_str().unicode_len();
                if wlen > max_word_len {
                    max_word_len = wlen;
                }
                let item = ResultType::Test { intent: *intent, word: word.clone(), pass, reason };
                proof {
                    lemma_results_view_push(list@, item);
                }
                list.push(item);
                proof {
                    acc = run_item(rm, rsn, acc, tm[i as int]);
                }
            },
        }
        i += 1;
    }
    proof {
        assert(tm.subrange(tm.len() as int, tm.len() as int) =~= Seq::<TestModel>::empty());
    }
    TestResults { list, fail_count, max_word_len }
}

} // verus!
