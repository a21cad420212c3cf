//! The scheme parser: a line-oriented document declares character classes
//! (`$`), failure reasons (`@`, sticky with `@@`), intent-tagged rules (`&+`,
//! `&!`) and test words (`*+`, `*!`). Parsing either yields a whole `Scheme`
//! or fails with the first error; nothing partial survives. The parse result
//! is pinned, line for line, to the spec-level parser `spec_parse`.

use vstd::prelude::*;

use crate::pattern::{regex_compiles, Pattern};
use crate::text::{
    char_is_uppercase, chars_to_string, spec_lines, spec_strip_whitespace,
    spec_trim, split_lines, str_to_chars, strip_whitespace, subvec, trim,
};

verus! {

/// A parse failure; each variant carries the offending character or the
/// engine's compile diagnostic.
#[derive(Debug)]
pub enum ParseError {
    UnknownIntentIdentifier(char),
    UnknownLineOperator(char),
    UnknownClass(char),
    RegexFail(fancy_regex::Error),
}

/// The spec-level image of a parse failure. The engine's compile diagnostic
/// is opaque, so `RegexFail` carries nothing here.
pub ghost enum ParseErrorModel {
    UnknownIntentIdentifier(char),
    UnknownLineOperator(char),
    UnknownClass(char),
    RegexFail,
}

impl View for ParseError {
    type V = ParseErrorModel;

    open spec fn view(&self) -> ParseErrorModel {
        match self {
            ParseError::UnknownIntentIdentifier(c) => ParseErrorModel::UnknownIntentIdentifier(*c),
            ParseError::UnknownLineOperator(c) => ParseErrorModel::UnknownLineOperator(*c),
            ParseError::UnknownClass(c) => ParseErrorModel::UnknownClass(*c),
            ParseError::RegexFail(_) => ParseErrorModel::RegexFail,
        }
    }
}

/// A rule: `intent` is true when a match makes the word invalid and false
/// when the absence of a match does; `reason` points into the scheme's reason
/// registry.
#[derive(Debug)]
pub struct Rule {
    pub intent: bool,
    pub pattern: Pattern,
    pub reason: Option<usize>,
}

pub ghost struct RuleModel {
    pub intent: bool,
    pub pattern: Seq<char>,
    pub reason: Option<usize>,
}

impl View for Rule {
    type V = RuleModel;

    open spec fn view(&self) -> RuleModel {
        RuleModel { intent: self.intent, pattern: self.pattern@, reason: self.reason }
    }
}

/// A declared test word with its expected outcome (`true` expects invalid),
/// or a note carried through to the report.
#[derive(Debug)]
pub enum TestType {
    Note(String),
    Test(bool, String),
}

pub ghost enum TestModel {
    Note(Seq<char>),
    Test(bool, Seq<char>),
}

impl View for TestType {
    type V = TestModel;

    open spec fn view(&self) -> TestModel {
        match self {
            TestType::Note(s) => TestModel::Note(s@),
            TestType::Test(intent, word) => TestModel::Test(*intent, word@),
        }
    }
}

/// The class table built while scanning: later definitions of the same name
/// shadow earlier ones, so lookup walks from the end.
pub type Classes = Vec<(char, Vec<char>)>;

pub type Rules = Vec<Rule>;

pub type Tests = Vec<TestType>;

/// Scheme parsed from a document: ordered rules, the reason registry they
/// point into, and the declared tests in order.
#[derive(Debug)]
pub struct Scheme {
    pub rules: Rules,
    pub reasons: Vec<String>,
    pub tests: Tests,
}

pub ghost struct SchemeModel {
    pub rules: Seq<RuleModel>,
    pub reasons: Seq<Seq<char>>,
    pub tests: Seq<TestModel>,
}

pub open spec fn rules_view(rs: Seq<Rule>) -> Seq<RuleModel> {
    rs.map_values(|r: Rule| r@)
}

pub open spec fn reasons_view(rs: Seq<String>) -> Seq<Seq<char>> {
    rs.map_values(|s: String| s@)
}

pub open spec fn tests_view(ts: Seq<TestType>) -> Seq<TestModel> {
    ts.map_values(|t: TestType| t@)
}

pub open spec fn classes_view(cs: Seq<(char, Vec<char>)>) -> Seq<(char, Seq<char>)> {
    cs.map_values(|p: (char, Vec<char>)| (p.0, p.1@))
}

impl View for Scheme {
    type V = SchemeModel;

    open spec fn view(&self) -> SchemeModel {
        SchemeModel {
            rules: rules_view(self.rules@),
            reasons: reasons_view(self.reasons@),
            tests: tests_view(self.tests@),
        }
    }
}

/// A rule as buffered during the scan, before class substitution and
/// compilation: intent, raw pattern text, reason reference.
pub ghost struct RawRule {
    pub intent: bool,
    pub pattern: Seq<char>,
    pub reason: Option<usize>,
}

pub open spec fn raws_view(rs: Seq<(bool, Vec<char>, Option<usize>)>) -> Seq<RawRule> {
    rs.map_values(|r: (bool, Vec<char>, Option<usize>)| RawRule {
        intent: r.0,
        pattern: r.1@,
        reason: r.2,
    })
}

/// The value of the latest definition of `name`, if any.
pub open spec fn class_lookup(classes: Seq<(char, Seq<char>)>, name: char) -> Option<Seq<char>>
    decreases classes.len(),
{
    if classes.len() == 0 {
        None
    } else if classes.last().0 == name {
        Some(classes.last().1)
    } else {
        class_lookup(classes.drop_last(), name)
    }
}

/// The parser's accumulator while scanning lines.
pub ghost struct ScanState {
    pub classes: Seq<(char, Seq<char>)>,
    pub reasons: Seq<Seq<char>>,
    pub pending: Option<usize>,
    pub sticky: bool,
    pub raws: Seq<RawRule>,
    pub tests: Seq<TestModel>,
}

pub open spec fn init_state() -> ScanState {
    ScanState {
        classes: Seq::empty(),
        reasons: Seq::empty(),
        pending: None,
        sticky: false,
        raws: Seq::empty(),
        tests: Seq::empty(),
    }
}

/// One line of the scan: the trimmed line is classified by its first
/// character, and the accumulator is advanced or the first error returned.
pub open spec fn scan_line(st: ScanState, line: Seq<char>) -> Result<ScanState, ParseErrorModel> {
    let t = spec_trim(line);
    if t.len() == 0 {
        Ok(st)
    } else if t[0] == '#' {
        Ok(st)
    } else if t[0] == '$' {
        if t.len() >= 2 {
            Ok(
                ScanState {
                    classes: st.classes.push((t[1], spec_trim(t.subrange(2, t.len() as int)))),
                    reasons: st.reasons,
                    pending: st.pending,
                    sticky: st.sticky,
                    raws: st.raws,
                    tests: st.tests,
                },
            )
        } else {
            Ok(st)
        }
    } else if t[0] == '@' {
        let sticky = t.len() >= 2 && t[1] == '@';
        let text = if sticky {
            spec_trim(t.subrange(2, t.len() as int))
        } else {
            spec_trim(t.subrange(1, t.len() as int))
        };
        Ok(
            ScanState {
                classes: st.classes,
                reasons: st.reasons.push(text),
                pending: Some(st.reasons.len() as usize),
                sticky,
                raws: st.raws,
                tests: st.tests,
            },
        )
    } else if t[0] == '&' {
        if t.len() == 1 {
            Ok(st)
        } else if t[1] == '+' || t[1] == '!' {
            let raw = RawRule {
                intent: t[1] == '+',
                pattern: spec_strip_whitespace(t.subrange(2, t.len() as int)),
                reason: st.pending,
            };
            Ok(
                ScanState {
                    classes: st.classes,
                    reasons: st.reasons,
                    pending: if st.sticky {
                        st.pending
                    } else {
                        None
                    },
                    sticky: st.sticky,
                    raws: st.raws.push(raw),
                    tests: st.tests,
                },
            )
        } else {
            Err(ParseErrorModel::UnknownIntentIdentifier(t[1]))
        }
    } else if t[0] == '*' {
        if t.len() == 1 {
            Ok(st)
        } else if t[1] == '+' || t[1] == '!' {
            let word = spec_trim(t.subrange(2, t.len() as int));
            if word.len() == 0 {
                Ok(st)
            } else {
                Ok(
                    ScanState {
                        classes: st.classes,
                        reasons: st.reasons,
                        pending: st.pending,
                        sticky: st.sticky,
                        raws: st.raws,
                        tests: st.tests.push(TestModel::Test(t[1] == '+', word)),
                    },
                )
            }
        } else {
            Err(ParseErrorModel::UnknownIntentIdentifier(t[1]))
        }
    } else {
        Err(ParseErrorModel::UnknownLineOperator(t[0]))
    }
}

pub open spec fn scan_lines(lines: Seq<Seq<char>>, st: ScanState) -> Result<
    ScanState,
    ParseErrorModel,
>
    decreases lines.len(),
{
    if lines.len() == 0 {
        Ok(st)
    } else {
        match scan_line(st, lines[0]) {
            Ok(st2) => scan_lines(lines.drop_first(), st2),
            Err(e) => Err(e),
        }
    }
}

/// Every occurrence of `name` in `s` replaced by `value`.
pub open spec fn spec_replace_char(s: Seq<char>, name: char, value: Seq<char>) -> Seq<char>
    decreases s.len(),
{
    if s.len() == 0 {
        Seq::empty()
    } else if s[0] == name {
        value + spec_replace_char(s.drop_first(), name, value)
    } else {
        seq![s[0]] + spec_replace_char(s.drop_first(), name, value)
    }
}

/// A class value as it is spliced into a pattern: wrapped in parentheses to
/// keep its precedence against the surrounding pattern syntax.
pub open spec fn wrapped(value: Seq<char>) -> Seq<char> {
    seq!['('] + value + seq![')']
}

/// Class substitution, walking the characters of the original raw pattern:
/// each uppercase one is looked up and every occurrence of it in the pattern
/// built so far is replaced by the wrapped class value. The pattern is not
/// re-scanned after a replacement, so an uppercase letter introduced by a
/// class value is only resolved if a later character of the raw pattern
/// triggers it.
pub open spec fn spec_substitute_from(
    raw: Seq<char>,
    k: int,
    cur: Seq<char>,
    classes: Seq<(char, Seq<char>)>,
) -> Result<Seq<char>, char>
    decreases raw.len() - k,
{
    if k < 0 || k >= raw.len() {
        Ok(cur)
    } else if char_is_uppercase(raw[k]) {
        match class_lookup(classes, raw[k]) {
            Some(value) => spec_substitute_from(
                raw,
                k + 1,
                spec_replace_char(cur, raw[k], wrapped(value)),
                classes,
            ),
            None => Err(raw[k]),
        }
    } else {
        spec_substitute_from(raw, k + 1, cur, classes)
    }
}

pub open spec fn spec_substitute(raw: Seq<char>, classes: Seq<(char, Seq<char>)>) -> Result<
    Seq<char>,
    char,
> {
    spec_substitute_from(raw, 0, raw, classes)
}

/// The second phase: each buffered rule's pattern is substituted and
/// compiled, in order; the first failure aborts.
pub open spec fn finish_rules(
    raws: Seq<RawRule>,
    k: int,
    classes: Seq<(char, Seq<char>)>,
    acc: Seq<RuleModel>,
) -> Result<Seq<RuleModel>, ParseErrorModel>
    decreases raws.len() - k,
{
    if k < 0 || k >= raws.len() {
        Ok(acc)
    } else {
        match spec_substitute(raws[k].pattern, classes) {
            Err(c) => Err(ParseErrorModel::UnknownClass(c)),
            Ok(p) => if regex_compiles(p) {
                finish_rules(
                    raws,
                    k + 1,
                    classes,
                    acc.push(RuleModel { intent: raws[k].intent, pattern: p, reason: raws[k].reason }),
                )
            } else {
                Err(ParseErrorModel::RegexFail)
            },
        }
    }
}

/// What parsing a document returns: the scheme built from its lines, or the
/// first error.
pub open spec fn spec_parse(doc: Seq<char>) -> Result<SchemeModel, ParseErrorModel> {
    match scan_lines(spec_lines(doc), init_state()) {
        Err(e) => Err(e),
        Ok(st) => match finish_rules(st.raws, 0, st.classes, Seq::empty()) {
            Err(e) => Err(e),
            Ok(rules) => Ok(SchemeModel { rules, reasons: st.reasons, tests: st.tests }),
        },
    }
}

proof fn lemma_classes_view_push(s: Seq<(char, Vec<char>)>, x: (char, Vec<char>))
    ensures
        classes_view(s.push(x)) == classes_view(s).push((x.0, x.1@)),
{
    assert(classes_view(s.push(x)) =~= classes_view(s).push((x.0, x.1@)));
}

proof fn lemma_reasons_view_push(s: Seq<String>, x: String)
    ensures
        reasons_view(s.push(x)) == reasons_view(s).push(x@),
{
    assert(reasons_view(s.push(x)) =~= reasons_view(s).push(x@));
}

proof fn lemma_tests_view_push(s: Seq<TestType>, x: TestType)
    ensures
        tests_view(s.push(x)) == tests_view(s).push(x@),
{
    assert(tests_view(s.push(x)) =~= tests_view(s).push(x@));
}

proof fn lemma_raws_view_push(s: Seq<(bool, Vec<char>, Option<usize>)>, x: (bool, Vec<char>, Option<usize>))
    ensures
        raws_view(s.push(x)) == raws_view(s).push(
            RawRule { intent: x.0, pattern: x.1@, reason: x.2 },
        ),
{
    assert(raws_view(s.push(x)) =~= raws_view(s).push(
        RawRule { intent: x.0, pattern: x.1@, reason: x.2 },
    ));
}

proof fn lemma_rules_view_push(s: Seq<Rule>, x: Rule)
    ensures
        rules_view(s.push(x)) == rules_view(s).push(x@),
{
    assert(rules_view(s.push(x)) =~= rules_view(s).push(x@));
}

/// The latest definition of `name` in the class table, copied out.
fn class_get(classes: &Classes, name: char) -> (r: Option<Vec<char>>)
    ensures
        match r {
            Some(v) => class_lookup(classes_view(classes@), name) == Some(v@),
            None => class_lookup(classes_view(classes@), name) is None,
        },
{
    let ghost cv = classes_view(classes@);
    let mut i: usize = classes.len();
    proof {
        assert(cv.take(i as int) =~= cv);
    }
    while i > 0
        invariant
            i <= classes.len(),
            cv == classes_view(classes@),
            cv.len() == classes@.len(),
            class_lookup(cv, name) == class_lookup(cv.take(i as int), name),
        decreases i,
    {
        i = i - 1;
        if classes[i].0 == name {
            let v = subvec(&classes[i].1, 0, classes[i].1.len());
            proof {
                assert(cv.take(i + 1).last() == cv[i as int]);
                assert(v@ =~= classes@[i as int].1@);
            }
            return Some(v);
        }
        proof {
            assert(cv.take(i + 1).last() == cv[i as int]);
            assert(cv.take(i + 1).drop_last() =~= cv.take(i as int));
        }
    }
    proof {
        assert(cv.take(0) =~= Seq::<(char, Seq<char>)>::empty());
    }
    None
}

/// Every occurrence of `name` in `s` replaced by `value` wrapped in
/// parentheses.
fn replace_class(s: &Vec<char>, name: char, value: &Vec<char>) -> (r: Vec<char>)
    ensures
        r@ == spec_replace_char(s@, name, wrapped(value@)),
{
    let ghost w = wrapped(value@);
    let mut out: Vec<char> = Vec::new();
    let mut i: usize = 0;
    proof {
        assert(s@.subrange(0, s@.len() as int) =~= s@);
        assert(out@ + spec_replace_char(s@, name, w) =~= spec_replace_char(s@, name, w));
    }
    while i < s.len()
        invariant
            i <= s.len(),
            w == wrapped(value@),
            spec_replace_char(s@, name, w) == out@ + spec_replace_char(
                s@.subrange(i as int, s@.len() as int),
                name,
                w,
            ),
        decreases s.len() - i,
    {
        let ghost rest = s@.subrange(i as int, s@.len() as int);
        proof {
            assert(rest[0] == s@[i as int]);
            assert(rest.drop_first() =~= s@.subrange(i + 1, s@.len() as int));
        }
        let c = s[i];
        if c == name {
            let ghost before = out@;
            out.push('(');
            let mut j: usize = 0;
            while j < value.len()
                invariant
                    j <= value.len(),
                    out@ =~= before + seq!['('] + value@.subrange(0, j as int),
                decreases value.len() - j,
            {
                out.push(value[j]);
                j += 1;
            }
            out.push(')');
            proof {
                assert(value@.subrange(0, value@.len() as int) =~= value@);
                assert(out@ =~= before + w);
                assert(before + (w + spec_replace_char(rest.drop_first(), name, w)) =~= (before + w)
                    + spec_replace_char(rest.drop_first(), name, w));
            }
        } else {
            let ghost before = out@;
            out.push(c);
            proof {
                assert(before + (seq![c] + spec_replace_char(rest.drop_first(), name, w)) =~= out@
                    + spec_replace_char(rest.drop_first(), name, w));
            }
        }
        i += 1;
    }
    proof {
        assert(s@.subrange(s@.len() as int, s@.len() as int) =~= Seq::<char>::empty());
        assert(out@ + Seq::<char>::empty() =~= out@);
    }
    out
}

/// Substitute class names in a raw rule pattern with their wrapped values;
/// an uppercase character with no definition is the `UnknownClass` error.
pub fn substitute_classes(rule: &Vec<char>, classes: &Classes) -> (r: Result<Vec<char>, ParseError>)
    ensures
        match spec_substitute(rule@, classes_view(classes@)) {
            Ok(p) => r matches Ok(v) && v@ == p,
            Err(c) => r matches Err(e) && e@ == ParseErrorModel::UnknownClass(c),
        },
{
    let ghost cv = classes_view(classes@);
    let mut cur: Vec<char> = subvec(rule, 0, rule.len());
    let mut k: usize = 0;
    proof {
        assert(cur@ =~= rule@);
    }
    while k < rule.len()
        invariant
            k <= rule.len(),
            cv == classes_view(classes@),
            spec_substitute_from(rule@, k as int, cur@, cv) == spec_substitute(rule@, cv),
        decreases rule.len() - k,
    {
        let c = rule[k];
        if c.is_uppercase() {
            match class_get(classes, c) {
                Some(value) => {
                    cur = replace_class(&cur, c, &value);
                },
                None => {
                    return Err(ParseError::UnknownClass(c));
                },
            }
        }
        k += 1;
    }
    Ok(cur)
}

impl Scheme {
    /// Parse a scheme from document text. The result is exactly what
    /// `spec_parse` says of the text: a whole scheme, or the first error and
    /// no scheme at all.
    pub fn parse(file: &str) -> (r: Result<Scheme, ParseError>)
        ensures
            match r {
                Ok(s) => spec_parse(file@) == Ok::<SchemeModel, ParseErrorModel>(s@),
                Err(e) => spec_parse(file@) == Err::<SchemeModel, ParseErrorModel>(e@),
            },
    {
        let doc = str_to_chars(file);
        let lines = split_lines(&doc);
        let ghost lm = spec_lines(file@);

        let mut classes: Classes = Vec::new();
        let mut reasons: Vec<String> = Vec::new();
        let mut pending: Option<usize> = None;
        let mut sticky: bool = false;
        let mut raws: Vec<(bool, Vec<char>, Option<usize>)> = Vec::new();
        let mut tests: Tests = Vec::new();

        let ghost mut st = init_state();
        proof {
            assert(classes_view(classes@) =~= st.classes);
            assert(reasons_view(reasons@) =~= st.reasons);
            assert(raws_view(raws@) =~= st.raws);
            assert(tests_view(tests@) =~= st.tests);
            assert(lm.subrange(0, lm.len() as int) =~= lm);
        }
        let mut i: usize = 0;
        while i < lines.len()
            invariant
                i <= lines.len(),
                lm == spec_lines(file@),
                lines.len() == lm.len(),
                forall|j: int| 0 <= j < lm.len() ==> lines@[j]@ == lm[j],
                st.classes == classes_view(classes@),
                st.reasons == reasons_view(reasons@),
                st.pending == pending,
                st.sticky == sticky,
                st.raws == raws_view(raws@),
                st.tests == tests_view(tests@),
                scan_lines(lm, init_state()) == scan_lines(
                    lm.subrange(i as int, lm.len() as int),
                    st,
                ),
            decreases lines.len() - i,
        {
            let ghost rest = lm.subrange(i as int, lm.len() as int);
            proof {
                assert(rest[0] == lm[i as int]);
                assert(rest.drop_first() =~= lm.subrange(i + 1, lm.len() as int));
            }
            let t = trim(&lines[i]);
            if t.len() == 0 {
                // blank line: ignored
            } else {
                let first = t[0];
                if first == '#' {
                    // comment: ignored
                } else if first == '$' {
                    if t.len() >= 2 {
                        let name = t[1];
                        let value = trim(&subvec(&t, 2, t.len()));
                        proof {
                            lemma_classes_view_push(classes@, (name, value));
                        }
                        classes.push((name, value));
                        proof {
                            st = scan_line(st, lm[i as int])->Ok_0;
                        }
                    }
                } else if first == '@' {
                    let is_sticky = t.len() >= 2 && t[1] == '@';
                    let text = if is_sticky {
                        trim(&subvec(&t, 2, t.len()))
                    } else {
                        trim(&subvec(&t, 1, t.len()))
                    };
                    let text = chars_to_string(&text);
                    let idx = reasons.len();
                    proof {
                        lemma_reasons_view_push(reasons@, text);
                    }
                    reasons.push(text);
                    pending = Some(idx);
                    sticky = is_sticky;
                    proof {
                        st = scan_line(st, lm[i as int])->Ok_0;
                    }
                } else if first == '&' {
                    if t.len() == 1 {
                        // a bare `&`: silently skipped
                    } else {
                        let intent_ch = t[1];
                        if intent_ch == '+' || intent_ch == '!' {
                            let pat = strip_whitespace(&subvec(&t, 2, t.len()));
                            proof {
                                lemma_raws_view_push(raws@, (intent_ch == '+', pat, pending));
                            }
                            raws.push((intent_ch == '+', pat, pending));
                            if !sticky {
                                pending = None;
                            }
                            proof {
                                st = scan_line(st, lm[i as int])->Ok_0;
                            }
                        } else {
                            return Err(ParseError::UnknownIntentIdentifier(intent_ch));
                        }
                    }
                } else if first == '*' {
                    if t.len() == 1 {
                        // a bare `*`: silently skipped
                    } else {
                        let intent_ch = t[1];
                        if intent_ch == '+' || intent_ch == '!' {
                            let word = trim(&subvec(&t, 2, t.len()));
                            if word.len() > 0 {
                                let word = chars_to_string(&word);
                                proof {
                                    lemma_tests_view_push(
                                        tests@,
                                        TestType::Test(intent_ch == '+', word),
                                    );
                                }
                                tests.push(TestType::Test(intent_ch == '+', word));
                                proof {
                                    st = scan_line(st, lm[i as int])->Ok_0;
                                }
                            }
                        } else {
                            return Err(ParseError::UnknownIntentIdentifier(intent_ch));
                        }
                    }
                } else {
                    return Err(ParseError::UnknownLineOperator(first));
                }
            }
            i += 1;
        }
        proof {
            assert(lm.subrange(lm.len() as int, lm.len() as int) =~= Seq::<Seq<char>>::empty());
            assert(scan_lines(lm, init_state()) == Ok::<ScanState, ParseErrorModel>(st));
        }

        // Second phase: substitute and compile each buffered rule.
        let ghost rv = raws_view(raws@);
        let ghost cv = classes_view(classes@);
        let mut rules: Rules = Vec::new();
        let mut k: usize = 0;
        proof {
            assert(rules_view(rules@) =~= Seq::<RuleModel>::empty());
        }
        while k < raws.len()
            invariant
                k <= raws.len(),
                rv == raws_view(raws@),
                cv == classes_view(classes@),
                raws@.len() == rv.len(),
                lm == spec_lines(file@),
                scan_lines(lm, init_state()) == Ok::<ScanState, ParseErrorModel>(st),
                st.raws == rv,
                st.classes == cv,
                st.reasons == reasons_view(reasons@),
                st.tests == tests_view(tests@),
                finish_rules(rv, 0, cv, Seq::empty()) == finish_rules(
                    rv,
                    k as int,
                    cv,
                    rules_view(rules@),
                ),
            decreases raws.len() - k,
        {
            proof {
                assert(rv[k as int] == RawRule {
                    intent: raws@[k as int].0,
                    pattern: raws@[k as int].1@,
                    reason: raws@[k as int].2,
                });
            }
            let substituted = match substitute_classes(&raws[k].1, &classes) {
                Ok(p) => p,
                Err(e) => {
                    proof {
                        assert(finish_rules(rv, k as int, cv, rules_view(rules@)) == Err::<
                            Seq<RuleModel>,
                            ParseErrorModel,
                        >(e@));
                    }
                    return Err(e);
                },
            };
            let text = chars_to_string(&substituted);
            match Pattern::compile(text.as_str()) {
                Ok(pattern) => {
                    let rule = Rule { intent: raws[k].0, pattern, reason: raws[k].2 };
                    proof {
                        lemma_rules_view_push(rules@, rule);
                    }
                    rules.push(rule);
                },
                Err(e) => {
                    return Err(ParseError::RegexFail(e));
                },
            }
            k += 1;
        }

        let scheme = Scheme { rules, reasons, tests };
        proof {
            assert(scheme@.rules =~= finish_rules(rv, 0, cv, Seq::empty())->Ok_0);
        }
        Ok(scheme)
    }
}

} // verus!
