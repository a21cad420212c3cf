//! Laws that hold across the parser, the engine and the runner, stated over
//! the spec-level parser and runner that the executable functions are pinned
//! to.

use vstd::prelude::*;

use crate::pattern::{regex_compiles, regex_matches};
use crate::scheme::{
    class_lookup, finish_rules, init_state, scan_line, scan_lines, spec_parse, spec_replace_char,
    spec_substitute, spec_substitute_from, wrapped, ParseErrorModel, RawRule, RuleModel, ScanState,
    SchemeModel,
};
use crate::runner::{empty_results, spec_run, spec_validate, Validity};
use crate::text::{char_is_uppercase, spec_lines, spec_strip_whitespace, spec_trim};

verus! {

/// Rule order short-circuits: when the rules before `k` do not disqualify the
/// word and rule `k` does, the verdict is invalid with rule `k`'s reason —
/// whatever the rules after `k` would have said.
pub proof fn lemma_first_violation_wins(rules: Seq<RuleModel>, word: Seq<char>, k: int)
    requires
        0 <= k < rules.len(),
        forall|j: int| 0 <= j < k ==> regex_matches(rules[j].pattern, word) != rules[j].intent,
        regex_matches(rules[k].pattern, word) == rules[k].intent,
    ensures
        spec_validate(rules, word) == Validity::Invalid(rules[k].reason),
    decreases k,
{
    if k == 0 {
    } else {
        assert(regex_matches(rules[0].pattern, word) != rules[0].intent);
        let rest = rules.drop_first();
        assert forall|j: int| 0 <= j < k - 1 implies regex_matches(rest[j].pattern, word)
            != rest[j].intent by {
            assert(rest[j] == rules[j + 1]);
        }
        assert(rest[k - 1] == rules[k]);
        lemma_first_violation_wins(rest, word, k - 1);
    }
}

/// Parsing is a function of the document text and running a function of the
/// scheme: two parses of the same text yield the same scheme, and their test
/// runs report identically.
pub proof fn lemma_round_trip(doc: Seq<char>, m1: SchemeModel, m2: SchemeModel)
    requires
        spec_parse(doc) == Ok::<SchemeModel, ParseErrorModel>(m1),
        spec_parse(doc) == Ok::<SchemeModel, ParseErrorModel>(m2),
    ensures
        m1 == m2,
        spec_run(m1) == spec_run(m2),
{
}

/// A line that declares neither a rule nor a test: blank, a comment, a class
/// definition, or a reason declaration.
pub open spec fn line_is_inert(line: Seq<char>) -> bool {
    let t = spec_trim(line);
    t.len() == 0 || t[0] == '#' || t[0] == '$' || t[0] == '@'
}

proof fn lemma_scan_inert(lines: Seq<Seq<char>>, st: ScanState)
    requires
        forall|i: int| 0 <= i < lines.len() ==> line_is_inert(lines[i]),
    ensures
        scan_lines(lines, st) matches Ok(st2) && st2.raws == st.raws && st2.tests == st.tests,
    decreases lines.len(),
{
    if lines.len() == 0 {
    } else {
        assert(line_is_inert(lines[0]));
        let st2 = scan_line(st, lines[0])->Ok_0;
        assert(scan_line(st, lines[0]) matches Ok(s) && s.raws == st.raws && s.tests == st.tests);
        let rest = lines.drop_first();
        assert forall|i: int| 0 <= i < rest.len() implies line_is_inert(rest[i]) by {
            assert(rest[i] == lines[i + 1]);
        }
        lemma_scan_inert(rest, st2);
    }
}

/// A document whose every line is inert — no rule lines, no test lines —
/// parses (nothing else can fail), its scheme holds no rules and no tests,
/// and the runner returns the empty, zero-failure report.
pub proof fn lemma_no_rules_no_tests_empty_report(doc: Seq<char>)
    requires
        forall|i: int| 0 <= i < spec_lines(doc).len() ==> line_is_inert(spec_lines(doc)[i]),
    ensures
        spec_parse(doc) matches Ok(m) && m.rules.len() == 0 && m.tests.len() == 0 && spec_run(m)
            == empty_results(),
{
    lemma_scan_inert(spec_lines(doc), init_state());
}

/// A reason declaration appends its trimmed text to the registry and leaves
/// it pending for the rules that follow; it is sticky exactly when declared
/// with a doubled marker.
pub proof fn lemma_reason_declaration(st: ScanState, line: Seq<char>)
    requires
        spec_trim(line).len() >= 1,
        spec_trim(line)[0] == '@',
    ensures
        scan_line(st, line) matches Ok(st2) && {
            let t = spec_trim(line);
            let sticky = t.len() >= 2 && t[1] == '@';
            let text = if sticky {
                spec_trim(t.subrange(2, t.len() as int))
            } else {
                spec_trim(t.subrange(1, t.len() as int))
            };
            &&& st2.reasons == st.reasons.push(text)
            &&& st2.pending == Some(st.reasons.len() as usize)
            &&& st2.sticky == sticky
            &&& st2.classes == st.classes
            &&& st2.raws == st.raws
            &&& st2.tests == st.tests
        },
{
}

/// A rule line buffers one rule carrying the pending reason. A sticky reason
/// stays pending, so the next rule attaches it too; a one-off reason is
/// cleared by the rule it attached to, so the next rule carries none.
pub proof fn lemma_reason_attachment(st: ScanState, line: Seq<char>)
    requires
        spec_trim(line).len() >= 2,
        spec_trim(line)[0] == '&',
        spec_trim(line)[1] == '+' || spec_trim(line)[1] == '!',
    ensures
        scan_line(st, line) matches Ok(st2) && {
            let t = spec_trim(line);
            &&& st2.raws == st.raws.push(
                RawRule {
                    intent: t[1] == '+',
                    pattern: spec_strip_whitespace(t.subrange(2, t.len() as int)),
                    reason: st.pending,
                },
            )
            &&& st2.pending == if st.sticky {
                st.pending
            } else {
                None::<usize>
            }
            &&& st2.sticky == st.sticky
            &&& st2.classes == st.classes
            &&& st2.reasons == st.reasons
            &&& st2.tests == st.tests
        },
{
}

/// Line `line` defines class `x`.
pub open spec fn line_defines_class(line: Seq<char>, x: char) -> bool {
    let t = spec_trim(line);
    t.len() >= 2 && t[0] == '$' && t[1] == x
}

/// Line `line` is a rule line whose raw pattern (whitespace stripped)
/// contains `x`.
pub open spec fn rule_line_mentions(line: Seq<char>, x: char) -> bool {
    let t = spec_trim(line);
    t.len() >= 2 && t[0] == '&' && (t[1] == '+' || t[1] == '!') && spec_strip_whitespace(
        t.subrange(2, t.len() as int),
    ).contains(x)
}

proof fn lemma_scan_no_definition(lines: Seq<Seq<char>>, st: ScanState, x: char)
    requires
        class_lookup(st.classes, x) is None,
        forall|i: int| 0 <= i < lines.len() ==> !line_defines_class(lines[i], x),
    ensures
        scan_lines(lines, st) matches Ok(st2) ==> class_lookup(st2.classes, x) is None,
    decreases lines.len(),
{
    if lines.len() == 0 {
    } else if scan_line(st, lines[0]) is Ok {
        let st2 = scan_line(st, lines[0])->Ok_0;
        let t = spec_trim(lines[0]);
        if t.len() >= 2 && t[0] == '$' {
            let p = (t[1], spec_trim(t.subrange(2, t.len() as int)));
            assert(st2.classes == st.classes.push(p));
            assert(!line_defines_class(lines[0], x));
            assert(p.0 != x);
            assert(st.classes.push(p).drop_last() =~= st.classes);
            assert(class_lookup(st2.classes, x) is None);
        } else {
            assert(st2.classes == st.classes);
        }
        let rest = lines.drop_first();
        assert forall|i: int| 0 <= i < rest.len() implies !line_defines_class(rest[i], x) by {
            assert(rest[i] == lines[i + 1]);
        }
        lemma_scan_no_definition(rest, st2, x);
    }
}

proof fn lemma_scan_keeps_raw(lines: Seq<Seq<char>>, st: ScanState, k: int)
    requires
        0 <= k < st.raws.len(),
    ensures
        scan_lines(lines, st) matches Ok(st2) ==> k < st2.raws.len() && st2.raws[k] == st.raws[k],
    decreases lines.len(),
{
    if lines.len() == 0 {
    } else if scan_line(st, lines[0]) is Ok {
        let st2 = scan_line(st, lines[0])->Ok_0;
        assert(k < st2.raws.len() && st2.raws[k] == st.raws[k]);
        lemma_scan_keeps_raw(lines.drop_first(), st2, k);
    }
}

proof fn lemma_scan_rule_recorded(lines: Seq<Seq<char>>, st: ScanState, i: int, x: char)
    requires
        0 <= i < lines.len(),
        rule_line_mentions(lines[i], x),
    ensures
        scan_lines(lines, st) matches Ok(st2) ==> exists|k: int|
            0 <= k < st2.raws.len() && st2.raws[k].pattern.contains(x),
    decreases i,
{
    if scan_line(st, lines[0]) is Ok {
        let st2 = scan_line(st, lines[0])->Ok_0;
        if i == 0 {
            let t = spec_trim(lines[0]);
            let k = st.raws.len() as int;
            assert(st2.raws == st.raws.push(
                RawRule {
                    intent: t[1] == '+',
                    pattern: spec_strip_whitespace(t.subrange(2, t.len() as int)),
                    reason: st.pending,
                },
            ));
            assert(st2.raws[k].pattern.contains(x));
            lemma_scan_keeps_raw(lines.drop_first(), st2, k);
            if scan_lines(lines.drop_first(), st2) is Ok {
                let stf = scan_lines(lines.drop_first(), st2)->Ok_0;
                assert(0 <= k < stf.raws.len() && stf.raws[k].pattern.contains(x));
            }
        } else {
            let rest = lines.drop_first();
            assert(rest[i - 1] == lines[i]);
            lemma_scan_rule_recorded(rest, st2, i - 1, x);
        }
    }
}

proof fn lemma_substitute_unresolved(
    raw: Seq<char>,
    j: int,
    cur: Seq<char>,
    classes: Seq<(char, Seq<char>)>,
    x: char,
)
    requires
        0 <= j <= raw.len(),
        exists|m: int| j <= m < raw.len() && raw[m] == x,
        char_is_uppercase(x),
        class_lookup(classes, x) is None,
    ensures
        spec_substitute_from(raw, j, cur, classes) is Err,
    decreases raw.len() - j,
{
    let m = choose|m: int| j <= m < raw.len() && raw[m] == x;
    if j == m {
    } else {
        assert(j + 1 <= m < raw.len() && raw[m] == x);
        if char_is_uppercase(raw[j]) {
            match class_lookup(classes, raw[j]) {
                Some(v) => {
                    lemma_substitute_unresolved(
                        raw,
                        j + 1,
                        spec_replace_char(cur, raw[j], wrapped(v)),
                        classes,
                        x,
                    );
                },
                None => {},
            }
        } else {
            lemma_substitute_unresolved(raw, j + 1, cur, classes, x);
        }
    }
}

proof fn lemma_finish_unresolved(
    raws: Seq<RawRule>,
    j: int,
    classes: Seq<(char, Seq<char>)>,
    acc: Seq<RuleModel>,
    k: int,
    x: char,
)
    requires
        0 <= j <= k < raws.len(),
        raws[k].pattern.contains(x),
        char_is_uppercase(x),
        class_lookup(classes, x) is None,
    ensures
        finish_rules(raws, j, classes, acc) is Err,
    decreases raws.len() - j,
{
    if j == k {
        lemma_substitute_unresolved(raws[k].pattern, 0, raws[k].pattern, classes, x);
    } else {
        match spec_substitute(raws[j].pattern, classes) {
            Err(_) => {},
            Ok(p) => {
                if regex_compiles(p) {
                    lemma_finish_unresolved(
                        raws,
                        j + 1,
                        classes,
                        acc.push(
                            RuleModel {
                                intent: raws[j].intent,
                                pattern: p,
                                reason: raws[j].reason,
                            },
                        ),
                        k,
                        x,
                    );
                }
            },
        }
    }
}

/// Every reason reference the scan has handed out so far points into the
/// registry built so far.
pub open spec fn reason_refs_ok(st: ScanState) -> bool {
    &&& (st.pending matches Some(i) ==> (i as int) < st.reasons.len())
    &&& forall|k: int|
        0 <= k < st.raws.len() ==> (#[trigger] st.raws[k].reason matches Some(i) ==> (i as int)
            < st.reasons.len())
}

proof fn lemma_scan_refs_ok(lines: Seq<Seq<char>>, st: ScanState)
    requires
        reason_refs_ok(st),
    ensures
        scan_lines(lines, st) matches Ok(st2) ==> reason_refs_ok(st2),
    decreases lines.len(),
{
    if lines.len() == 0 {
    } else if scan_line(st, lines[0]) is Ok {
        let st2 = scan_line(st, lines[0])->Ok_0;
        assert(reason_refs_ok(st2)) by {
            assert(st2.reasons.len() >= st.reasons.len());
            assert forall|k: int|
                0 <= k < st2.raws.len() implies (#[trigger] st2.raws[k].reason matches Some(i)
                ==> (i as int) < st2.reasons.len()) by {
                if k < st.raws.len() {
                    assert(st2.raws[k] == st.raws[k]);
                }
            }
        }
        lemma_scan_refs_ok(lines.drop_first(), st2);
    }
}

proof fn lemma_finish_refs_ok(
    raws: Seq<RawRule>,
    j: int,
    classes: Seq<(char, Seq<char>)>,
    acc: Seq<RuleModel>,
    bound: int,
)
    requires
        forall|k: int|
            0 <= k < raws.len() ==> (#[trigger] raws[k].reason matches Some(i) ==> (i as int)
                < bound),
        forall|k: int|
            0 <= k < acc.len() ==> (#[trigger] acc[k].reason matches Some(i) ==> (i as int)
                < bound),
    ensures
        finish_rules(raws, j, classes, acc) matches Ok(rules) ==> forall|k: int|
            0 <= k < rules.len() ==> (#[trigger] rules[k].reason matches Some(i) ==> (i as int)
                < bound),
    decreases raws.len() - j,
{
    if j < 0 || j >= raws.len() {
    } else {
        match spec_substitute(raws[j].pattern, classes) {
            Err(_) => {},
            Ok(p) => {
                if regex_compiles(p) {
                    let pushed = acc.push(
                        RuleModel { intent: raws[j].intent, pattern: p, reason: raws[j].reason },
                    );
                    assert forall|k: int|
                        0 <= k < pushed.len() implies (#[trigger] pushed[k].reason matches Some(i)
                        ==> (i as int) < bound) by {
                        if k < acc.len() {
                            assert(pushed[k] == acc[k]);
                        } else {
                            assert(pushed[k].reason == raws[j].reason);
                        }
                    }
                    lemma_finish_refs_ok(raws, j + 1, classes, pushed, bound);
                }
            },
        }
    }
}

/// No dangling reason reference leaves the parser: in a parsed scheme, every
/// rule's reason reference points into the reason registry.
pub proof fn lemma_reason_references_resolve(doc: Seq<char>, m: SchemeModel)
    requires
        spec_parse(doc) == Ok::<SchemeModel, ParseErrorModel>(m),
    ensures
        forall|k: int|
            0 <= k < m.rules.len() ==> (#[trigger] m.rules[k].reason matches Some(i) ==> (i as int)
                < m.reasons.len()),
{
    let lines = spec_lines(doc);
    lemma_scan_refs_ok(lines, init_state());
    let st = scan_lines(lines, init_state())->Ok_0;
    lemma_finish_refs_ok(st.raws, 0, st.classes, Seq::empty(), st.reasons.len() as int);
}

/// An uppercase class character that some rule's pattern references but that
/// no line of the document defines is a parse failure: no scheme is returned.
pub proof fn lemma_unknown_class_fails(doc: Seq<char>, i: int, x: char)
    requires
        0 <= i < spec_lines(doc).len(),
        rule_line_mentions(spec_lines(doc)[i], x),
        char_is_uppercase(x),
        forall|j: int| 0 <= j < spec_lines(doc).len() ==> !line_defines_class(
            spec_lines(doc)[j],
            x,
        ),
    ensures
        spec_parse(doc) is Err,
{
    let lines = spec_lines(doc);
    if scan_lines(lines, init_state()) is Ok {
        let st = scan_lines(lines, init_state())->Ok_0;
        lemma_scan_no_definition(lines, init_state(), x);
        lemma_scan_rule_recorded(lines, init_state(), i, x);
        let k = choose|k: int| 0 <= k < st.raws.len() && st.raws[k].pattern.contains(x);
        lemma_finish_unresolved(st.raws, 0, st.classes, Seq::empty(), k, x);
    }
}

} // verus!
