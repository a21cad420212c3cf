//! Character and line utilities for the scheme parser: splitting a document
//! into lines, trimming surrounding whitespace, and stripping whitespace out
//! of rule patterns, each tied to a spec-level definition.

use vstd::prelude::*;
use vstd::string::StrSliceExecFns;

verus! {

/// What `char::is_whitespace` returns: the Unicode `White_Space` property of
/// the character.
pub uninterp spec fn char_is_whitespace(c: char) -> bool;

/// What `char::is_uppercase` returns: the Unicode `Uppercase` property of the
/// character.
pub uninterp spec fn char_is_uppercase(c: char) -> bool;

/// Relies on char::is_whitespace: the result is the Unicode `White_Space`
/// property, which on ASCII holds exactly of space, tab, line feed, vertical
/// tab, form feed and carriage return.
pub assume_specification[ char::is_whitespace ](c: char) -> (r: bool)
    ensures
        r == char_is_whitespace(c),
        (c as u32) < 128 ==> (r <==> (c == ' ' || c == '\t' || c == '\n' || c == '\r' || c as u32
            == 0xB || c as u32 == 0xC)),
;

/// Relies on char::is_uppercase: the result is the Unicode `Uppercase`
/// property, which on ASCII holds exactly of the letters `A` to `Z`.
pub assume_specification[ char::is_uppercase ](c: char) -> (r: bool)
    ensures
        r == char_is_uppercase(c),
        (c as u32) < 128 ==> (r <==> ('A' as u32 <= c as u32 && c as u32 <= 'Z' as u32)),
;

/// The characters of a string, collected in order.
pub fn str_to_chars(s: &str) -> (v: Vec<char>)
    ensures
        v@ == s@,
{
    let n = s.unicode_len();
    let mut v: Vec<char> = Vec::new();
    let mut i: usize = 0;
    while i < n
        invariant
            i <= n,
            n == s@.len(),
            v@ =~= s@.subrange(0, i as int),
        decreases n - i,
    {
        v.push(s.get_char(i));
        i += 1;
    }
    proof {
        assert(s@.subrange(0, s@.len() as int) =~= s@);
    }
    v
}

/// Relies on String's FromIterator: collecting characters builds the string
/// of exactly those characters, in order.
#[verifier::external_body]
pub fn chars_to_string(v: &Vec<char>) -> (s: String)
    ensures
        s@ == v@,
{
    v.iter().collect()
}

/// The lines of a document: maximal runs of characters between newline
/// separators. A trailing newline does not open a final empty line.
pub open spec fn spec_lines_acc(doc: Seq<char>, cur: Seq<char>) -> Seq<Seq<char>>
    decreases doc.len(),
{
    if doc.len() == 0 {
        if cur.len() == 0 {
            Seq::empty()
        } else {
            seq![cur]
        }
    } else if doc[0] == '\n' {
        seq![cur] + spec_lines_acc(doc.drop_first(), Seq::empty())
    } else {
        spec_lines_acc(doc.drop_first(), cur.push(doc[0]))
    }
}

pub open spec fn spec_lines(doc: Seq<char>) -> Seq<Seq<char>> {
    spec_lines_acc(doc, Seq::empty())
}

pub open spec fn lines_view(ls: Seq<Vec<char>>) -> Seq<Seq<char>> {
    ls.map_values(|l: Vec<char>| l@)
}

/// Split a document into its lines.
pub fn split_lines(doc: &Vec<char>) -> (r: Vec<Vec<char>>)
    ensures
        lines_view(r@) == spec_lines(doc@),
{
    let mut out: Vec<Vec<char>> = Vec::new();
    let mut cur: Vec<char> = Vec::new();
    let mut i: usize = 0;
    proof {
        assert(doc@.subrange(0, doc@.len() as int) =~= doc@);
        assert(lines_view(out@) + spec_lines_acc(doc@, cur@) =~= spec_lines_acc(doc@, cur@));
    }
    while i < doc.len()
        invariant
            i <= doc.len(),
            spec_lines(doc@) == lines_view(out@) + spec_lines_acc(
                doc@.subrange(i as int, doc@.len() as int),
                cur@,
            ),
        decreases doc.len() - i,
    {
        let ghost rest = doc@.subrange(i as int, doc@.len() as int);
        proof {
            assert(rest[0] == doc@[i as int]);
            assert(rest.drop_first() =~= doc@.subrange(i + 1, doc@.len() as int));
        }
        let c = doc[i];
        if c == '\n' {
            let ghost old_out = out@;
            let ghost old_cur = cur@;
            out.push(cur);
            cur = Vec::new();
            proof {
                assert(lines_view(out@) =~= lines_view(old_out) + seq![old_cur]);
            }
        } else {
            cur.push(c);
        }
        i += 1;
    }
    proof {
        assert(doc@.subrange(doc@.len() as int, doc@.len() as int) =~= Seq::<char>::empty());
    }
    if cur.len() > 0 {
        let ghost old_out = out@;
        let ghost old_cur = cur@;
        out.push(cur);
        proof {
            assert(lines_view(out@) =~= lines_view(old_out) + seq![old_cur]);
        }
    } else {
        proof {
            assert(lines_view(out@) + Seq::<Seq<char>>::empty() =~= lines_view(out@));
        }
    }
    out
}

/// Leading whitespace removed.
pub open spec fn spec_trim_start(s: Seq<char>) -> Seq<char>
    decreases s.len(),
{
    if s.len() > 0 && char_is_whitespace(s[0]) {
        spec_trim_start(s.drop_first())
    } else {
        s
    }
}

/// Trailing whitespace removed.
pub open spec fn spec_trim_end(s: Seq<char>) -> Seq<char>
    decreases s.len(),
{
    if s.len() > 0 && char_is_whitespace(s.last()) {
        spec_trim_end(s.drop_last())
    } else {
        s
    }
}

/// Surrounding whitespace removed.
pub open spec fn spec_trim(s: Seq<char>) -> Seq<char> {
    spec_trim_end(spec_trim_start(s))
}

proof fn lemma_trim_start_at(s: Seq<char>, a: int)
    requires
        0 <= a <= s.len(),
        forall|j: int| 0 <= j < a ==> char_is_whitespace(s[j]),
        a < s.len() ==> !char_is_whitespace(s[a]),
    ensures
        spec_trim_start(s) == s.subrange(a, s.len() as int),
    decreases a,
{
    if a == 0 {
        assert(s.subrange(0, s.len() as int) =~= s);
    } else {
        lemma_trim_start_at(s.drop_first(), a - 1);
        assert(s.drop_first().subrange(a - 1, s.drop_first().len() as int) =~= s.subrange(
            a,
            s.len() as int,
        ));
    }
}

proof fn lemma_trim_end_at(s: Seq<char>, b: int)
    requires
        0 <= b <= s.len(),
        forall|j: int| b <= j < s.len() ==> char_is_whitespace(s[j]),
        b > 0 ==> !char_is_whitespace(s[b - 1]),
    ensures
        spec_trim_end(s) == s.subrange(0, b),
    decreases s.len() - b,
{
    if b == s.len() {
        assert(s.subrange(0, s.len() as int) =~= s);
    } else {
        lemma_trim_end_at(s.drop_last(), b);
        assert(s.drop_last().subrange(0, b) =~= s.subrange(0, b));
    }
}

/// Copy of `v` with surrounding whitespace removed.
pub fn trim(v: &Vec<char>) -> (r: Vec<char>)
    ensures
        r@ == spec_trim(v@),
{
    let mut a: usize = 0;
    while a < v.len() && v[a].is_whitespace()
        invariant
            a <= v.len(),
            forall|j: int| 0 <= j < a ==> char_is_whitespace(v@[j]),
        decreases v.len() - a,
    {
        a += 1;
    }
    proof {
        lemma_trim_start_at(v@, a as int);
    }
    let mut b: usize = v.len();
    while b > a && v[b - 1].is_whitespace()
        invariant
            a <= b <= v.len(),
            forall|j: int| b <= j < v.len() ==> char_is_whitespace(v@[j]),
        decreases b,
    {
        b -= 1;
    }
    let ghost start = v@.subrange(a as int, v@.len() as int);
    proof {
        if b == a {
            // everything from a on is whitespace, and start begins at a
            lemma_trim_end_at(start, 0);
        } else {
            lemma_trim_end_at(start, b - a);
        }
        assert(start.subrange(0, b - a) =~= v@.subrange(a as int, b as int));
    }
    let mut out: Vec<char> = Vec::new();
    let mut i: usize = a;
    while i < b
        invariant
            a <= i <= b <= v.len(),
            out@ =~= v@.subrange(a as int, i as int),
        decreases b - i,
    {
        out.push(v[i]);
        i += 1;
    }
    proof {
        assert(out@ =~= spec_trim(v@));
    }
    out
}

/// Every whitespace character removed; the rest kept in order.
pub open spec fn spec_strip_whitespace(s: Seq<char>) -> Seq<char>
    decreases s.len(),
{
    if s.len() == 0 {
        Seq::empty()
    } else if char_is_whitespace(s[0]) {
        spec_strip_whitespace(s.drop_first())
    } else {
        seq![s[0]] + spec_strip_whitespace(s.drop_first())
    }
}

/// Copy of `v` with every whitespace character removed.
pub fn strip_whitespace(v: &Vec<char>) -> (r: Vec<char>)
    ensures
        r@ == spec_strip_whitespace(v@),
{
    let mut out: Vec<char> = Vec::new();
    let mut i: usize = 0;
    proof {
        assert(v@.subrange(0, v@.len() as int) =~= v@);
        assert(out@ + spec_strip_whitespace(v@) =~= spec_strip_whitespace(v@));
    }
    while i < v.len()
        invariant
            i <= v.len(),
            spec_strip_whitespace(v@) == out@ + spec_strip_whitespace(
                v@.subrange(i as int, v@.len() as int),
            ),
        decreases v.len() - i,
    {
        let ghost rest = v@.subrange(i as int, v@.len() as int);
        proof {
            assert(rest[0] == v@[i as int]);
            assert(rest.drop_first() =~= v@.subrange(i + 1, v@.len() as int));
        }
        let c = v[i];
        if !c.is_whitespace() {
            let ghost old_out = out@;
            out.push(c);
            proof {
                assert(old_out + (seq![c] + spec_strip_whitespace(rest.drop_first())) =~= out@
                    + spec_strip_whitespace(rest.drop_first()));
            }
        }
        i += 1;
    }
    proof {
        assert(v@.subrange(v@.len() as int, v@.len() as int) =~= Seq::<char>::empty());
        assert(out@ + Seq::<char>::empty() =~= out@);
    }
    out
}

/// Copy of `v[a..b]`.
pub fn subvec(v: &Vec<char>, a: usize, b: usize) -> (r: Vec<char>)
    requires
        a <= b <= v.len(),
    ensures
        r@ == v@.subrange(a as int, b as int),
{
    let mut out: Vec<char> = Vec::new();
    let mut i: usize = a;
    while i < b
        invariant
            a <= i <= b <= v.len(),
            out@ =~= v@.subrange(a as int, i as int),
        decreases b - i,
    {
        out.push(v[i]);
        i += 1;
    }
    out
}

} // verus!
