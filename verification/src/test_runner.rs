use vstd::prelude::*;

use crate::text::{
    chars_eq, chars_to_string, contains, decimal, find, lemma_find, lines, matches_at, find_chars, lines_chars, starts_with, str_to_chars,
    sub_chars, trim, trim_chars, trim_start, trim_start_chars, usize_to_chars,
};
use vstd::string::*;

verus! {

// ---------------------------------------------------------------------------
// Spec: reading the annotations of a test script and judging a run.
// ---------------------------------------------------------------------------

/// What a test script expects of a run, as plain values.
pub struct ExpectationsView {
    pub expected_output: Seq<(nat, Seq<char>)>,
    pub expected_errors: Seq<Seq<char>>,
    pub runtime_error: Option<(nat, Seq<char>)>,
    pub expected_exit_code: int,
}

pub open spec fn no_expectations() -> ExpectationsView {
    ExpectationsView {
        expected_output: Seq::empty(),
        expected_errors: Seq::empty(),
        runtime_error: None,
        expected_exit_code: 0,
    }
}

/// `s` with `x` added at the end unless it is already there.
pub open spec fn insert_unique(s: Seq<Seq<char>>, x: Seq<char>) -> Seq<Seq<char>> {
    if s.contains(x) {
        s
    } else {
        s.push(x)
    }
}

/// The rest of `s` after `p`, when `s` starts with `p`.
pub open spec fn strip_prefix(s: Seq<char>, p: Seq<char>) -> Option<Seq<char>> {
    if starts_with(s, p) {
        Some(s.subrange(p.len() as int, s.len() as int))
    } else {
        None
    }
}

/// `s` split around the first occurrence of `p`.
pub open spec fn split_once(s: Seq<char>, p: Seq<char>) -> Option<(Seq<char>, Seq<char>)> {
    match find(s, p) {
        Some(k) => Some((s.subrange(0, k), s.subrange(k + p.len(), s.len() as int))),
        None => None,
    }
}

/// The text after the first occurrence of `prefix` in `line`.
pub open spec fn spec_extract_after(line: Seq<char>, prefix: Seq<char>) -> Option<Seq<char>> {
    match find(line, prefix) {
        Some(k) => Some(line.subrange(k + prefix.len(), line.len() as int)),
        None => None,
    }
}

pub open spec fn all_digits(s: Seq<char>) -> bool {
    forall|i: int| 0 <= i < s.len() ==> '0' <= #[trigger] s[i] && s[i] <= '9'
}

/// The number that a string of decimal digits denotes.
pub open spec fn digits_value(s: Seq<char>) -> int
    decreases s.len(),
{
    if s.len() == 0 {
        0
    } else {
        digits_value(s.drop_last()) * 10 + (s.last() as int - '0' as int)
    }
}

/// `usize::from_str`: an optional `+`, then at least one decimal digit, and a
/// value that fits.
pub open spec fn parse_usize(s: Seq<char>) -> Option<nat> {
    let d = if s.len() > 0 && s[0] == '+' {
        s.drop_first()
    } else {
        s
    };
    if d.len() == 0 || !all_digits(d) || digits_value(d) > usize::MAX {
        None
    } else {
        Some(digits_value(d) as nat)
    }
}

/// An annotation `// [line N] Error ...`, or `// [tag line N] Error ...` with
/// the given language tag: the line number and the message.
pub open spec fn spec_parse_bracket_error(line: Seq<char>, language: Seq<char>) -> Option<(nat, Seq<char>)> {
    match strip_prefix(line, "// ["@) {
        None => None,
        Some(rest) => match split_once(rest, "line "@) {
            None => None,
            Some((tag0, after_tag)) => {
                let tag = trim(tag0);
                if tag.len() != 0 && tag != language {
                    None
                } else {
                    match find(after_tag, "]"@) {
                        None => None,
                        Some(close) => match parse_usize(trim(after_tag.subrange(0, close))) {
                            None => None,
                            Some(number) => {
                                let message = trim_start(after_tag.subrange(close + 1, after_tag.len() as int));
                                if !starts_with(message, "Error"@) {
                                    None
                                } else {
                                    Some((number, message))
                                }
                            },
                        },
                    }
                }
            },
        },
    }
}

/// An interpreter's error line `[line N] Error ...`: the line number and the
/// message.
pub open spec fn spec_parse_error_line(line: Seq<char>) -> Option<(nat, Seq<char>)> {
    match strip_prefix(trim_start(line), "["@) {
        None => None,
        Some(rest) => match split_once(rest, "line "@) {
            None => None,
            Some((_tag, after_tag)) => match find(after_tag, "]"@) {
                None => None,
                Some(close) => match parse_usize(trim(after_tag.subrange(0, close))) {
                    None => None,
                    Some(number) => {
                        let message = trim_start(after_tag.subrange(close + 1, after_tag.len() as int));
                        if !starts_with(message, "Error"@) {
                            None
                        } else {
                            Some((number, message))
                        }
                    },
                },
            },
        },
    }
}

/// An expected error as the runner records it: `[N] message`.
pub open spec fn error_key(number: nat, message: Seq<char>) -> Seq<char> {
    "["@ + decimal(number) + "] "@ + message
}

/// `text` without one leading space, if it has one.
pub open spec fn strip_one_space(text: Seq<char>) -> Seq<char> {
    match strip_prefix(text, " "@) {
        Some(t) => t,
        None => text,
    }
}

/// Reading one annotation line (its number is `line_num`); `None` when the
/// script is marked as not a test.
pub open spec fn read_annotation(
    raw: Seq<char>,
    line_num: nat,
    language: Seq<char>,
    st: ExpectationsView,
) -> Option<ExpectationsView> {
    let line = trim_start(raw);
    if contains(line, "// nontest"@) {
        None
    } else if spec_extract_after(line, "// expect runtime error:"@) is Some {
        let text = trim_start(spec_extract_after(line, "// expect runtime error:"@)->0);
        if text.len() != 0 {
            Some(ExpectationsView { runtime_error: Some((line_num, text)), expected_exit_code: 70, ..st })
        } else {
            Some(st)
        }
    } else if spec_extract_after(line, "// expect:"@) is Some {
        let text = strip_one_space(spec_extract_after(line, "// expect:"@)->0);
        Some(ExpectationsView { expected_output: st.expected_output.push((line_num, text)), ..st })
    } else if spec_parse_bracket_error(line, language) is Some {
        let (number, message) = spec_parse_bracket_error(line, language)->0;
        Some(
            ExpectationsView {
                expected_errors: insert_unique(st.expected_errors, error_key(number, message)),
                expected_exit_code: 65,
                ..st
            },
        )
    } else if find(line, "// Error"@) is Some {
        let pos = find(line, "// Error"@)->0;
        let message = trim_start(line.subrange(pos + 3, line.len() as int));
        Some(
            ExpectationsView {
                expected_errors: insert_unique(st.expected_errors, error_key(line_num, message)),
                expected_exit_code: 65,
                ..st
            },
        )
    } else {
        Some(st)
    }
}

/// Reading the annotation lines from index `i` on.
pub open spec fn read_annotations(
    ls: Seq<Seq<char>>,
    i: int,
    language: Seq<char>,
    st: ExpectationsView,
) -> Option<ExpectationsView>
    decreases ls.len() - i,
{
    if i < 0 || i >= ls.len() {
        if st.expected_errors.len() != 0 && st.runtime_error is Some {
            None
        } else {
            Some(st)
        }
    } else {
        match read_annotation(ls[i], (i + 1) as nat, language, st) {
            None => None,
            Some(st2) => read_annotations(ls, i + 1, language, st2),
        }
    }
}

/// What a test script expects, or `None` when it is not a test (marked so, or
/// expecting both compile errors and a runtime error).
pub open spec fn spec_parse_test(content: Seq<char>, language: Seq<char>) -> Option<ExpectationsView> {
    read_annotations(lines(content), 0, language, no_expectations())
}

/// The exit code that the announced outcome calls for: 65 for compile
/// errors, 70 for a runtime error, 0 otherwise.
pub open spec fn exit_code_for(errors: Seq<Seq<char>>, runtime_error: Option<(nat, Seq<char>)>) -> int {
    if errors.len() > 0 {
        65
    } else if runtime_error is Some {
        70
    } else {
        0
    }
}

spec fn code_consistent(st: ExpectationsView) -> bool {
    &&& (st.runtime_error is None && st.expected_errors.len() > 0 ==> st.expected_exit_code == 65)
    &&& (st.expected_errors.len() == 0 ==> st.expected_exit_code == exit_code_for(
        st.expected_errors,
        st.runtime_error,
    ))
}

proof fn lemma_read_annotations_code(ls: Seq<Seq<char>>, i: int, language: Seq<char>, st: ExpectationsView)
    requires
        code_consistent(st),
    ensures
        read_annotations(ls, i, language, st) matches Some(e) ==> e.expected_exit_code == exit_code_for(
            e.expected_errors,
            e.runtime_error,
        ),
    decreases ls.len() - i,
{
    if 0 <= i < ls.len() {
        if let Some(st2) = read_annotation(ls[i], (i + 1) as nat, language, st) {
            assert forall|x: Seq<char>| #[trigger] insert_unique(st.expected_errors, x).len() > 0 by {
                if st.expected_errors.contains(x) {
                    assert(st.expected_errors.len() > 0);
                }
            }
            lemma_read_annotations_code(ls, i + 1, language, st2);
        }
    }
}

/// What a test script announces decides the exit code it expects: 65 when
/// it announces compile errors, 70 when it announces a runtime error, 0
/// otherwise.
pub proof fn law_exit_code_follows_annotations(content: Seq<char>, language: Seq<char>)
    ensures
        spec_parse_test(content, language) matches Some(e) ==> e.expected_exit_code == exit_code_for(
            e.expected_errors,
            e.runtime_error,
        ),
{
    lemma_read_annotations_code(lines(content), 0, language, no_expectations());
}

/// A script line that marks the script as not a test: leading blanks aside,
/// it contains `// nontest`.
pub open spec fn marks_nontest(raw: Seq<char>) -> bool {
    contains(trim_start(raw), "// nontest"@)
}

/// A script line that announces a runtime error with a message.
pub open spec fn announces_runtime_error(raw: Seq<char>) -> bool {
    let line = trim_start(raw);
    &&& !contains(line, "// nontest"@)
    &&& spec_extract_after(line, "// expect runtime error:"@) is Some
    &&& trim_start(spec_extract_after(line, "// expect runtime error:"@)->0).len() != 0
}

/// A script line that announces a compile error, in the language's own form
/// (`// [line N] Error...`, `// [c line N] Error...`) or as `// Error...`.
pub open spec fn announces_compile_error(raw: Seq<char>, language: Seq<char>) -> bool {
    let line = trim_start(raw);
    &&& !contains(line, "// nontest"@)
    &&& spec_extract_after(line, "// expect runtime error:"@) is None
    &&& spec_extract_after(line, "// expect:"@) is None
    &&& (spec_parse_bracket_error(line, language) is Some || find(line, "// Error"@) is Some)
}

/// Whether one of the lines from index `i` on marks the script as not a test.
pub open spec fn nontest_from(ls: Seq<Seq<char>>, i: int) -> bool {
    exists|k: int| i <= k < ls.len() && #[trigger] marks_nontest(ls[k])
}

/// Whether one of the lines from index `i` on announces a runtime error.
pub open spec fn runtime_error_from(ls: Seq<Seq<char>>, i: int) -> bool {
    exists|k: int| i <= k < ls.len() && #[trigger] announces_runtime_error(ls[k])
}

/// Whether one of the lines from index `i` on announces a compile error.
pub open spec fn compile_error_from(ls: Seq<Seq<char>>, i: int, language: Seq<char>) -> bool {
    exists|k: int| i <= k < ls.len() && #[trigger] announces_compile_error(ls[k], language)
}

proof fn lemma_read_annotations_none(ls: Seq<Seq<char>>, i: int, language: Seq<char>, st: ExpectationsView)
    requires
        0 <= i <= ls.len(),
    ensures
        read_annotations(ls, i, language, st) is None <==> nontest_from(ls, i) || ((st.expected_errors.len() > 0
            || compile_error_from(ls, i, language)) && (st.runtime_error is Some || runtime_error_from(ls, i))),
        read_annotations(ls, i, language, st) matches Some(e) ==> !(e.runtime_error is Some
            && e.expected_errors.len() > 0),
    decreases ls.len() - i,
{
    if i < ls.len() {
        let raw = ls[i];
        assert(nontest_from(ls, i) <==> marks_nontest(raw) || nontest_from(ls, i + 1)) by {
            if nontest_from(ls, i) && !marks_nontest(raw) {
                let k = choose|k: int| i <= k < ls.len() && #[trigger] marks_nontest(ls[k]);
                assert(i + 1 <= k);
            }
        }
        assert(runtime_error_from(ls, i) <==> announces_runtime_error(raw) || runtime_error_from(ls, i + 1)) by {
            if runtime_error_from(ls, i) && !announces_runtime_error(raw) {
                let k = choose|k: int| i <= k < ls.len() && #[trigger] announces_runtime_error(ls[k]);
                assert(i + 1 <= k);
            }
        }
        assert(compile_error_from(ls, i, language) <==> announces_compile_error(raw, language)
            || compile_error_from(ls, i + 1, language)) by {
            if compile_error_from(ls, i, language) && !announces_compile_error(raw, language) {
                let k = choose|k: int| i <= k < ls.len() && #[trigger] announces_compile_error(ls[k], language);
                assert(i + 1 <= k);
            }
        }
        if let Some(st2) = read_annotation(raw, (i + 1) as nat, language, st) {
            assert forall|x: Seq<char>| #[trigger] insert_unique(st.expected_errors, x).len() > 0 by {
                if st.expected_errors.contains(x) {
                    assert(st.expected_errors.len() > 0);
                }
            }
            assert(st2.expected_errors.len() > 0 <==> st.expected_errors.len() > 0 || announces_compile_error(
                raw,
                language,
            ));
            assert(st2.runtime_error is Some <==> st.runtime_error is Some || announces_runtime_error(raw));
            lemma_read_annotations_none(ls, i + 1, language, st2);
        }
    }
}

/// A test script never expects both compile errors and a runtime error: it
/// is no test (`None`) exactly when a line marks it `// nontest`, or when it
/// announces both a compile error and a runtime error.
pub proof fn law_parse_test_outcome(content: Seq<char>, language: Seq<char>)
    ensures
        spec_parse_test(content, language) matches Some(e) ==> !(e.runtime_error is Some
            && e.expected_errors.len() > 0),
        spec_parse_test(content, language) is None <==> nontest_from(lines(content), 0) || (compile_error_from(
            lines(content),
            0,
            language,
        ) && runtime_error_from(lines(content), 0)),
{
    lemma_read_annotations_none(lines(content), 0, language, no_expectations());
}

// ---------------------------------------------------------------------------
// Reading the annotations.
// ---------------------------------------------------------------------------

/// What a test script expects of a run: its output lines (with the source line
/// that announced each), the compile errors as `[N] message` (each once, in the
/// order first announced), the runtime error, and the exit code.
pub struct Expectations {
    pub expected_output: Vec<(usize, String)>,
    pub expected_errors: Vec<String>,
    pub runtime_error: Option<(usize, String)>,
    pub expected_exit_code: i32,
}

pub open spec fn output_view(v: Seq<(usize, String)>) -> Seq<(nat, Seq<char>)> {
    v.map_values(|p: (usize, String)| (p.0 as nat, p.1@))
}

pub open spec fn strings_view(v: Seq<String>) -> Seq<Seq<char>> {
    v.map_values(|s: String| s@)
}

pub open spec fn char_vecs_view(v: Seq<Vec<char>>) -> Seq<Seq<char>> {
    v.map_values(|s: Vec<char>| s@)
}

impl View for Expectations {
    type V = ExpectationsView;

    open spec fn view(&self) -> ExpectationsView {
        ExpectationsView {
            expected_output: output_view(self.expected_output@),
            expected_errors: strings_view(self.expected_errors@),
            runtime_error: match self.runtime_error {
                Some(p) => Some((p.0 as nat, p.1@)),
                None => None,
            },
            expected_exit_code: self.expected_exit_code as int,
        }
    }
}

/// The characters of a string slice.
fn chars(s: &str) -> (r: Vec<char>)
    ensures
        r@ == s@,
{
    str_to_chars(s)
}

/// Appends characters to a character buffer.
fn push_chars(buf: &mut Vec<char>, more: &[char])
    ensures
        final(buf)@ == old(buf)@ + more@,
{
    let mut i: usize = 0;
    while i < more.len()
        invariant
            i <= more@.len(),
            buf@ == old(buf)@ + more@.subrange(0, i as int),
        decreases more@.len() - i,
    {
        buf.push(more[i]);
        i = i + 1;
        assert(buf@ =~= old(buf)@ + more@.subrange(0, i as int));
    }
    assert(more@.subrange(0, more@.len() as int) =~= more@);
}

/// Appends the characters of a string slice to a character buffer.
fn push_str(buf: &mut Vec<char>, more: &str)
    ensures
        final(buf)@ == old(buf)@ + more@,
{
    let c = chars(more);
    push_chars(buf, c.as_slice());
}

fn strip_prefix_chars(s: &[char], p: &[char]) -> (r: Option<Vec<char>>)
    ensures
        match r {
            Some(v) => strip_prefix(s@, p@) == Some(v@),
            None => strip_prefix(s@, p@) is None,
        },
{
    if matches_at(s, p, 0) {
        Some(sub_chars(s, p.len(), s.len()))
    } else {
        None
    }
}

fn split_once_chars(s: &[char], p: &[char]) -> (r: Option<(Vec<char>, Vec<char>)>)
    ensures
        match r {
            Some(v) => split_once(s@, p@) == Some((v.0@, v.1@)),
            None => split_once(s@, p@) is None,
        },
{
    let n = s.len();
    match find_chars(s, p) {
        Some(k) => {
            proof {
                lemma_find(s@, p@);
            }
            Some((sub_chars(s, 0, k), sub_chars(s, k + p.len(), n)))
        },
        None => None,
    }
}

fn extract_after_chars(line: &[char], prefix: &[char]) -> (r: Option<Vec<char>>)
    ensures
        match r {
            Some(v) => spec_extract_after(line@, prefix@) == Some(v@),
            None => spec_extract_after(line@, prefix@) is None,
        },
{
    let n = line.len();
    match find_chars(line, prefix) {
        Some(k) => {
            proof {
                lemma_find(line@, prefix@);
            }
            Some(sub_chars(line, k + prefix.len(), n))
        },
        None => None,
    }
}

/// Returns the text after `prefix` when it appears anywhere in `line`.
pub fn extract_after<'a>(line: &'a str, prefix: &str) -> (r: Option<&'a str>)
    ensures
        match r {
            Some(t) => spec_extract_after(line@, prefix@) == Some(t@),
            None => spec_extract_after(line@, prefix@) is None,
        },
{
    let lc = chars(line);
    let pc = chars(prefix);
    let n = lc.len();
    match find_chars(lc.as_slice(), pc.as_slice()) {
        Some(k) => {
            proof {
                lemma_find(line@, prefix@);
            }
            Some(line.substring_char(k + pc.len(), n))
        },
        None => None,
    }
}

proof fn lemma_digits_value_nonneg(s: Seq<char>)
    requires
        all_digits(s),
    ensures
        digits_value(s) >= 0,
    decreases s.len(),
{
    if s.len() > 0 {
        assert(all_digits(s.drop_last())) by {
            assert forall|i: int| 0 <= i < s.drop_last().len() implies '0' <= #[trigger] s.drop_last()[i]
                && s.drop_last()[i] <= '9' by {
                assert(s.drop_last()[i] == s[i]);
            }
        }
        lemma_digits_value_nonneg(s.drop_last());
        assert(s[s.len() - 1] == s.last());
    }
}

/// A longer string of digits never denotes less than its prefix.
proof fn lemma_digits_value_prefix(s: Seq<char>, k: int)
    requires
        all_digits(s),
        0 <= k <= s.len(),
    ensures
        digits_value(s.subrange(0, k)) <= digits_value(s),
    decreases s.len() - k,
{
    if k < s.len() {
        let t = s.subrange(0, k + 1);
        assert(all_digits(t)) by {
            assert forall|i: int| 0 <= i < t.len() implies '0' <= #[trigger] t[i] && t[i] <= '9' by {
                assert(t[i] == s[i]);
            }
        }
        assert(t.drop_last() =~= s.subrange(0, k));
        assert(all_digits(s.subrange(0, k))) by {
            assert forall|i: int| 0 <= i < k implies '0' <= #[trigger] s.subrange(0, k)[i] && s.subrange(0, k)[i]
                <= '9' by {
                assert(s.subrange(0, k)[i] == s[i]);
            }
        }
        lemma_digits_value_nonneg(s.subrange(0, k));
        assert(t.last() == s[k]);
        lemma_digits_value_prefix(s, k + 1);
    } else {
        assert(s.subrange(0, k) =~= s);
    }
}

/// `usize::from_str` on characters.
fn parse_usize_chars(s: &[char]) -> (r: Option<usize>)
    ensures
        match r {
            Some(v) => parse_usize(s@) == Some(v as nat),
            None => parse_usize(s@) is None,
        },
{
    let n = s.len();
    let start: usize = if n > 0 && s[0] == '+' {
        1
    } else {
        0
    };
    let ghost d = if s@.len() > 0 && s@[0] == '+' {
        s@.drop_first()
    } else {
        s@
    };
    assert(d =~= s@.subrange(start as int, n as int));
    if start == n {
        return None;
    }
    let mut v: usize = 0;
    let mut i: usize = start;
    while i < n
        invariant
            n == s@.len(),
            start <= i <= n,
            d == s@.subrange(start as int, n as int),
            d == (if s@.len() > 0 && s@[0] == '+' {
                s@.drop_first()
            } else {
                s@
            }),
            all_digits(d.subrange(0, i - start)),
            v == digits_value(d.subrange(0, i - start)),
        decreases n - i,
    {
        let c = s[i];
        if !('0' <= c && c <= '9') {
            assert(d[i - start] == c);
            assert(!all_digits(d)) by {
                assert(!('0' <= d[i - start] && d[i - start] <= '9'));
            }
            assert(parse_usize(s@) is None);
            return None;
        }
        let digit = (c as u32 - '0' as u32) as usize;
        let ghost pre = d.subrange(0, i - start);
        let ghost next = d.subrange(0, i + 1 - start);
        assert(next.drop_last() =~= pre);
        assert(next.last() == c);
        assert(all_digits(next)) by {
            assert forall|k: int| 0 <= k < next.len() implies '0' <= #[trigger] next[k] && next[k] <= '9' by {
                if k < pre.len() {
                    assert(next[k] == pre[k]);
                }
            }
        }
        assert(digits_value(next) == v * 10 + digit);
        let m = v.checked_mul(10);
        if m.is_none() {
            proof {
                assert(digits_value(next) > usize::MAX);
                lemma_overflow_propagates(d, i + 1 - start);
            }
            return None;
        }
        let m = m.unwrap();
        let a = m.checked_add(digit);
        if a.is_none() {
            proof {
                assert(digits_value(next) > usize::MAX);
                lemma_overflow_propagates(d, i + 1 - start);
            }
            return None;
        }
        v = a.unwrap();
        i = i + 1;
    }
    assert(d.subrange(0, n - start) =~= d);
    Some(v)
}

/// When a prefix of the digits already denotes too much, so does the whole or
/// a non-digit makes it fail.
proof fn lemma_overflow_propagates(d: Seq<char>, k: int)
    requires
        0 <= k <= d.len(),
        all_digits(d.subrange(0, k)),
        digits_value(d.subrange(0, k)) > usize::MAX,
    ensures
        !all_digits(d) || digits_value(d) > usize::MAX,
{
    if all_digits(d) {
        lemma_digits_value_prefix(d, k);
    }
}

fn trimmed_sub(s: &[char], from: usize, to: usize) -> (r: Vec<char>)
    requires
        from <= to <= s@.len(),
    ensures
        r@ == trim(s@.subrange(from as int, to as int)),
{
    let t = sub_chars(s, from, to);
    trim_chars(t.as_slice())
}

fn trimmed_start_sub(s: &[char], from: usize, to: usize) -> (r: Vec<char>)
    requires
        from <= to <= s@.len(),
    ensures
        r@ == trim_start(s@.subrange(from as int, to as int)),
{
    let t = sub_chars(s, from, to);
    trim_start_chars(t.as_slice())
}

/// The number and message after a `line N]` part, as both parsers share it.
fn number_and_message(after_tag: &[char]) -> (r: Option<(usize, Vec<char>)>)
    ensures
        match r {
            Some(p) => match find(after_tag@, "]"@) {
                Some(close) => parse_usize(trim(after_tag@.subrange(0, close))) == Some(p.0 as nat) && p.1@
                    == trim_start(after_tag@.subrange(close + 1, after_tag@.len() as int)) && starts_with(
                    p.1@,
                    "Error"@,
                ),
                None => false,
            },
            None => match find(after_tag@, "]"@) {
                Some(close) => match parse_usize(trim(after_tag@.subrange(0, close))) {
                    Some(_) => !starts_with(
                        trim_start(after_tag@.subrange(close + 1, after_tag@.len() as int)),
                        "Error"@,
                    ),
                    None => true,
                },
                None => true,
            },
        },
{
    let n = after_tag.len();
    let close_lit = chars("]");
    let close = match find_chars(after_tag, close_lit.as_slice()) {
        Some(c) => c,
        None => {
            return None;
        },
    };
    proof {
        reveal_strlit("]");
        lemma_find(after_tag@, close_lit@);
    }
    let num_text = trimmed_sub(after_tag, 0, close);
    let number = match parse_usize_chars(num_text.as_slice()) {
        Some(n) => n,
        None => {
            return None;
        },
    };
    let message = trimmed_start_sub(after_tag, close + 1, n);
    let error_lit = chars("Error");
    if !matches_at(message.as_slice(), error_lit.as_slice(), 0) {
        return None;
    }
    Some((number, message))
}

fn parse_bracket_error_chars(line: &[char], language: &[char]) -> (r: Option<(usize, Vec<char>)>)
    ensures
        match r {
            Some(p) => spec_parse_bracket_error(line@, language@) == Some((p.0 as nat, p.1@)),
            None => spec_parse_bracket_error(line@, language@) is None,
        },
{
    let open = chars("// [");
    let rest = match strip_prefix_chars(line, open.as_slice()) {
        Some(r) => r,
        None => {
            return None;
        },
    };
    let line_lit = chars("line ");
    let (tag0, after_tag) = match split_once_chars(rest.as_slice(), line_lit.as_slice()) {
        Some(p) => p,
        None => {
            return None;
        },
    };
    let tag = trim_chars(tag0.as_slice());
    if tag.len() != 0 && !chars_eq(tag.as_slice(), language) {
        return None;
    }
    number_and_message(after_tag.as_slice())
}

/// Parses a `// [line N] Error ...` annotation, honoring an optional
/// language tag such as `// [c line N]` or `// [java line N]`.
pub fn parse_bracket_error(line: &str, language: &str) -> (r: Option<(usize, String)>)
    ensures
        match r {
            Some(p) => spec_parse_bracket_error(line@, language@) == Some((p.0 as nat, p.1@)),
            None => spec_parse_bracket_error(line@, language@) is None,
        },
{
    let l = chars(line);
    let g = chars(language);
    match parse_bracket_error_chars(l.as_slice(), g.as_slice()) {
        Some((n, m)) => Some((n, chars_to_string(m.as_slice()))),
        None => None,
    }
}

fn parse_error_line_chars(line: &[char]) -> (r: Option<(usize, Vec<char>)>)
    ensures
        match r {
            Some(p) => spec_parse_error_line(line@) == Some((p.0 as nat, p.1@)),
            None => spec_parse_error_line(line@) is None,
        },
{
    let trimmed = trim_start_chars(line);
    let open = chars("[");
    let rest = match strip_prefix_chars(trimmed.as_slice(), open.as_slice()) {
        Some(r) => r,
        None => {
            return None;
        },
    };
    let line_lit = chars("line ");
    let (_tag, after_tag) = match split_once_chars(rest.as_slice(), line_lit.as_slice()) {
        Some(p) => p,
        None => {
            return None;
        },
    };
    number_and_message(after_tag.as_slice())
}

/// Parses an interpreter stderr line like `[line N] Error <message>` or
/// `[line N] Error: <message>` into `(line, message)`.
pub fn parse_error_line(line: &str) -> (r: Option<(usize, String)>)
    ensures
        match r {
            Some(p) => spec_parse_error_line(line@) == Some((p.0 as nat, p.1@)),
            None => spec_parse_error_line(line@) is None,
        },
{
    let l = chars(line);
    match parse_error_line_chars(l.as_slice()) {
        Some((n, m)) => Some((n, chars_to_string(m.as_slice()))),
        None => None,
    }
}

fn error_key_chars(number: usize, message: &[char]) -> (r: Vec<char>)
    ensures
        r@ == error_key(number as nat, message@),
{
    let mut v: Vec<char> = Vec::new();
    push_str(&mut v, "[");
    let d = usize_to_chars(number);
    push_chars(&mut v, d.as_slice());
    push_str(&mut v, "] ");
    push_chars(&mut v, message);
    v
}

/// Adds `key` to a list of distinct strings unless it is already there.
fn insert_unique_exec(v: &mut Vec<String>, key: String)
    ensures
        strings_view(final(v)@) == insert_unique(strings_view(old(v)@), key@),
{
    let mut i: usize = 0;
    while i < v.len()
        invariant
            v@ == old(v)@,
            i <= v@.len(),
            forall|k: int| 0 <= k < i ==> v@[k]@ != key@,
        decreases v@.len() - i,
    {
        if v[i] == key {
            assert(strings_view(v@)[i as int] == key@);
            return;
        }
        i = i + 1;
    }
    proof {
        assert(!strings_view(v@).contains(key@)) by {
            if strings_view(v@).contains(key@) {
                let k = choose|k: int| 0 <= k < strings_view(v@).len() && strings_view(v@)[k] == key@;
                assert(v@[k]@ == key@);
            }
        }
    }
    let ghost before = v@;
    v.push(key);
    assert(strings_view(v@) =~= strings_view(before).push(key@));
}

/// Reads one annotation line into the expectations; `false` when the script is
/// marked as not a test.
fn read_annotation_exec(raw: &[char], line_num: usize, language: &[char], st: &mut Expectations) -> (keep: bool)
    ensures
        keep ==> read_annotation(raw@, line_num as nat, language@, old(st)@) == Some(final(st)@),
        !keep ==> read_annotation(raw@, line_num as nat, language@, old(st)@) is None,
{
    let line = trim_start_chars(raw);
    let nontest = chars("// nontest");
    if find_chars(line.as_slice(), nontest.as_slice()).is_some() {
        return false;
    }
    let rt = chars("// expect runtime error:");
    match extract_after_chars(line.as_slice(), rt.as_slice()) {
        Some(text) => {
            let t = trim_start_chars(text.as_slice());
            if t.len() != 0 {
                st.runtime_error = Some((line_num, chars_to_string(t.as_slice())));
                st.expected_exit_code = 70;
            }
            return true;
        },
        None => {},
    }
    let ex = chars("// expect:");
    match extract_after_chars(line.as_slice(), ex.as_slice()) {
        Some(text) => {
            let space = chars(" ");
            let t = match strip_prefix_chars(text.as_slice(), space.as_slice()) {
                Some(t) => t,
                None => text,
            };
            let ghost before = st.expected_output@;
            st.expected_output.push((line_num, chars_to_string(t.as_slice())));
            assert(output_view(st.expected_output@) =~= output_view(before).push((line_num as nat, t@)));
            return true;
        },
        None => {},
    }
    match parse_bracket_error_chars(line.as_slice(), language) {
        Some((number, message)) => {
            let key = error_key_chars(number, message.as_slice());
            insert_unique_exec(&mut st.expected_errors, chars_to_string(key.as_slice()));
            st.expected_exit_code = 65;
            return true;
        },
        None => {},
    }
    let err = chars("// Error");
    let n = line.len();
    match find_chars(line.as_slice(), err.as_slice()) {
        Some(pos) => {
            proof {
                reveal_strlit("// Error");
                lemma_find(line@, err@);
            }
            let message = trimmed_start_sub(line.as_slice(), pos + 3, n);
            let key = error_key_chars(line_num, message.as_slice());
            insert_unique_exec(&mut st.expected_errors, chars_to_string(key.as_slice()));
            st.expected_exit_code = 65;
            true
        },
        None => true,
    }
}

/// Reads the annotations of a test script: `None` when the script is not a
/// test (marked `// nontest`, or expecting both compile errors and a runtime
/// error).
pub fn parse_test(content: &str, language: &str) -> (r: Option<Expectations>)
    ensures
        match r {
            Some(e) => spec_parse_test(content@, language@) == Some(e@),
            None => spec_parse_test(content@, language@) is None,
        },
{
    let text = chars(content);
    let lang = chars(language);
    let ls = lines_chars(text.as_slice());
    let ghost lsv = lines(content@);
    let mut st = Expectations {
        expected_output: Vec::new(),
        expected_errors: Vec::new(),
        runtime_error: None,
        expected_exit_code: 0,
    };
    assert(st@ =~= no_expectations()) by {
        assert(output_view(st.expected_output@) =~= Seq::<(nat, Seq<char>)>::empty());
        assert(strings_view(st.expected_errors@) =~= Seq::<Seq<char>>::empty());
    }
    let mut i: usize = 0;
    while i < ls.len()
        invariant
            char_vecs_view(ls@) == lsv,
            lang@ == language@,
            i <= ls@.len(),
            spec_parse_test(content@, language@) == read_annotations(lsv, i as int, language@, st@),
        decreases ls@.len() - i,
    {
        assert(ls@[i as int]@ == lsv[i as int]);
        let ghost st0 = st@;
        let keep = read_annotation_exec(ls[i].as_slice(), i + 1, lang.as_slice(), &mut st);
        if !keep {
            return None;
        }
        assert(read_annotation(lsv[i as int], (i + 1) as nat, language@, st0) == Some(st@));
        assert(read_annotations(lsv, i as int, language@, st0) == read_annotations(lsv, i + 1, language@, st@));
        i = i + 1;
    }
    if st.expected_errors.len() != 0 && st.runtime_error.is_some() {
        return None;
    }
    Some(st)
}


// ---------------------------------------------------------------------------
// Judging a run: spec.
// ---------------------------------------------------------------------------

/// The decimal rendering of a signed number.
pub open spec fn int_decimal(i: int) -> Seq<char> {
    if i < 0 {
        "-"@ + decimal((-i) as nat)
    } else {
        decimal(i as nat)
    }
}

pub open spec fn indented(line: Seq<char>) -> Seq<char> {
    "    "@ + line
}

/// The first stderr line from index `i` on that reports `expected_msg` inline
/// (`[line N] Error: <msg>`), and its line number.
pub open spec fn inline_report(ls: Seq<Seq<char>>, i: int, expected_msg: Seq<char>) -> Option<nat>
    decreases ls.len() - i,
{
    if i < 0 || i >= ls.len() {
        None
    } else {
        match spec_parse_error_line(ls[i]) {
            Some((number, message)) => match strip_prefix(message, "Error:"@) {
                Some(m) => if trim(m) == expected_msg {
                    Some(number)
                } else {
                    inline_report(ls, i + 1, expected_msg)
                },
                None => inline_report(ls, i + 1, expected_msg),
            },
            None => inline_report(ls, i + 1, expected_msg),
        }
    }
}

pub open spec fn msg_wrong_line(expected_line: nat, number: nat) -> Seq<char> {
    "Expected runtime error on line "@ + decimal(expected_line) + " but was reported on line "@ + decimal(number)
        + "."@
}

pub open spec fn msg_no_frame(expected_line: nat) -> Seq<char> {
    "Expected runtime error on line "@ + decimal(expected_line) + " but no stack frame references that line."@
}

pub open spec fn msg_wrong_error(expected_msg: Seq<char>) -> Seq<char> {
    "Expected runtime error '"@ + expected_msg + "' but got:"@
}

pub open spec fn frame_marker(expected_line: nat) -> Seq<char> {
    "[line "@ + decimal(expected_line) + "]"@
}

/// The failures when a runtime error was expected.
pub open spec fn runtime_failures(ls: Seq<Seq<char>>, expected_line: nat, expected_msg: Seq<char>) -> Seq<Seq<char>> {
    match inline_report(ls, 0, expected_msg) {
        Some(number) => if number != expected_line {
            seq![msg_wrong_line(expected_line, number)]
        } else {
            Seq::empty()
        },
        None => if ls.len() > 0 && trim(ls[0]) == expected_msg {
            if !(exists|k: int| 0 <= k < ls.len() && contains(#[trigger] ls[k], frame_marker(expected_line))) {
                seq![msg_no_frame(expected_line)]
            } else {
                Seq::empty()
            }
        } else {
            seq![msg_wrong_error(expected_msg)] + ls.map_values(|l: Seq<char>| indented(l))
        },
    }
}

pub open spec fn msg_unexpected_error(line: Seq<char>) -> Seq<char> {
    "Unexpected error: "@ + line
}

pub open spec fn msg_unexpected_output(line: Seq<char>) -> Seq<char> {
    "Unexpected output on stderr: "@ + line
}

pub open spec fn msg_missing_error(e: Seq<char>) -> Seq<char> {
    "Missing expected error: "@ + e
}

/// Going through the first `n` stderr lines when compile errors were
/// expected: the expected errors seen, and the complaints (at most ten).
pub open spec fn scan_stderr(ls: Seq<Seq<char>>, n: int, expected: Seq<Seq<char>>) -> (Set<Seq<char>>, Seq<Seq<char>>)
    decreases n,
{
    if n <= 0 {
        (Set::empty(), Seq::empty())
    } else {
        let (found, unexpected) = scan_stderr(ls, n - 1, expected);
        let line = ls[n - 1];
        if trim(line).len() == 0 {
            (found, unexpected)
        } else {
            match spec_parse_error_line(line) {
                Some((number, message)) => {
                    let e = error_key(number, message);
                    if expected.contains(e) {
                        (found.insert(e), unexpected)
                    } else if unexpected.len() < 10 {
                        (found, unexpected.push(msg_unexpected_error(line)))
                    } else {
                        (found, unexpected)
                    }
                },
                None => if unexpected.len() < 10 {
                    (found, unexpected.push(msg_unexpected_output(line)))
                } else {
                    (found, unexpected)
                },
            }
        }
    }
}

/// The complaints about the first `n` expected errors that were not seen.
pub open spec fn missing_errors(expected: Seq<Seq<char>>, found: Set<Seq<char>>, n: int) -> Seq<Seq<char>>
    decreases n,
{
    if n <= 0 {
        Seq::empty()
    } else if found.contains(expected[n - 1]) {
        missing_errors(expected, found, n - 1)
    } else {
        missing_errors(expected, found, n - 1).push(msg_missing_error(expected[n - 1]))
    }
}

/// The failures about the stderr of a run.
pub open spec fn error_failures(stderr: Seq<char>, e: ExpectationsView) -> Seq<Seq<char>> {
    let ls = lines(stderr);
    match e.runtime_error {
        Some((expected_line, expected_msg)) => runtime_failures(ls, expected_line, expected_msg),
        None => {
            let (found, unexpected) = scan_stderr(ls, ls.len() as int, e.expected_errors);
            unexpected + missing_errors(e.expected_errors, found, e.expected_errors.len() as int)
        },
    }
}

pub open spec fn msg_abnormal(expected: int) -> Seq<char> {
    "Expected exit code "@ + int_decimal(expected) + " but the interpreter terminated abnormally (signal/abort)."@
}

pub open spec fn msg_wrong_code(expected: int, code: int) -> Seq<char> {
    "Expected exit code "@ + int_decimal(expected) + " but got "@ + int_decimal(code) + ". Stderr:"@
}

/// The failures about the exit code of a run (`None`: killed by a signal).
pub open spec fn exit_code_failures(code: Option<int>, stderr: Seq<char>, e: ExpectationsView) -> Seq<Seq<char>> {
    match code {
        None => seq![msg_abnormal(e.expected_exit_code)],
        Some(c) => if c != e.expected_exit_code {
            let ls = lines(stderr);
            let shown = if ls.len() > 10 {
                ls.subrange(0, 10)
            } else {
                ls
            };
            seq![msg_wrong_code(e.expected_exit_code, c)] + shown.map_values(|l: Seq<char>| indented(l))
        } else {
            Seq::empty()
        },
    }
}

/// The output lines of a run: its lines, without a last empty one.
pub open spec fn output_lines(stdout: Seq<char>) -> Seq<Seq<char>> {
    let ls = lines(stdout);
    if ls.len() > 0 && ls.last() == Seq::<char>::empty() {
        ls.drop_last()
    } else {
        ls
    }
}

pub open spec fn msg_wrong_output(expected: Seq<char>, source_line: nat, got: Seq<char>) -> Seq<char> {
    "Expected output '"@ + expected + "' (from source line "@ + decimal(source_line) + ") but got '"@ + got
        + "'."@
}

pub open spec fn msg_extra_output(got: Seq<char>) -> Seq<char> {
    "Got output '"@ + got + "' when none was expected."@
}

pub open spec fn msg_missing_output(expected: Seq<char>, source_line: nat) -> Seq<char> {
    "Missing expected output '"@ + expected + "' (from source line "@ + decimal(source_line) + ")."@
}

/// The complaints about the first `n` output lines.
pub open spec fn compare_output(out: Seq<Seq<char>>, expected: Seq<(nat, Seq<char>)>, n: int) -> Seq<Seq<char>>
    decreases n,
{
    if n <= 0 {
        Seq::empty()
    } else {
        let prev = compare_output(out, expected, n - 1);
        let line = out[n - 1];
        if n - 1 < expected.len() {
            let (source_line, text) = expected[n - 1];
            if text != line {
                prev.push(msg_wrong_output(text, source_line, line))
            } else {
                prev
            }
        } else {
            prev.push(msg_extra_output(line))
        }
    }
}

/// The complaints about expected lines from index `from` up to `n` that never came.
pub open spec fn missing_output(expected: Seq<(nat, Seq<char>)>, from: int, n: int) -> Seq<Seq<char>>
    decreases n - from,
{
    if n <= from {
        Seq::empty()
    } else {
        missing_output(expected, from, n - 1).push(msg_missing_output(expected[n - 1].1, expected[n - 1].0))
    }
}

/// The failures about the stdout of a run.
pub open spec fn output_failures(stdout: Seq<char>, e: ExpectationsView) -> Seq<Seq<char>> {
    let out = output_lines(stdout);
    compare_output(out, e.expected_output, out.len() as int) + missing_output(
        e.expected_output,
        out.len() as int,
        e.expected_output.len() as int,
    )
}


// ---------------------------------------------------------------------------
// Judging a run.
// ---------------------------------------------------------------------------

/// The decimal rendering of a signed number, as characters.
fn i32_to_chars(i: i32) -> (r: Vec<char>)
    ensures
        r@ == int_decimal(i as int),
{
    if i < 0 {
        let mut v = chars("-");
        let magnitude = (0i64 - (i as i64)) as u64 as usize;
        let d = usize_to_chars(magnitude);
        push_chars(&mut v, d.as_slice());
        v
    } else {
        usize_to_chars(i as u32 as usize)
    }
}

fn push_failure(failures: &mut Vec<String>, msg: &[char])
    ensures
        strings_view(final(failures)@) == strings_view(old(failures)@).push(msg@),
{
    let s = chars_to_string(msg);
    failures.push(s);
    assert(strings_view(failures@) =~= strings_view(old(failures)@).push(msg@));
}

fn indented_chars(line: &[char]) -> (r: Vec<char>)
    ensures
        r@ == indented(line@),
{
    let mut v = chars("    ");
    push_chars(&mut v, line);
    v
}

/// The first stderr line from index `i` on that reports the expected runtime
/// error inline, and its line number.
fn inline_report_exec(ls: &Vec<Vec<char>>, expected_msg: &[char]) -> (r: Option<usize>)
    ensures
        match r {
            Some(n) => inline_report(char_vecs_view(ls@), 0, expected_msg@) == Some(n as nat),
            None => inline_report(char_vecs_view(ls@), 0, expected_msg@) is None,
        },
{
    let ghost lsv = char_vecs_view(ls@);
    let prefix = chars("Error:");
    let mut i: usize = 0;
    while i < ls.len()
        invariant
            lsv == char_vecs_view(ls@),
            i <= ls@.len(),
            prefix@ == "Error:"@,
            inline_report(lsv, 0, expected_msg@) == inline_report(lsv, i as int, expected_msg@),
        decreases ls@.len() - i,
    {
        assert(ls@[i as int]@ == lsv[i as int]);
        match parse_error_line_chars(ls[i].as_slice()) {
            Some((number, message)) => {
                match strip_prefix_chars(message.as_slice(), prefix.as_slice()) {
                    Some(m) => {
                        let t = trim_chars(m.as_slice());
                        if chars_eq(t.as_slice(), expected_msg) {
                            return Some(number);
                        }
                    },
                    None => {},
                }
            },
            None => {},
        }
        i = i + 1;
    }
    None
}

/// Whether some stderr line mentions the given marker.
fn any_line_contains(ls: &Vec<Vec<char>>, marker: &[char]) -> (r: bool)
    ensures
        r == (exists|k: int| 0 <= k < ls@.len() && contains(#[trigger] char_vecs_view(ls@)[k], marker@)),
{
    let ghost lsv = char_vecs_view(ls@);
    let mut i: usize = 0;
    while i < ls.len()
        invariant
            lsv == char_vecs_view(ls@),
            i <= ls@.len(),
            forall|k: int| 0 <= k < i ==> !contains(#[trigger] lsv[k], marker@),
        decreases ls@.len() - i,
    {
        assert(ls@[i as int]@ == lsv[i as int]);
        if find_chars(ls[i].as_slice(), marker).is_some() {
            return true;
        }
        i = i + 1;
    }
    false
}

/// Appends the indented lines `ls[0..n]` to the failures.
fn push_indented_lines(failures: &mut Vec<String>, ls: &Vec<Vec<char>>, n: usize)
    requires
        n <= ls@.len(),
    ensures
        strings_view(final(failures)@) == strings_view(old(failures)@) + char_vecs_view(ls@).subrange(
            0,
            n as int,
        ).map_values(|l: Seq<char>| indented(l)),
{
    let ghost lsv = char_vecs_view(ls@);
    let mut i: usize = 0;
    while i < n
        invariant
            lsv == char_vecs_view(ls@),
            i <= n <= ls@.len(),
            strings_view(failures@) == strings_view(old(failures)@) + lsv.subrange(0, i as int).map_values(
                |l: Seq<char>| indented(l),
            ),
        decreases n - i,
    {
        assert(ls@[i as int]@ == lsv[i as int]);
        let line = indented_chars(ls[i].as_slice());
        push_failure(failures, line.as_slice());
        assert(lsv.subrange(0, i + 1).map_values(|l: Seq<char>| indented(l)) =~= lsv.subrange(0, i as int).map_values(
            |l: Seq<char>| indented(l),
        ).push(indented(lsv[i as int])));
        i = i + 1;
    }
}

/// Whether the list of expected errors holds `e`.
fn expects_error(expected: &Vec<String>, e: &[char]) -> (r: bool)
    ensures
        r == strings_view(expected@).contains(e@),
{
    let mut i: usize = 0;
    while i < expected.len()
        invariant
            i <= expected@.len(),
            forall|k: int| 0 <= k < i ==> expected@[k]@ != e@,
        decreases expected@.len() - i,
    {
        let c = chars(expected[i].as_str());
        if chars_eq(c.as_slice(), e) {
            assert(strings_view(expected@)[i as int] == e@);
            return true;
        }
        i = i + 1;
    }
    proof {
        if strings_view(expected@).contains(e@) {
            let k = choose|k: int| 0 <= k < strings_view(expected@).len() && strings_view(expected@)[k] == e@;
            assert(expected@[k]@ == e@);
        }
    }
    false
}

/// Compares the stderr of a run with the errors the script expects, adding
/// a line to `failures` for each mismatch.
pub fn validate_errors(failures: &mut Vec<String>, stderr: &str, expectations: &Expectations)
    ensures
        strings_view(final(failures)@) == strings_view(old(failures)@) + error_failures(stderr@, expectations@),
{
    let text = chars(stderr);
    let ls = lines_chars(text.as_slice());
    let ghost lsv = lines(stderr@);
    assert(char_vecs_view(ls@) == lsv);
    match &expectations.runtime_error {
        Some((expected_line, expected_msg)) => {
            let msg = chars(expected_msg.as_str());
            let inline = inline_report_exec(&ls, msg.as_slice());
            match inline {
                Some(number) => {
                    if number != *expected_line {
                        let mut m = chars("Expected runtime error on line ");
                        push_chars(&mut m, usize_to_chars(*expected_line).as_slice());
                        push_str(&mut m, " but was reported on line ");
                        push_chars(&mut m, usize_to_chars(number).as_slice());
                        push_str(&mut m, ".");
                        push_failure(failures, m.as_slice());
                    } else {
                        assert(strings_view(failures@) =~= strings_view(old(failures)@) + Seq::<Seq<char>>::empty());
                    }
                },
                None => {
                    let bare = ls.len() > 0 && {
                        let first = trim_chars(ls[0].as_slice());
                        chars_eq(first.as_slice(), msg.as_slice())
                    };
                    if bare {
                        let mut marker = chars("[line ");
                        push_chars(&mut marker, usize_to_chars(*expected_line).as_slice());
                        push_str(&mut marker, "]");
                        if !any_line_contains(&ls, marker.as_slice()) {
                            let mut m = chars("Expected runtime error on line ");
                            push_chars(&mut m, usize_to_chars(*expected_line).as_slice());
                            push_str(&mut m, " but no stack frame references that line.");
                            push_failure(failures, m.as_slice());
                        } else {
                            assert(strings_view(failures@) =~= strings_view(old(failures)@) + Seq::<
                                Seq<char>,
                            >::empty());
                        }
                    } else {
                        let mut m = chars("Expected runtime error '");
                        push_chars(&mut m, msg.as_slice());
                        push_str(&mut m, "' but got:");
                        push_failure(failures, m.as_slice());
                        let ghost mid = strings_view(failures@);
                        push_indented_lines(failures, &ls, ls.len());
                        assert(lsv.subrange(0, lsv.len() as int) =~= lsv);
                        assert(strings_view(failures@) =~= strings_view(old(failures)@) + (seq![
                            msg_wrong_error(expected_msg@),
                        ] + lsv.map_values(|l: Seq<char>| indented(l))));
                    }
                },
            }
            return ;
        },
        None => {},
    }
    let ghost expected = strings_view(expectations.expected_errors@);
    let ghost mut found: Set<Seq<char>> = Set::empty();
    let mut found_flags: Vec<bool> = Vec::new();
    let mut k: usize = 0;
    while k < expectations.expected_errors.len()
        invariant
            k <= expectations.expected_errors@.len(),
            found_flags@.len() == k,
            forall|j: int| 0 <= j < k ==> !found_flags@[j],
        decreases expectations.expected_errors@.len() - k,
    {
        found_flags.push(false);
        k = k + 1;
    }
    let mut unexpected: Vec<String> = Vec::new();
    let mut i: usize = 0;
    while i < ls.len()
        invariant
            lsv == char_vecs_view(ls@),
            expected == strings_view(expectations.expected_errors@),
            i <= ls@.len(),
            found_flags@.len() == expected.len(),
            (found, strings_view(unexpected@)) == scan_stderr(lsv, i as int, expected),
            forall|j: int| 0 <= j < expected.len() ==> found_flags@[j] == found.contains(#[trigger] expected[j]),
        decreases ls@.len() - i,
    {
        assert(ls@[i as int]@ == lsv[i as int]);
        let t = trim_chars(ls[i].as_slice());
        if t.len() == 0 {
            i = i + 1;
            continue;
        }
        match parse_error_line_chars(ls[i].as_slice()) {
            Some((number, message)) => {
                let e = error_key_chars(number, message.as_slice());
                if expects_error(&expectations.expected_errors, e.as_slice()) {
                    let ghost old_found = found;
                    proof {
                        found = found.insert(e@);
                    }
                    let mut j: usize = 0;
                    while j < found_flags.len()
                        invariant
                            expected == strings_view(expectations.expected_errors@),
                            found_flags@.len() == expected.len(),
                            found == old_found.insert(e@),
                            j <= found_flags@.len(),
                            forall|m: int|
                                0 <= m < j ==> found_flags@[m] == found.contains(#[trigger] expected[m]),
                            forall|m: int|
                                j <= m < expected.len() ==> found_flags@[m] == old_found.contains(
                                    #[trigger] expected[m],
                                ),
                        decreases found_flags@.len() - j,
                    {
                        assert(expected[j as int] == expectations.expected_errors@[j as int]@);
                        let c = chars(expectations.expected_errors[j].as_str());
                        if chars_eq(c.as_slice(), e.as_slice()) {
                            found_flags.set(j, true);
                        }
                        j = j + 1;
                    }
                } else if unexpected.len() < 10 {
                    let mut m = chars("Unexpected error: ");
                    push_chars(&mut m, ls[i].as_slice());
                    push_failure(&mut unexpected, m.as_slice());
                }
            },
            None => {
                if unexpected.len() < 10 {
                    let mut m = chars("Unexpected output on stderr: ");
                    push_chars(&mut m, ls[i].as_slice());
                    push_failure(&mut unexpected, m.as_slice());
                }
            },
        }
        i = i + 1;
    }
    let ghost base = strings_view(old(failures)@);
    let mut u: usize = 0;
    while u < unexpected.len()
        invariant
            u <= unexpected@.len(),
            strings_view(failures@) == base + strings_view(unexpected@).subrange(0, u as int),
        decreases unexpected@.len() - u,
    {
        let c = chars(unexpected[u].as_str());
        push_failure(failures, c.as_slice());
        assert(strings_view(unexpected@).subrange(0, u + 1) =~= strings_view(unexpected@).subrange(
            0,
            u as int,
        ).push(unexpected@[u as int]@));
        u = u + 1;
    }
    assert(strings_view(unexpected@).subrange(0, u as int) =~= strings_view(unexpected@));
    let ghost base2 = strings_view(failures@);
    let mut m: usize = 0;
    while m < expectations.expected_errors.len()
        invariant
            expected == strings_view(expectations.expected_errors@),
            found_flags@.len() == expected.len(),
            forall|j: int| 0 <= j < expected.len() ==> found_flags@[j] == found.contains(#[trigger] expected[j]),
            m <= expected.len(),
            strings_view(failures@) == base2 + missing_errors(expected, found, m as int),
        decreases expected.len() - m,
    {
        assert(expected[m as int] == expectations.expected_errors@[m as int]@);
        if !found_flags[m] {
            let mut msg = chars("Missing expected error: ");
            let c = chars(expectations.expected_errors[m].as_str());
            push_chars(&mut msg, c.as_slice());
            push_failure(failures, msg.as_slice());
        }
        m = m + 1;
    }
}

/// Compares the exit code of a run (`None` when it was killed by a signal)
/// with the one the script expects, adding the complaints to `failures`.
pub fn validate_exit_code(failures: &mut Vec<String>, code: Option<i32>, stderr: &str, expectations: &Expectations)
    ensures
        strings_view(final(failures)@) == strings_view(old(failures)@) + exit_code_failures(
            match code {
                Some(c) => Some(c as int),
                None => None,
            },
            stderr@,
            expectations@,
        ),
{
    match code {
        None => {
            let mut m = chars("Expected exit code ");
            push_chars(&mut m, i32_to_chars(expectations.expected_exit_code).as_slice());
            push_str(&mut m, " but the interpreter terminated abnormally (signal/abort).");
            push_failure(failures, m.as_slice());
        },
        Some(c) => {
            if c != expectations.expected_exit_code {
                let mut m = chars("Expected exit code ");
                push_chars(&mut m, i32_to_chars(expectations.expected_exit_code).as_slice());
                push_str(&mut m, " but got ");
                push_chars(&mut m, i32_to_chars(c).as_slice());
                push_str(&mut m, ". Stderr:");
                push_failure(failures, m.as_slice());
                let text = chars(stderr);
                let ls = lines_chars(text.as_slice());
                let ghost lsv = lines(stderr@);
                let n = if ls.len() > 10 {
                    10
                } else {
                    ls.len()
                };
                push_indented_lines(failures, &ls, n);
                proof {
                    let shown = if lsv.len() > 10 {
                        lsv.subrange(0, 10)
                    } else {
                        lsv
                    };
                    assert(lsv.subrange(0, n as int) =~= shown);
                }
                assert(strings_view(failures@) =~= strings_view(old(failures)@) + exit_code_failures(
                    Some(c as int),
                    stderr@,
                    expectations@,
                ));
            } else {
                assert(strings_view(failures@) =~= strings_view(old(failures)@) + Seq::<Seq<char>>::empty());
            }
        },
    }
}

/// Compares the stdout of a run with the output the script expects, adding
/// a line to `failures` for each mismatch.
pub fn validate_output(failures: &mut Vec<String>, stdout: &str, expectations: &Expectations)
    ensures
        strings_view(final(failures)@) == strings_view(old(failures)@) + output_failures(stdout@, expectations@),
{
    let text = chars(stdout);
    let mut out = lines_chars(text.as_slice());
    let ghost ls = lines(stdout@);
    if out.len() > 0 && out[out.len() - 1].len() == 0 {
        let ghost before = out@;
        out.pop();
        assert(char_vecs_view(out@) =~= ls.drop_last());
        assert(ls.last() =~= Seq::<char>::empty());
    }
    let ghost outv = output_lines(stdout@);
    assert(char_vecs_view(out@) == outv);
    let ghost expv = output_view(expectations.expected_output@);
    let ghost base = strings_view(old(failures)@);
    let mut i: usize = 0;
    while i < out.len()
        invariant
            outv == char_vecs_view(out@),
            expv == output_view(expectations.expected_output@),
            i <= out@.len(),
            strings_view(failures@) == base + compare_output(outv, expv, i as int),
        decreases out@.len() - i,
    {
        assert(out@[i as int]@ == outv[i as int]);
        if i < expectations.expected_output.len() {
            let (source_line, expected_text) = &expectations.expected_output[i];
            assert(expv[i as int] == (*source_line as nat, expected_text@));
            let exp = chars(expected_text.as_str());
            if !chars_eq(exp.as_slice(), out[i].as_slice()) {
                let mut m = chars("Expected output '");
                push_chars(&mut m, exp.as_slice());
                push_str(&mut m, "' (from source line ");
                push_chars(&mut m, usize_to_chars(*source_line).as_slice());
                push_str(&mut m, ") but got '");
                push_chars(&mut m, out[i].as_slice());
                push_str(&mut m, "'.");
                push_failure(failures, m.as_slice());
            }
        } else {
            let mut m = chars("Got output '");
            push_chars(&mut m, out[i].as_slice());
            push_str(&mut m, "' when none was expected.");
            push_failure(failures, m.as_slice());
        }
        i = i + 1;
    }
    let ghost base2 = strings_view(failures@);
    let mut j: usize = out.len();
    while j < expectations.expected_output.len()
        invariant
            expv == output_view(expectations.expected_output@),
            out@.len() <= j,
            j <= expv.len() || j == out@.len(),
            strings_view(failures@) == base2 + missing_output(expv, out@.len() as int, j as int),
        decreases expv.len() - j,
    {
        let (source_line, expected_text) = &expectations.expected_output[j];
        assert(expv[j as int] == (*source_line as nat, expected_text@));
        let mut m = chars("Missing expected output '");
        push_str(&mut m, expected_text.as_str());
        push_str(&mut m, "' (from source line ");
        push_chars(&mut m, usize_to_chars(*source_line).as_slice());
        push_str(&mut m, ").");
        push_failure(failures, m.as_slice());
        j = j + 1;
    }
    proof {
        if out@.len() > expv.len() {
            assert(missing_output(expv, out@.len() as int, expv.len() as int) =~= Seq::<Seq<char>>::empty());
            assert(strings_view(failures@) =~= base2 + Seq::<Seq<char>>::empty());
        }
    }
}

// ---------------------------------------------------------------------------
// Laws of judging a run.
// ---------------------------------------------------------------------------

/// The texts of the expected output lines.
pub open spec fn expected_texts(expected: Seq<(nat, Seq<char>)>) -> Seq<Seq<char>> {
    expected.map_values(|p: (nat, Seq<char>)| p.1)
}

spec fn line_ok(out: Seq<Seq<char>>, expected: Seq<(nat, Seq<char>)>, k: int) -> bool {
    k < expected.len() && expected[k].1 == out[k]
}

proof fn lemma_compare_output_empty(out: Seq<Seq<char>>, expected: Seq<(nat, Seq<char>)>, n: int)
    requires
        n <= out.len(),
    ensures
        compare_output(out, expected, n).len() == 0 <==> forall|k: int| 0 <= k < n ==> #[trigger] line_ok(out, expected, k),
    decreases n,
{
    if n > 0 {
        lemma_compare_output_empty(out, expected, n - 1);
        let prev = compare_output(out, expected, n - 1);
        assert(compare_output(out, expected, n).len() >= prev.len());
        if forall|k: int| 0 <= k < n ==> #[trigger] line_ok(out, expected, k) {
            assert(line_ok(out, expected, n - 1));
            assert forall|k: int| 0 <= k < n - 1 implies #[trigger] line_ok(out, expected, k) by {
                assert(line_ok(out, expected, k));
            }
        }
        if compare_output(out, expected, n).len() == 0 {
            assert forall|k: int| 0 <= k < n implies #[trigger] line_ok(out, expected, k) by {
                if k < n - 1 {
                    assert(line_ok(out, expected, k));
                }
            }
        }
    }
}

proof fn lemma_missing_output_len(expected: Seq<(nat, Seq<char>)>, from: int, n: int)
    ensures
        missing_output(expected, from, n).len() == if n <= from { 0 } else { n - from },
    decreases n - from,
{
    if n > from {
        lemma_missing_output_len(expected, from, n - 1);
    }
}

/// A run passes the output check exactly when the lines it printed are the
/// expected lines, in order, no more and no fewer.
pub proof fn law_output_passes_iff_equal(stdout: Seq<char>, e: ExpectationsView)
    ensures
        output_failures(stdout, e).len() == 0 <==> output_lines(stdout) == expected_texts(e.expected_output),
{
    let out = output_lines(stdout);
    let ex = e.expected_output;
    lemma_compare_output_empty(out, ex, out.len() as int);
    lemma_missing_output_len(ex, out.len() as int, ex.len() as int);
    if output_failures(stdout, e).len() == 0 {
        assert(out.len() <= ex.len()) by {
            if out.len() > ex.len() {
                assert(line_ok(out, ex, ex.len() as int));
            }
        }
        assert(out =~= expected_texts(ex)) by {
            assert forall|k: int| 0 <= k < out.len() implies out[k] == #[trigger] expected_texts(ex)[k] by {
                assert(line_ok(out, ex, k));
            }
        }
    }
    if out == expected_texts(ex) {
        assert forall|k: int| 0 <= k < out.len() implies #[trigger] line_ok(out, ex, k) by {
            assert(expected_texts(ex)[k] == ex[k].1);
        }
    }
}

/// A run passes the exit-code check exactly when it ended normally with the
/// expected code.
pub proof fn law_exit_code_passes_iff_expected(code: Option<int>, stderr: Seq<char>, e: ExpectationsView)
    ensures
        exit_code_failures(code, stderr, e).len() == 0 <==> code == Some(e.expected_exit_code),
{
}

/// A stderr line that the compile-error check accepts: blank, or an error
/// report that the script announced.
pub open spec fn line_expected(line: Seq<char>, expected: Seq<Seq<char>>) -> bool {
    trim(line).len() == 0 || (spec_parse_error_line(line) matches Some((n, m)) && expected.contains(
        error_key(n, m),
    ))
}

/// Whether a stderr line reports the error `key`.
pub open spec fn reports_key(line: Seq<char>, key: Seq<char>) -> bool {
    trim(line).len() != 0 && match spec_parse_error_line(line) {
        Some((num, m)) => error_key(num, m) == key,
        None => false,
    }
}

/// Whether one of the first `n` stderr lines reports the error `key`.
pub open spec fn reported_in(ls: Seq<Seq<char>>, n: int, key: Seq<char>) -> bool {
    exists|k: int| 0 <= k < n && #[trigger] reports_key(ls[k], key)
}

proof fn lemma_scan_stderr(ls: Seq<Seq<char>>, n: int, expected: Seq<Seq<char>>)
    requires
        n <= ls.len(),
    ensures
        scan_stderr(ls, n, expected).1.len() == 0 <==> forall|k: int| 0 <= k < n ==> #[trigger] line_expected(ls[k], expected),
        forall|x: Seq<char>| #[trigger] scan_stderr(ls, n, expected).0.contains(x) <==> expected.contains(x) && reported_in(ls, n, x),
    decreases n,
{
    if n > 0 {
        lemma_scan_stderr(ls, n - 1, expected);
        let (found, unexpected) = scan_stderr(ls, n - 1, expected);
        let line = ls[n - 1];
        let r = scan_stderr(ls, n, expected);
        assert(r.1.len() >= unexpected.len());
        if r.1.len() == 0 {
            assert(line_expected(line, expected));
            assert forall|k: int| 0 <= k < n implies #[trigger] line_expected(ls[k], expected) by {
                if k < n - 1 {
                    assert(line_expected(ls[k], expected));
                }
            }
        }
        if forall|k: int| 0 <= k < n ==> #[trigger] line_expected(ls[k], expected) {
            assert(line_expected(ls[n - 1], expected));
            assert forall|k: int| 0 <= k < n - 1 implies #[trigger] line_expected(ls[k], expected) by {
                assert(line_expected(ls[k], expected));
            }
        }
        assert forall|x: Seq<char>| #[trigger] r.0.contains(x) <==> expected.contains(x) && reported_in(ls, n, x) by {
            if reported_in(ls, n, x) && !reported_in(ls, n - 1, x) {
                let k = choose|k: int| 0 <= k < n && #[trigger] reports_key(ls[k], x);
                assert(k == n - 1);
            }
            if reported_in(ls, n - 1, x) {
                let k = choose|k: int| 0 <= k < n - 1 && #[trigger] reports_key(ls[k], x);
                assert(0 <= k < n);
            }
            if reports_key(ls[n - 1], x) {
                assert(reported_in(ls, n, x));
            }
        }
    }
}

proof fn lemma_missing_errors(expected: Seq<Seq<char>>, found: Set<Seq<char>>, n: int)
    requires
        n <= expected.len(),
    ensures
        missing_errors(expected, found, n).len() == 0 <==> forall|j: int| 0 <= j < n ==> found.contains(#[trigger] expected[j]),
    decreases n,
{
    if n > 0 {
        lemma_missing_errors(expected, found, n - 1);
        if forall|j: int| 0 <= j < n ==> found.contains(#[trigger] expected[j]) {
            assert(found.contains(expected[n - 1]));
            assert forall|j: int| 0 <= j < n - 1 implies found.contains(#[trigger] expected[j]) by {
                assert(found.contains(expected[j]));
            }
        }
        if missing_errors(expected, found, n).len() == 0 {
            assert forall|j: int| 0 <= j < n implies found.contains(#[trigger] expected[j]) by {
                if j < n - 1 {
                    assert(found.contains(expected[j]));
                }
            }
        }
    }
}

/// Where no runtime error is announced, a run passes the error check
/// exactly when every line it wrote to stderr is blank or reports an
/// announced error, and every announced error is reported.
pub proof fn law_errors_pass_iff_reported(stderr: Seq<char>, e: ExpectationsView)
    requires
        e.runtime_error is None,
    ensures
        error_failures(stderr, e).len() == 0 <==> (forall|k: int|
            0 <= k < lines(stderr).len() ==> #[trigger] line_expected(lines(stderr)[k], e.expected_errors)) && (forall|
            j: int,
        |
            0 <= j < e.expected_errors.len() ==> reported_in(
                lines(stderr),
                lines(stderr).len() as int,
                #[trigger] e.expected_errors[j],
            )),
{
    let ls = lines(stderr);
    lemma_scan_stderr(ls, ls.len() as int, e.expected_errors);
    let (found, unexpected) = scan_stderr(ls, ls.len() as int, e.expected_errors);
    lemma_missing_errors(e.expected_errors, found, e.expected_errors.len() as int);
    assert forall|j: int| 0 <= j < e.expected_errors.len() implies found.contains(#[trigger] e.expected_errors[j])
        == reported_in(ls, ls.len() as int, e.expected_errors[j]) by {
        assert(e.expected_errors.contains(e.expected_errors[j]));
    }
}


/// The complaint about a stderr line that the compile-error check does not
/// accept: an unexpected error where the line reports one, else unexpected
/// output.
pub open spec fn unexpected_complaint(line: Seq<char>) -> Seq<char> {
    if spec_parse_error_line(line) is Some {
        msg_unexpected_error(line)
    } else {
        msg_unexpected_output(line)
    }
}

/// One complaint for each of the first `n` stderr lines that the
/// compile-error check does not accept, in order.
pub open spec fn unexpected_complaints(ls: Seq<Seq<char>>, n: int, expected: Seq<Seq<char>>) -> Seq<Seq<char>>
    decreases n,
{
    if n <= 0 {
        Seq::empty()
    } else if line_expected(ls[n - 1], expected) {
        unexpected_complaints(ls, n - 1, expected)
    } else {
        unexpected_complaints(ls, n - 1, expected).push(unexpected_complaint(ls[n - 1]))
    }
}

/// One complaint for each of the first `n` announced errors that no stderr
/// line reports, in the order announced.
pub open spec fn unreported_complaints(expected: Seq<Seq<char>>, ls: Seq<Seq<char>>, n: int) -> Seq<Seq<char>>
    decreases n,
{
    if n <= 0 {
        Seq::empty()
    } else if reported_in(ls, ls.len() as int, expected[n - 1]) {
        unreported_complaints(expected, ls, n - 1)
    } else {
        unreported_complaints(expected, ls, n - 1).push(msg_missing_error(expected[n - 1]))
    }
}

/// The first ten entries of a sequence (all of them where there are fewer).
pub open spec fn first_ten(s: Seq<Seq<char>>) -> Seq<Seq<char>> {
    if s.len() <= 10 {
        s
    } else {
        s.subrange(0, 10)
    }
}

proof fn lemma_scan_stderr_complaints(ls: Seq<Seq<char>>, n: int, expected: Seq<Seq<char>>)
    requires
        0 <= n <= ls.len(),
    ensures
        scan_stderr(ls, n, expected).1 == first_ten(unexpected_complaints(ls, n, expected)),
    decreases n,
{
    if n > 0 {
        lemma_scan_stderr_complaints(ls, n - 1, expected);
        let u = unexpected_complaints(ls, n - 1, expected);
        let line = ls[n - 1];
        if !line_expected(line, expected) {
            let c = unexpected_complaint(line);
            if u.len() < 10 {
                assert(first_ten(u.push(c)) == u.push(c));
            } else {
                assert(u.push(c).subrange(0, 10) =~= first_ten(u));
            }
        }
    }
}

proof fn lemma_missing_unreported(expected: Seq<Seq<char>>, found: Set<Seq<char>>, ls: Seq<Seq<char>>, n: int)
    requires
        0 <= n <= expected.len(),
        forall|j: int| 0 <= j < expected.len() ==> (found.contains(#[trigger] expected[j]) <==> reported_in(
            ls,
            ls.len() as int,
            expected[j],
        )),
    ensures
        missing_errors(expected, found, n) == unreported_complaints(expected, ls, n),
    decreases n,
{
    if n > 0 {
        assert(found.contains(expected[n - 1]) <==> reported_in(ls, ls.len() as int, expected[n - 1]));
        lemma_missing_unreported(expected, found, ls, n - 1);
    }
}

/// Where no runtime error is announced, the error check complains first
/// about the stderr lines it does not accept (one complaint per line, in
/// order, at most ten), then about each announced error that no line
/// reports, in the order announced.
pub proof fn law_error_complaints(stderr: Seq<char>, e: ExpectationsView)
    requires
        e.runtime_error is None,
    ensures
        error_failures(stderr, e) == first_ten(
            unexpected_complaints(lines(stderr), lines(stderr).len() as int, e.expected_errors),
        ) + unreported_complaints(e.expected_errors, lines(stderr), e.expected_errors.len() as int),
        first_ten(unexpected_complaints(lines(stderr), lines(stderr).len() as int, e.expected_errors)).len() <= 10,
{
    let ls = lines(stderr);
    lemma_scan_stderr(ls, ls.len() as int, e.expected_errors);
    lemma_scan_stderr_complaints(ls, ls.len() as int, e.expected_errors);
    let (found, unexpected) = scan_stderr(ls, ls.len() as int, e.expected_errors);
    assert forall|j: int| 0 <= j < e.expected_errors.len() implies (found.contains(#[trigger] e.expected_errors[j])
        <==> reported_in(ls, ls.len() as int, e.expected_errors[j])) by {
        assert(e.expected_errors.contains(e.expected_errors[j]));
    }
    lemma_missing_unreported(e.expected_errors, found, ls, e.expected_errors.len() as int);
}

/// The complaint about output line `i`, if any: a wrong line, a line that was
/// not expected, or an expected line that never came.
pub open spec fn line_complaint(out: Seq<Seq<char>>, expected: Seq<(nat, Seq<char>)>, i: int) -> Option<Seq<char>> {
    if i < out.len() && i < expected.len() {
        if expected[i].1 != out[i] {
            Some(msg_wrong_output(expected[i].1, expected[i].0, out[i]))
        } else {
            None
        }
    } else if i < out.len() {
        Some(msg_extra_output(out[i]))
    } else if i < expected.len() {
        Some(msg_missing_output(expected[i].1, expected[i].0))
    } else {
        None
    }
}

/// The complaints about the first `n` output lines, one for each line that
/// differs from its expectation, in order.
pub open spec fn line_complaints(out: Seq<Seq<char>>, expected: Seq<(nat, Seq<char>)>, n: int) -> Seq<Seq<char>>
    decreases n,
{
    if n <= 0 {
        Seq::empty()
    } else {
        match line_complaint(out, expected, n - 1) {
            Some(c) => line_complaints(out, expected, n - 1).push(c),
            None => line_complaints(out, expected, n - 1),
        }
    }
}

proof fn lemma_compare_output_complaints(out: Seq<Seq<char>>, expected: Seq<(nat, Seq<char>)>, n: int)
    requires
        0 <= n <= out.len(),
    ensures
        compare_output(out, expected, n) == line_complaints(out, expected, n),
    decreases n,
{
    if n > 0 {
        lemma_compare_output_complaints(out, expected, n - 1);
    }
}

proof fn lemma_missing_output_complaints(out: Seq<Seq<char>>, expected: Seq<(nat, Seq<char>)>, m: int)
    requires
        out.len() <= m <= expected.len(),
    ensures
        line_complaints(out, expected, m) == line_complaints(out, expected, out.len() as int) + missing_output(
            expected,
            out.len() as int,
            m,
        ),
    decreases m,
{
    let l = out.len() as int;
    if m == l {
        assert(line_complaints(out, expected, l) + missing_output(expected, l, m) =~= line_complaints(out, expected, l));
    } else {
        lemma_missing_output_complaints(out, expected, m - 1);
        let a = line_complaints(out, expected, l);
        let b = missing_output(expected, l, m - 1);
        let x = msg_missing_output(expected[m - 1].1, expected[m - 1].0);
        assert((a + b).push(x) =~= a + b.push(x));
    }
}

/// The output check makes one complaint for each line index where the
/// printed line and the expected line differ, where a line was printed that
/// was not expected, or where an expected line never came; in order of the
/// lines.
pub proof fn law_output_complaints(stdout: Seq<char>, e: ExpectationsView)
    ensures
        output_failures(stdout, e) == line_complaints(
            output_lines(stdout),
            e.expected_output,
            if output_lines(stdout).len() >= e.expected_output.len() {
                output_lines(stdout).len() as int
            } else {
                e.expected_output.len() as int
            },
        ),
{
    let out = output_lines(stdout);
    let ex = e.expected_output;
    lemma_compare_output_complaints(out, ex, out.len() as int);
    if out.len() >= ex.len() {
        assert(missing_output(ex, out.len() as int, ex.len() as int) =~= Seq::<Seq<char>>::empty());
        assert(output_failures(stdout, e) =~= compare_output(out, ex, out.len() as int));
    } else {
        lemma_missing_output_complaints(out, ex, ex.len() as int);
    }
}

} // verus!
