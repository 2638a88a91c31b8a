//! Project test harness for `.ae` files under `tests/`: the directive that
//! selects a test's mode, and the verdict of a check test.
use vstd::prelude::*;
use crate::macro_expand::{trim, trim_ws};
use crate::parser::docs::{lemma_nl_index_bounds, nl_index, starts_with, strip_cr};
use crate::text::{chars_of, copy_string, push_str, string_from_range, str_eq};
use crate::types::error::TypeError;

verus! {

/// Test directive parsed from `// @aevia-test: <mode>` near the top of a file.
#[derive(Debug, Clone, PartialEq)]
pub enum TestMode {
    /// File must parse and pass dimensional checking (default).
    Check,
    /// File must fail dimensional checking.
    ExpectError,
    /// File must compile and run; no result assertion.
    Run,
    /// File must run and return the value written here.
    RunEquals(String),
}

/// Outcome of running one test file.
#[derive(Debug)]
pub struct TestResult {
    pub path: String,
    pub passed: bool,
    pub message: String,
}

/// The marker that starts a directive line.
pub open spec fn marker() -> Seq<char> {
    "// @aevia-test:"@
}

/// The directive among the lines of `s` from `pos` on, looking at `left`
/// more lines: the trimmed text after the marker on the first line that,
/// trimmed, starts with the marker.
pub open spec fn directive_from(s: Seq<char>, pos: int, left: nat) -> Option<Seq<char>>
    decreases s.len() + 1 - pos,
{
    if pos < 0 || pos >= s.len() || left == 0 {
        None
    } else {
        let e = nl_index(s, pos);
        proof {
            lemma_nl_index_bounds(s, pos);
        }
        let line = trim_ws(strip_cr(s.subrange(pos, e)));
        if starts_with(line, marker()) {
            Some(trim_ws(line.subrange(marker().len() as int, line.len() as int)))
        } else {
            directive_from(s, e + 1, (left - 1) as nat)
        }
    }
}

/// The directive of a source text, looking at its first 20 lines.
pub open spec fn directive(s: Seq<char>) -> Option<Seq<char>> {
    directive_from(s, 0, 20)
}

/// The mode a directive other than `run-equals <value>` selects: `check`,
/// `error` or `expect-error`, `run`; anything else selects `check`.
pub open spec fn simple_mode(t: Seq<char>) -> TestMode {
    if t == "error"@ || t == "expect-error"@ {
        TestMode::ExpectError
    } else if t == "run"@ {
        TestMode::Run
    } else {
        TestMode::Check
    }
}

/// Whether `m` is the mode a directive selects.
pub open spec fn selects(d: Option<Seq<char>>, m: TestMode) -> bool {
    match d {
        Some(t) => if starts_with(t, "run-equals "@) {
            m matches TestMode::RunEquals(v) && v@ == trim_ws(t.subrange(11, t.len() as int))
        } else {
            m == simple_mode(t)
        },
        None => m == TestMode::Check,
    }
}

/// Whether the text `t` starts with `p`.
fn text_starts_with(t: &Vec<char>, p: &str) -> (r: bool)
    ensures
        r == starts_with(t@, p@),
{
    let pv = chars_of(p);
    if pv.len() > t.len() {
        return false;
    }
    let mut i: usize = 0;
    while i < pv.len()
        invariant
            i <= pv@.len(),
            pv@ == p@,
            pv@.len() <= t@.len(),
            forall|k: int| 0 <= k < i ==> t@[k] == pv@[k],
        decreases pv@.len() - i,
    {
        if t[i] != pv[i] {
            proof {
                assert(t@.subrange(0, p@.len() as int)[i as int] != p@[i as int]);
            }
            return false;
        }
        i = i + 1;
    }
    proof {
        assert(t@.subrange(0, p@.len() as int) =~= p@);
    }
    true
}

/// The mode selected by the `// @aevia-test:` directive of a source text.
pub fn parse_test_mode(source: &str) -> (m: TestMode)
    ensures
        selects(directive(source@), m),
{
    let s = chars_of(source);
    let mut pos: usize = 0;
    let mut left: usize = 20;
    while pos < s.len() && left > 0
        invariant
            pos <= s@.len(),
            s@ == source@,
            directive(s@) == directive_from(s@, pos as int, left as nat),
        decreases s@.len() - pos,
    {
        let mut e = pos;
        while e < s.len() && s[e] != '\n'
            invariant
                pos <= e <= s@.len(),
                nl_index(s@, pos as int) == nl_index(s@, e as int),
            decreases s@.len() - e,
        {
            e = e + 1;
        }
        proof {
            assert(nl_index(s@, e as int) == e);
            lemma_nl_index_bounds(s@, pos as int);
        }
        let mut hi = e;
        if hi > pos && s[hi - 1] == '\r' {
            hi = hi - 1;
        }
        let raw = string_from_range(&s, pos, hi);
        proof {
            assert(raw@ =~= strip_cr(s@.subrange(pos as int, e as int)));
        }
        let line = trim(raw.as_str());
        let lv = chars_of(line.as_str());
        if text_starts_with(&lv, "// @aevia-test:") {
            proof {
                reveal_strlit("// @aevia-test:");
            }
            let rest = string_from_range(&lv, 15, lv.len());
            let d = trim(rest.as_str());
            return mode_from_directive(&d);
        }
        proof {
            assert(lv@ == trim_ws(strip_cr(s@.subrange(pos as int, e as int))));
            assert(directive_from(s@, pos as int, left as nat) == directive_from(s@, e + 1, (left - 1) as nat));
        }
        if e >= s.len() {
            pos = s.len();
        } else {
            pos = e + 1;
        }
        left = left - 1;
    }
    TestMode::Check
}

/// The mode a directive text selects.
fn mode_from_directive(d: &String) -> (m: TestMode)
    ensures
        selects(Some(d@), m),
{
    let dv = chars_of(d.as_str());
    if text_starts_with(&dv, "run-equals ") {
        proof {
            reveal_strlit("run-equals ");
        }
        let rest = string_from_range(&dv, 11, dv.len());
        return TestMode::RunEquals(trim(rest.as_str()));
    }
    if str_eq(d.as_str(), "error") || str_eq(d.as_str(), "expect-error") {
        TestMode::ExpectError
    } else if str_eq(d.as_str(), "run") {
        TestMode::Run
    } else {
        TestMode::Check
    }
}

/// The message of a check test: what happened, or the first error's message.
pub open spec fn verdict_message(expect_fail: bool, errs: Seq<TypeError>) -> Seq<char> {
    let failed = errs.len() > 0;
    if failed == expect_fail {
        if expect_fail { "failed as expected"@ } else { "check passed"@ }
    } else if expect_fail {
        "expected type error but check passed"@
    } else {
        errs[0].message@
    }
}

/// The verdict of a check test on `path` whose checker reported `errors`:
/// it passes when the check failed exactly when failure was expected.
pub fn check_verdict(path: &str, expect_fail: bool, errors: &Vec<TypeError>) -> (r: TestResult)
    ensures
        r.path@ == path@,
        r.passed == ((errors@.len() > 0) == expect_fail),
        r.message@ == verdict_message(expect_fail, errors@),
{
    let failed = errors.len() > 0;
    let passed = failed == expect_fail;
    let mut message = String::new();
    if passed {
        if expect_fail {
            push_str(&mut message, "failed as expected");
        } else {
            push_str(&mut message, "check passed");
        }
    } else if expect_fail {
        push_str(&mut message, "expected type error but check passed");
    } else {
        message = copy_string(&errors[0].message);
    }
    let mut p = String::new();
    push_str(&mut p, path);
    proof {
        assert(message@ =~= verdict_message(expect_fail, errors@));
    }
    TestResult { path: p, passed, message }
}

} // verus!
