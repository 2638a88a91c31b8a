//! What the command-line commands report: their failure messages and the
//! lines they print.
use vstd::prelude::*;
use crate::diagnostics::AeviaError;
use crate::lint::{has_error, lints_view, Lint, LintLevel, LintReport, LintView};
use crate::test_runner::TestResult;
use crate::text::{nat_digits, push_str, push_u64};
use crate::types::error::{code_text, TypeError};

verus! {

/// The displayed texts of type errors, one per line.
pub open spec fn error_lines(errs: Seq<TypeError>) -> Seq<char>
    decreases errs.len(),
{
    if errs.len() == 0 {
        Seq::empty()
    } else if errs.len() == 1 {
        code_text(errs[0].code) + seq![' '] + errs[0].message@
    } else {
        error_lines(errs.drop_last()) + seq!['\n'] + code_text(errs.last().code) + seq![' '] + errs.last().message@
    }
}

/// The error of a file that failed the dimensional check.
pub fn check_failure(path: &str, errors: &Vec<TypeError>) -> (e: AeviaError)
    ensures
        e matches AeviaError::Message(m) && m@ == "type check failed in "@ + path@ + ":\n"@ + error_lines(errors@),
{
    let mut m = String::new();
    push_str(&mut m, "type check failed in ");
    push_str(&mut m, path);
    push_str(&mut m, ":\n");
    let ghost head = m@;
    let mut i: usize = 0;
    while i < errors.len()
        invariant
            i <= errors@.len(),
            m@ == head + error_lines(errors@.subrange(0, i as int)),
        decreases errors@.len() - i,
    {
        let ghost before = m@;
        if i > 0 {
            crate::text::push_char(&mut m, '\n');
        }
        let line = errors[i].display_string();
        push_str(&mut m, line.as_str());
        proof {
            let pre = errors@.subrange(0, i + 1);
            assert(pre.drop_last() =~= errors@.subrange(0, i as int));
            assert(pre.last() == errors@[i as int]);
            if i == 0 {
                assert(m@ =~= head + error_lines(pre));
            } else {
                assert(m@ =~= head + error_lines(pre));
            }
        }
        i = i + 1;
    }
    proof {
        assert(errors@.subrange(0, errors@.len() as int) =~= errors@);
    }
    AeviaError::message(m)
}

/// The number of error-level lints.
pub open spec fn error_count(l: Seq<LintView>) -> nat
    decreases l.len(),
{
    if l.len() == 0 {
        0
    } else {
        error_count(l.drop_last()) + if l.last().0 == LintLevel::Error { 1nat } else { 0nat }
    }
}

proof fn lemma_error_count(l: Seq<LintView>)
    ensures
        error_count(l) <= l.len(),
        error_count(l) > 0 <==> has_error(l),
    decreases l.len(),
{
    if l.len() > 0 {
        lemma_error_count(l.drop_last());
        if has_error(l.drop_last()) {
            let k = choose|k: int| 0 <= k < l.drop_last().len() && (#[trigger] l.drop_last()[k]).0 == LintLevel::Error;
            assert(l[k] == l.drop_last()[k]);
        }
        if has_error(l) && l.last().0 != LintLevel::Error {
            let k = choose|k: int| 0 <= k < l.len() && (#[trigger] l[k]).0 == LintLevel::Error;
            assert(l.drop_last()[k] == l[k]);
        }
        if l.last().0 == LintLevel::Error {
            assert(l[l.len() - 1].0 == LintLevel::Error);
        }
    }
}

/// The outcome of `aevia lint` over the findings in `report`: success when no
/// finding is an error, else the error counting them.
pub fn lint_outcome(report: &LintReport) -> (r: Result<(), AeviaError>)
    ensures
        r is Ok <==> !has_error(lints_view(report.lints@)),
        r matches Err(AeviaError::Message(m)) ==> m@ == "lint failed with "@
            + nat_digits(error_count(lints_view(report.lints@))) + " error(s)"@,
{
    let ghost lv = lints_view(report.lints@);
    let mut n: u64 = 0;
    let mut i: usize = 0;
    while i < report.lints.len()
        invariant
            i <= report.lints@.len(),
            lv == lints_view(report.lints@),
            n == error_count(lv.subrange(0, i as int)),
            n <= i,
        decreases report.lints@.len() - i,
    {
        proof {
            let pre = lv.subrange(0, i + 1);
            assert(pre.drop_last() =~= lv.subrange(0, i as int));
            assert(pre.last() == lv[i as int]);
        }
        if report.lints[i].level == LintLevel::Error {
            n = n + 1;
        }
        i = i + 1;
    }
    proof {
        assert(lv.subrange(0, lv.len() as int) =~= lv);
        lemma_error_count(lv);
    }
    if n == 0 {
        return Ok(());
    }
    let mut m = String::new();
    push_str(&mut m, "lint failed with ");
    push_u64(&mut m, n);
    push_str(&mut m, " error(s)");
    Err(AeviaError::message(m))
}

/// The line printed for a lint: `error: <file>: <message>` or
/// `warning: <file>: <message>`.
pub fn lint_line(lint: &Lint) -> (s: String)
    ensures
        s@ == (if lint.level == LintLevel::Error { "error"@ } else { "warning"@ }) + ": "@ + lint.file@ + ": "@
            + lint.message@,
{
    let mut s = String::new();
    match lint.level {
        LintLevel::Error => push_str(&mut s, "error"),
        LintLevel::Warning => push_str(&mut s, "warning"),
    }
    push_str(&mut s, ": ");
    push_str(&mut s, lint.file.as_str());
    push_str(&mut s, ": ");
    push_str(&mut s, lint.message.as_str());
    s
}

/// The line printed for a test result: `  [ok] <path> — <message>`, or
/// `[FAIL]` for a failed test.
pub fn test_line(result: &TestResult) -> (s: String)
    ensures
        s@ == "  ["@ + (if result.passed { "ok"@ } else { "FAIL"@ }) + "] "@ + result.path@ + " — "@
            + result.message@,
{
    let mut s = String::new();
    push_str(&mut s, "  [");
    if result.passed {
        push_str(&mut s, "ok");
    } else {
        push_str(&mut s, "FAIL");
    }
    push_str(&mut s, "] ");
    push_str(&mut s, result.path.as_str());
    push_str(&mut s, " — ");
    push_str(&mut s, result.message.as_str());
    s
}

/// The number of failed tests.
pub open spec fn failed_count(rs: Seq<TestResult>) -> nat
    decreases rs.len(),
{
    if rs.len() == 0 {
        0
    } else {
        failed_count(rs.drop_last()) + if rs.last().passed { 0nat } else { 1nat }
    }
}

proof fn lemma_failed_count_bound(rs: Seq<TestResult>)
    ensures
        failed_count(rs) <= rs.len(),
    decreases rs.len(),
{
    if rs.len() > 0 {
        lemma_failed_count_bound(rs.drop_last());
    }
}

/// The outcome of `aevia test`: success when every test passed, else the
/// error counting the failures.
pub fn test_outcome(results: &Vec<TestResult>) -> (r: Result<(), AeviaError>)
    ensures
        r is Ok <==> failed_count(results@) == 0,
        r matches Err(AeviaError::Message(m)) ==> m@ == nat_digits(failed_count(results@)) + " test(s) failed"@,
{
    let mut n: u64 = 0;
    let mut i: usize = 0;
    while i < results.len()
        invariant
            i <= results@.len(),
            n == failed_count(results@.subrange(0, i as int)),
            n <= i,
        decreases results@.len() - i,
    {
        proof {
            let pre = results@.subrange(0, i + 1);
            assert(pre.drop_last() =~= results@.subrange(0, i as int));
            assert(pre.last() == results@[i as int]);
            lemma_failed_count_bound(results@.subrange(0, i as int));
        }
        if !results[i].passed {
            n = n + 1;
        }
        i = i + 1;
    }
    proof {
        assert(results@.subrange(0, results@.len() as int) =~= results@);
    }
    if n == 0 {
        return Ok(());
    }
    let mut m = String::new();
    push_u64(&mut m, n);
    push_str(&mut m, " test(s) failed");
    Err(AeviaError::message(m))
}

/// Which arguments a run passes to a function with `params` parameters when
/// `given` were supplied: `Ok(true)` when none were, so that each parameter
/// takes `1.0`; `Ok(false)` when as many as the parameters were, so that
/// they are passed; an arity error otherwise.
pub fn call_arity(name: &str, params: usize, given: usize) -> (r: Result<bool, AeviaError>)
    ensures
        given == 0 ==> r matches Ok(true),
        given != 0 && given == params ==> r matches Ok(false),
        given != 0 && given != params ==> (r matches Err(AeviaError::Message(m)) && m@ == "arity mismatch: expected "@
            + nat_digits(params as nat) + " arguments for function `"@ + name@ + "`, but got "@ + nat_digits(given as nat)),
{
    if given == 0 {
        return Ok(true);
    }
    if given != params {
        let mut m = String::new();
        push_str(&mut m, "arity mismatch: expected ");
        push_u64(&mut m, params as u64);
        push_str(&mut m, " arguments for function `");
        push_str(&mut m, name);
        push_str(&mut m, "`, but got ");
        push_u64(&mut m, given as u64);
        proof {
            assert(m@ =~= "arity mismatch: expected "@ + nat_digits(params as nat) + " arguments for function `"@ + name@
                + "`, but got "@ + nat_digits(given as nat));
        }
        return Err(AeviaError::message(m));
    }
    Ok(false)
}

} // verus!
