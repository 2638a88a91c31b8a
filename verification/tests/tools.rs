use aevia::ast::{Attribute, Expr, FunctionBody, Number, Span, Spanned};
use aevia::commands::{call_arity, check_failure, lint_line, lint_outcome, test_line, test_outcome};
use aevia::diagnostics::{AeviaError, SpannedError};
use aevia::fusion::{EgraphStats, FusionConfig, FusionKernel, FusionPlan, KernelKind, has_attr};
use aevia::lint::{Lint, LintLevel, LintReport};
use aevia::project::{manifest_text, project_dirs, project_files, SAMPLE_MAIN_AE};
use aevia::shell::{parse_shell_line, repl_source, ShellCommand};
use aevia::test_runner::{check_verdict, parse_test_mode, TestMode, TestResult};
use aevia::types::error::TypeError;
use aevia::manifest::Manifest;
use aevia::parser::items::parse_source;
use aevia::types::checker::check;

#[test]
fn config_from_attributes() {
    let cfg = FusionConfig::from_function(
        &vec![Attribute { name: "jit_kernel".into(), args: vec![] }],
        &FunctionBody::Expression(Spanned::new(
            Expr::Literal { value: Number { mantissa: 1, scale: 0 }, suffix: None },
            Span::new(0, 1),
        )),
    );
    assert!(cfg.jit_kernel);
    assert!(cfg.expression_body);
    assert!(cfg.flatten_chains());
}

#[test]
fn block_bodies_flatten_only_when_asked() {
    let body = FunctionBody::Block(vec![]);
    let plain = FusionConfig::from_function(&vec![], &body);
    assert!(!plain.expression_body && !plain.jit_kernel && !plain.simplify_fusion);
    assert!(!plain.flatten_chains());
    let attrs = vec![Attribute { name: "simplify_fusion".into(), args: vec![] }];
    let cfg = FusionConfig::from_function(&attrs, &body);
    assert!(cfg.simplify_fusion && cfg.flatten_chains());
    assert!(has_attr(&attrs, "simplify_fusion"));
    assert!(!has_attr(&attrs, "jit_kernel"));
    assert_eq!(FusionConfig::default(), plain);
}

#[test]
fn plan_counts() {
    let plan = FusionPlan {
        kernels: vec![
            FusionKernel { index: 0, root: 7, kind: KernelKind::ControlFlow, nodes: vec![7] },
            FusionKernel { index: 1, root: 3, kind: KernelKind::PureArithmetic, nodes: vec![3, 1, 2] },
            FusionKernel { index: 2, root: 5, kind: KernelKind::Leaf, nodes: vec![5] },
            FusionKernel { index: 3, root: 6, kind: KernelKind::PureArithmetic, nodes: vec![6, 4] },
        ],
        config: FusionConfig::default(),
    };
    assert_eq!(plan.arithmetic_kernel_count(), 2);
    assert_eq!(plan.total_nodes(), 7);
    let stats = EgraphStats::default();
    assert_eq!((stats.merges_performed, stats.rounds_completed, stats.converged), (0, 0, false));
}

#[test]
fn new_project_files() {
    let files = project_files("demo");
    let paths: Vec<&str> = files.iter().map(|(p, _)| p.as_str()).collect();
    assert_eq!(
        paths,
        vec!["Aevia.toml", "src/main.ae", "src/lib.ae", "src/modules/physics.ae", "tests/smoke.ae", "kernels/.gitkeep"]
    );
    assert_eq!(files[1].1, SAMPLE_MAIN_AE);
    assert_eq!(files[4].1, "// @aevia-test: check\n\nfn smoke() -> m := 1.0;\n");
    assert_eq!(files[5].1, "");
    assert_eq!(project_dirs(), vec!["src/modules", "tests", "kernels"]);
    let m = Manifest::parse(&manifest_text("demo")).unwrap();
    assert_eq!(m.package.name, "demo");
    assert_eq!(m.package.version, "0.1.0");
    assert_eq!(m.package.authors, vec!["Aevia Developer"]);
    assert_eq!(m.profile.release.opt_level, Some(3));
    assert_eq!(m.profile.release.backend.as_deref(), Some("rssn"));
    assert_eq!(m.profile.release.dimension_checking.as_deref(), Some("strict"));
    assert!(manifest_text("x").starts_with("[package]\nname = \"x\"\n"));
}

#[test]
fn sample_sources_parse() {
    for (path, text) in project_files("demo") {
        if path.ends_with(".ae") {
            assert!(parse_source(&text).is_ok(), "{path}");
        }
    }
    let physics = parse_source(&project_files("demo")[3].1).unwrap();
    assert!(check(&physics).ok());
}

#[test]
fn shell_lines() {
    assert_eq!(parse_shell_line("   "), ShellCommand::Empty);
    assert_eq!(parse_shell_line(" :q "), ShellCommand::Quit);
    assert_eq!(parse_shell_line(":exit"), ShellCommand::Quit);
    assert_eq!(parse_shell_line(":h"), ShellCommand::Help);
    assert_eq!(parse_shell_line(":check  a.ae "), ShellCommand::Check("a.ae".to_string()));
    assert_eq!(parse_shell_line(":load :load b.ae"), ShellCommand::Load("b.ae".to_string()));
    assert_eq!(parse_shell_line("1.0 + 2.0"), ShellCommand::Eval("1.0 + 2.0".to_string()));
    assert_eq!(parse_shell_line(":checkx"), ShellCommand::Eval(":checkx".to_string()));
}

#[test]
fn repl_sources() {
    assert_eq!(repl_source("2.0 * 3.0"), "fn __repl() := 2.0 * 3.0;");
    assert_eq!(repl_source("fn f() := 1.0"), "fn f() := 1.0;");
    assert_eq!(repl_source("fn f() := 1.0;"), "fn f() := 1.0;");
    assert!(parse_source(&repl_source("0.5 * 2.0 * 3.0^2")).is_ok());
}

#[test]
fn test_modes() {
    assert_eq!(parse_test_mode("// @aevia-test: expect-error\nfn f() := 1.0;"), TestMode::ExpectError);
    assert_eq!(parse_test_mode("// @aevia-test: error"), TestMode::ExpectError);
    assert_eq!(parse_test_mode("  // @aevia-test:  run  "), TestMode::Run);
    assert_eq!(parse_test_mode("// @aevia-test: run-equals 4.5"), TestMode::RunEquals("4.5".to_string()));
    assert_eq!(parse_test_mode("// @aevia-test: bogus"), TestMode::Check);
    assert_eq!(parse_test_mode("fn f() := 1.0;"), TestMode::Check);
    let late = format!("{}// @aevia-test: run\n", "\n".repeat(25));
    assert_eq!(parse_test_mode(&late), TestMode::Check);
}

#[test]
fn check_verdicts() {
    let errs = vec![TypeError::dimension_mismatch(Span::new(0, 1), "m", "s")];
    let r = check_verdict("a.ae", false, &errs);
    assert!(!r.passed);
    assert_eq!(r.message, errs[0].message);
    let r = check_verdict("a.ae", true, &errs);
    assert!(r.passed);
    assert_eq!(r.message, "failed as expected");
    let r = check_verdict("a.ae", true, &vec![]);
    assert!(!r.passed);
    assert_eq!(r.message, "expected type error but check passed");
    let r = check_verdict("a.ae", false, &vec![]);
    assert!(r.passed && r.message == "check passed" && r.path == "a.ae");
}

#[test]
fn command_reports() {
    let errs = vec![
        TypeError::unknown_unit(Span::new(0, 1), "furlong"),
        TypeError::dimension_mismatch(Span::new(2, 1), "m", "s"),
    ];
    match check_failure("x.ae", &errs) {
        AeviaError::Message(m) => {
            assert_eq!(m, format!("type check failed in x.ae:\n{}\n{}", errs[0].display_string(), errs[1].display_string()))
        },
        other => panic!("unexpected {:?}", other),
    }
    let mut report = LintReport::new();
    assert!(lint_outcome(&report).is_ok());
    report.push(LintLevel::Warning, "a.ae", "w".to_string());
    assert!(lint_outcome(&report).is_ok());
    report.push(LintLevel::Error, "a.ae", "e1".to_string());
    report.push(LintLevel::Error, "b.ae", "e2".to_string());
    match lint_outcome(&report).unwrap_err() {
        AeviaError::Message(m) => assert_eq!(m, "lint failed with 2 error(s)"),
        other => panic!("unexpected {:?}", other),
    }
    let l = Lint { level: LintLevel::Warning, message: "m".to_string(), file: "f.ae".to_string() };
    assert_eq!(lint_line(&l), "warning: f.ae: m");
    let results = vec![
        TestResult { path: "t1.ae".to_string(), passed: true, message: "check passed".to_string() },
        TestResult { path: "t2.ae".to_string(), passed: false, message: "boom".to_string() },
    ];
    assert_eq!(test_line(&results[0]), "  [ok] t1.ae — check passed");
    assert_eq!(test_line(&results[1]), "  [FAIL] t2.ae — boom");
    match test_outcome(&results).unwrap_err() {
        AeviaError::Message(m) => assert_eq!(m, "1 test(s) failed"),
        other => panic!("unexpected {:?}", other),
    }
    let passing = vec![TestResult { path: "t1.ae".to_string(), passed: true, message: String::new() }];
    assert!(test_outcome(&passing).is_ok());
}

#[test]
fn error_texts_and_codes() {
    let e = AeviaError::not_implemented("build", "phase 9");
    assert_eq!(e.display_string(), "build is not implemented yet (planned for phase 9)");
    assert_eq!(e.code(), "aevia::not_implemented");
    let e = AeviaError::io("/x", "denied".to_string());
    assert_eq!(e.display_string(), "I/O error at /x: denied");
    assert_eq!(e.code(), "aevia::io");
    let e = AeviaError::message("plain".to_string());
    assert_eq!((e.display_string(), e.code()), ("plain".to_string(), "aevia::error".to_string()));
    assert_eq!(AeviaError::ProjectExists("/p".to_string()).display_string(), "project directory already exists: /p");
    let s = SpannedError { message: "here".to_string(), offset: 3, len: 2 };
    let (span, label) = s.label();
    assert_eq!((span.offset, span.len, label.as_str()), (3, 2, "here"));
}

#[test]
fn call_arity_decides_arguments() {
    assert!(matches!(call_arity("f", 2, 0), Ok(true)));
    assert!(matches!(call_arity("f", 2, 2), Ok(false)));
    match call_arity("f", 2, 1) {
        Err(AeviaError::Message(m)) => {
            assert_eq!(m, "arity mismatch: expected 2 arguments for function `f`, but got 1")
        },
        _ => panic!("expected an arity error"),
    }
}
