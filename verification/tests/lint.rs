use aevia::lint::{lint_program, lint_source, LintLevel, LintReport};
use aevia::modules::resolve::LoadedModule;
use aevia::modules::ImportBindings;
use aevia::parser::items::parse_source;
use aevia::types::dim::DimVector;

#[test]
fn lint_catches_dimension_error() {
    let file = parse_source("fn bad(x: m) -> s := x;").unwrap();
    let mut report = LintReport::new();
    lint_source("bad.ae", &file, &ImportBindings::new(), &mut report);
    assert!(!report.ok());
    assert_eq!(report.lints[0].level, LintLevel::Error);
    assert!(report.lints[0].message.starts_with("E[dim::return_type]"));
    assert_eq!(report.lints[0].file, "bad.ae");
}

#[test]
fn warnings_do_not_fail_the_lint() {
    let file = parse_source("pub fn f(x: m) := unsafe transmute(x);").unwrap();
    let mut imports = ImportBindings::new();
    imports.insert_function("unused_fn", DimVector::JOULE());
    let mut report = LintReport::new();
    lint_source("w.ae", &file, &imports, &mut report);
    assert!(report.ok());
    let msgs: Vec<&str> = report.lints.iter().map(|l| l.message.as_str()).collect();
    assert_eq!(
        msgs,
        vec![
            "unused import `unused_fn`",
            "public function `f` has no return type annotation",
            "unsafe `transmute` bypasses dimensional safety guarantees",
        ]
    );
}

#[test]
fn used_imports_are_not_reported() {
    let file = parse_source("fn main() -> J := energy(1.0, 1.0);").unwrap();
    let mut imports = ImportBindings::new();
    imports.insert_function("energy", DimVector::JOULE());
    let mut report = LintReport::new();
    lint_source("main.ae", &file, &imports, &mut report);
    assert!(report.ok());
    assert!(report.lints.is_empty(), "{:?}", report.lints);
}

#[test]
fn program_lint_checks_entry_for_main() {
    let lib = parse_source("pub fn f(x: m) -> m := x;").unwrap();
    let modules = vec![LoadedModule { path: "lib.ae".to_string(), ast: lib, imports: ImportBindings::new() }];
    let entry = parse_source("pub fn f(x: m) -> m := x;").unwrap();
    let report = lint_program("lib.ae", &entry, &modules);
    assert!(report.ok());
    assert_eq!(report.lints.len(), 1);
    assert_eq!(report.lints[0].message, "entry file has no `main` function");
    assert_eq!(report.lints[0].level, LintLevel::Warning);
}
