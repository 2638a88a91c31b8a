use aevia::fmt::format_source;

#[test]
fn formats_type_alias() {
    let out = format_source("type V = m / s;").unwrap();
    assert!(out.contains("type V = m / s"));
}

#[test]
fn formats_control_flow() {
    let src = "fn test(x: m) {\n    while x < 10.0_m {\n        let x = x + 1.0_m;\n        continue;\n    };\n}";
    let out = format_source(src).unwrap();
    assert!(out.contains("while x < 10.0_m { let x = x + 1.0_m; continue; };"));
}

#[test]
fn formats_for_and_match() {
    let src = "fn test() {\n    for i in 0..10 {\n        match i {\n            1 => 1.0,\n            _ => 0.0,\n        };\n    };\n}";
    let out = format_source(src).unwrap();
    assert!(out.contains("for i in 0..10 { match i { 1 => 1.0, _ => 0.0 }; };"));
}

#[test]
fn formats_whole_file_exactly() {
    let out = format_source("pub fn force(m: kg, a: m/s^2) -> N := m*a;\ntype V=m/s;").unwrap();
    assert_eq!(out, "pub fn force(m: kg, a: m / s^2) -> N := m * a;\ntype V = m / s;\n");
}

#[test]
fn formats_struct_op_and_module() {
    let out = format_source("pub struct P { pub mass: kg, v: m/s }").unwrap();
    assert_eq!(out, "pub struct P { pub mass: kg, v: m / s};\n");
    let out = format_source("pub op scale(x: m -> m) { properties { vectorizable: true, cost: 2.5 } }").unwrap();
    assert_eq!(out, "pub op scale(x: m -> m) {\n    properties {\n        vectorizable: true,\n        cost: 2.5,\n    }\n}\n");
    let out = format_source("mod inner { type T = s; }").unwrap();
    assert_eq!(out, "mod inner {\n        type T = s;\n}\n");
}

#[test]
fn formatting_is_idempotent() {
    let src = "fn f(x: m) -> m := if x < 1.0_m { x } elseif x > 2.0_m { 2.0_m } else { x * 1.0 };";
    let once = format_source(src).unwrap();
    let twice = format_source(&once).unwrap();
    assert_eq!(once, twice);
}

#[test]
fn formatting_reports_parse_errors() {
    assert!(format_source("fn (").is_err());
}

#[test]
fn formatting_keeps_operator_grouping() {
    let out = format_source("fn f(a: m, b: m) -> m := (a + b) * a;").unwrap();
    assert_eq!(out, "fn f(a: m, b: m) -> m := (a + b) * a;\n");
    let out = format_source("fn g(a: m, b: m) -> m := a - (b - a) - -(a + b);").unwrap();
    assert_eq!(out, "fn g(a: m, b: m) -> m := a - (b - a) - -(a + b);\n");
    let out = format_source("fn h(x: m) := (x ^ 2) ^ 3 + x ^ 2 ^ 3;").unwrap();
    assert_eq!(out, "fn h(x: m) := (x ^ 2) ^ 3 + x ^ 2 ^ 3;\n");
    assert_eq!(format_source(&out).unwrap(), out);
}

#[test]
fn formatting_keeps_docs_and_rules() {
    let src = "//! Crate doc\n/// Scales\npub op scale(x: m -> m) { simplify { scale(0) => 0, scale(y) => y } egraph { after rewrite scale(y) => y } }\n/// Id\nfn id(x: m) -> m := x;";
    let out = format_source(src).unwrap();
    assert_eq!(
        out,
        "//! Crate doc\n\n/// Scales\npub op scale(x: m -> m) {\n    properties {\n    }\n    simplify {\n        scale(0) => 0,\n        scale(y) => y,\n    }\n    egraph {\n        after rewrite scale(y) => y,\n    }\n}\n/// Id\nfn id(x: m) -> m := x;\n"
    );
    assert_eq!(format_source(&out).unwrap(), out);
}
