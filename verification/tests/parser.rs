use aevia::ast::{BinOp, DimExpr, Expr, FunctionBody, Item, Number, UnOp, Visibility};
use aevia::parser::docs::prepare_source;
use aevia::parser::expr::parse_expr;
use aevia::parser::items::parse_source;

fn parse(src: &str) -> aevia::ast::SourceFile {
    match parse_source(src) {
        Ok(f) => f,
        Err(e) => panic!("parse failed:\n{e}"),
    }
}

#[test]
fn test_plain_literal() {
    let parsed = parse_expr("10.0").unwrap();
    if let Expr::Literal { value, suffix } = parsed.node {
        assert_eq!(value, Number { mantissa: 100, scale: 1 });
        assert!(suffix.is_none());
    } else {
        panic!("expected Literal");
    }
}

#[test]
fn test_suffixed_literal() {
    let parsed = parse_expr("9.8_m/s^2").unwrap();
    if let Expr::Literal { value, suffix } = parsed.node {
        assert_eq!(value, Number { mantissa: 98, scale: 1 });
        let suff = suffix.expect("expected unit suffix").node;
        assert!(matches!(suff, DimExpr::Div(..)), "expected Div dim, got {:?}", suff);
    } else {
        panic!("expected Literal");
    }
}

#[test]
fn test_variable() {
    let parsed = parse_expr("mass").unwrap();
    assert_eq!(parsed.node, Expr::Variable("mass".to_string()));
}

#[test]
fn test_precedence_mul_over_add() {
    let parsed = parse_expr("1 + 2 * 3").unwrap();
    if let Expr::BinaryOp { op, lhs, rhs } = parsed.node {
        assert_eq!(op, BinOp::Add);
        assert!(matches!(lhs.node, Expr::Literal { .. }));
        assert!(matches!(rhs.node, Expr::BinaryOp { op: BinOp::Mul, .. }));
    } else {
        panic!("expected BinaryOp");
    }
}

#[test]
fn test_function_call() {
    let parsed = parse_expr("kinetic_energy(m, v)").unwrap();
    if let Expr::Call { func, args } = parsed.node {
        assert_eq!(func, "kinetic_energy");
        assert_eq!(args.len(), 2);
    } else {
        panic!("expected Call");
    }
}

#[test]
fn test_comparison() {
    let parsed = parse_expr("x < 10.0_s").unwrap();
    if let Expr::BinaryOp { op, .. } = parsed.node {
        assert_eq!(op, BinOp::Lt);
    } else {
        panic!("expected BinaryOp");
    }
}

#[test]
fn test_unary_neg() {
    let parsed = parse_expr("-x").unwrap();
    assert!(matches!(parsed.node, Expr::UnaryOp { op: UnOp::Neg, .. }));
}

#[test]
fn test_exponentiation() {
    let parsed = parse_expr("2 ^ 3").unwrap();
    assert!(matches!(parsed.node, Expr::BinaryOp { op: BinOp::Pow, .. }));
}

#[test]
fn test_use_item() {
    let f = parse("use mechanics::kinematics;");
    assert_eq!(f.items.len(), 1);
    assert!(matches!(f.items[0].node, Item::Use { .. }));
}

#[test]
fn use_glob_and_alias_are_parsed() {
    let f = parse("use math::constants::*;\nuse mechanics::Force as F;");
    assert_eq!(f.items.len(), 2);
    if let Item::Use { path, glob, alias } = &f.items[0].node {
        assert_eq!(path.len(), 2);
        assert!(*glob);
        assert!(alias.is_none());
    } else {
        panic!("expected Use");
    }
    if let Item::Use { path, glob, alias } = &f.items[1].node {
        assert_eq!(path.len(), 2);
        assert!(!*glob);
        assert_eq!(alias.as_deref(), Some("F"));
    } else {
        panic!("expected Use");
    }
}

#[test]
fn test_type_alias() {
    let f = parse("type Acceleration = m / s^2;");
    assert_eq!(f.items.len(), 1);
    if let Item::TypeAlias { name, .. } = &f.items[0].node {
        assert_eq!(name, "Acceleration");
    } else {
        panic!("expected TypeAlias");
    }
}

#[test]
fn test_struct_item() {
    let f = parse("pub struct Particle { mass: kg, velocity: m/s }");
    assert_eq!(f.items.len(), 1);
    if let Item::Struct { name, fields, visibility, .. } = &f.items[0].node {
        assert_eq!(name, "Particle");
        assert_eq!(*visibility, Visibility::Public);
        assert_eq!(fields.len(), 2);
    } else {
        panic!("expected Struct");
    }
}

#[test]
fn test_expr_fn() {
    let f = parse("pub fn force(m: kg, a: m/s^2) -> N := m * a;");
    assert_eq!(f.items.len(), 1);
    if let Item::Function { name, params, body, visibility, .. } = &f.items[0].node {
        assert_eq!(name, "force");
        assert_eq!(*visibility, Visibility::Public);
        assert_eq!(params.len(), 2);
        assert!(matches!(body, FunctionBody::Expression(_)));
    } else {
        panic!("expected Function");
    }
}

#[test]
fn test_block_fn() {
    let f = parse("fn compute(x: m) { let y: m = x * 2.0; }");
    assert_eq!(f.items.len(), 1);
    if let Item::Function { name, body, .. } = &f.items[0].node {
        assert_eq!(name, "compute");
        assert!(matches!(body, FunctionBody::Block(_)));
        if let FunctionBody::Block(stmts) = body {
            assert_eq!(stmts.len(), 1);
        }
    } else {
        panic!("expected Function");
    }
}

#[test]
fn test_op_item() {
    let f = parse("pub op differentiate(y: m -> m/s) {}");
    assert_eq!(f.items.len(), 1);
    assert!(matches!(f.items[0].node, Item::CustomOp { .. }));
}

#[test]
fn test_egraph_after_builtins() {
    let src = r#"
        pub op f(x: m -> m) {
            egraph { after rewrite f(y) => y }
        }
    "#;
    let f = parse(src);
    if let Item::CustomOp { properties, .. } = &f.items[0].node {
        assert_eq!(properties.egraph_rules.len(), 1);
        assert!(properties.egraph_rules[0].after_builtins);
    } else {
        panic!("expected CustomOp");
    }
}

#[test]
fn test_op_properties_parsed() {
    let f = parse(
        r#"pub op scale(x: m -> m) {
            properties { vectorizable: true, cost: 2.5, }
        }"#,
    );
    if let Item::CustomOp { properties, .. } = &f.items[0].node {
        assert!(properties.vectorizable);
        assert_eq!(properties.cost.map(|c| aevia::fmt::format_number(c)), Some("2.5".to_string()));
    } else {
        panic!("expected CustomOp");
    }
}

#[test]
fn readme_op_with_simplify_rules_parses() {
    let src = r#"
pub op custom(x: m -> m/s) {
    properties {
        vectorizable: true,
        commutative: true,
    }

    simplify {
        custom(0) => 0,
    }
}
"#;
    let f = parse(src);
    if let Item::CustomOp { properties, .. } = &f.items[0].node {
        assert!(properties.vectorizable);
        assert!(properties.commutative);
        assert!(!properties.associative);
        assert_eq!(properties.simplify_rules.len(), 1);
    } else {
        panic!("expected CustomOp");
    }
}

#[test]
fn test_mod_inline() {
    let f = parse("pub mod inner { fn helper(x: m) -> m := x; }");
    assert_eq!(f.items.len(), 1);
    if let Item::Module { name, body, visibility, .. } = &f.items[0].node {
        assert_eq!(name, "inner");
        assert_eq!(*visibility, Visibility::Public);
        assert!(body.as_ref().is_some_and(|b| !b.is_empty()));
    } else {
        panic!("expected Module");
    }
}

#[test]
fn test_multiple_items() {
    let src = r#"
        type Velocity = m / s;
        pub struct Body { mass: kg, vel: m/s }
        fn ke(m: kg, v: m/s) -> J := 0.5 * m * v^2;
    "#;
    let f = parse(src);
    assert_eq!(f.items.len(), 3);
}

#[test]
fn test_macro_rules_item() {
    let src = r#"
        macro_rules! create_unit_alias {
            ($name:ident, $unit:expr) => { type $name = $unit; }
        }
    "#;
    let f = parse(src);
    assert_eq!(f.items.len(), 1);
    if let Item::MacroDef { name, rules } = &f.items[0].node {
        assert_eq!(name, "create_unit_alias");
        assert_eq!(rules.len(), 1);
        assert!(rules[0].pattern.contains("$name:ident"));
        assert!(rules[0].replacement.contains("type $name"));
    } else {
        panic!("expected MacroDef, got {:?}", f.items[0].node);
    }
}

#[test]
fn const_and_item_macro_call_parse() {
    let f = parse("pub const G: m / s^2 = 9.8;\nsq!(x);");
    assert_eq!(f.items.len(), 2);
    assert!(matches!(f.items[0].node, Item::Const { visibility: Visibility::Public, .. }));
    if let Item::MacroCall { name, args } = &f.items[1].node {
        assert_eq!(name, "sq");
        assert_eq!(args, "x");
    } else {
        panic!("expected MacroCall");
    }
}

#[test]
fn malformed_source_is_an_error() {
    assert!(parse_source("fn broken(x: m := x;").is_err());
    assert!(parse_source("struct { }").is_err());
}

#[test]
fn extracts_module_and_item_docs() {
    let src = r#"//! Module docs

/// Energy function
pub fn energy(m: kg, v: m/s) -> J := m * v;
"#;
    let prep = prepare_source(src);
    assert_eq!(prep.module_doc.as_deref(), Some("Module docs"));
    assert_eq!(prep.item_docs.len(), 1);
    assert!(prep.item_docs[0].as_ref().unwrap().contains("Energy"));
    assert!(prep.code.contains("pub fn energy"));
    assert!(!prep.code.contains("///"));
}

#[test]
fn doc_comments_parsed() {
    let src = r#"//! Crate docs

/// Computes force
pub fn force(m: kg, a: m/s^2) -> N := m * a;
"#;
    let file = parse_source(src).unwrap();
    assert_eq!(file.doc.as_deref(), Some("Crate docs"));
    if let Item::Function { doc, name, .. } = &file.items[0].node {
        assert_eq!(name, "force");
        assert!(doc.as_ref().unwrap().contains("Computes force"));
    } else {
        panic!("expected function");
    }
}

#[test]
fn parse_source_with_path_reports_the_path() {
    assert!(aevia::parser::parse_source("type V = m / s;", "v.ae").is_ok());
    let err = aevia::parser::parse_source("type = ;", "bad.ae").unwrap_err();
    assert!(err.display_string().starts_with("parse error in bad.ae: "));
    assert_eq!(err.display_string(), "parse error in bad.ae: cannot parse the item starting `type = ;`");
    let e = parse_source("/// doc\nfn ok() := 1.0;\n// note\nfn broken(x: m := x;\n").unwrap_err();
    assert_eq!(e, "cannot parse the item starting `fn broken(x: m := x;`");
}

#[test]
fn doc_slots_are_top_level_items_only() {
    let src = "pub struct P {\n    pub a: m,\n}\n/// Doc\npub fn f() -> m := 1.0_m;\n";
    let prepared = prepare_source(src);
    assert_eq!(prepared.item_docs, vec![None, Some("Doc".to_string())]);
    let file = parse_source(src).unwrap();
    match &file.items[1].node {
        Item::Function { doc, .. } => assert_eq!(doc.as_deref(), Some("Doc")),
        _ => panic!("expected a function"),
    }
    let src = "/// Kernel\n#[jit_kernel]\nfn g(x: m) -> m := x;\n/// Next\nfn h() := 1.0;\n";
    let prepared = prepare_source(src);
    assert_eq!(prepared.item_docs, vec![Some("Kernel".to_string()), Some("Next".to_string())]);
}
