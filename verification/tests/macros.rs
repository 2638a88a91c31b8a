use aevia::ast::{Expr, FunctionBody, Item};
use aevia::macro_expand::{expand, extract_metavars, match_pattern, split_args, substitute};
use aevia::parser::items::parse_source;

#[test]
fn test_extract_metavars() {
    let vars = extract_metavars("$x:expr, $y:ident");
    assert_eq!(vars, vec!["x", "y"]);
}

#[test]
fn test_split_args_simple() {
    let parts = split_args("a, b, c");
    assert_eq!(parts, vec!["a", " b", " c"]);
}

#[test]
fn test_split_args_nested() {
    let parts = split_args("foo(a, b), c");
    assert_eq!(parts, vec!["foo(a, b)", " c"]);
}

#[test]
fn test_substitute() {
    let bindings = vec![("x".to_string(), "side".to_string())];
    let result = substitute("$x * $x", &bindings);
    assert_eq!(result, "side * side");
}

#[test]
fn substitute_prefers_longer_names() {
    let bindings = vec![("x".to_string(), "1".to_string()), ("xs".to_string(), "2".to_string())];
    assert_eq!(substitute("$xs + $x", &bindings), "2 + 1");
}

#[test]
fn match_pattern_needs_same_arity() {
    assert!(match_pattern("$a, $b", "1").is_none());
    assert!(match_pattern("plain", "1").is_none());
    let b = match_pattern("$a:expr, $b:expr", " f(1, 2) ,  y ").unwrap();
    assert_eq!(b, vec![("a".to_string(), "f(1, 2)".to_string()), ("b".to_string(), "y".to_string())]);
}

#[test]
fn test_expand_sq_macro() {
    let src = r#"
macro_rules! sq {
    ($x:expr) => { $x * $x }
}
fn area(side: m) -> m^2 := sq!(side);
"#;
    let mut file = parse_source(src).expect("parse failed");
    expand(&mut file).expect("expansion failed");
    if let Item::Function { body: FunctionBody::Expression(expr), .. } = &file.items[1].node {
        assert!(!matches!(expr.node, Expr::MacroCall { .. }), "got: {:?}", expr.node);
        assert!(matches!(expr.node, Expr::BinaryOp { .. }), "got: {:?}", expr.node);
    } else {
        panic!("expected function item");
    }
    let result = aevia::types::checker::check(&file);
    assert!(result.ok());
}

#[test]
fn item_level_macro_expands_to_items() {
    let src = r#"
macro_rules! create_unit_alias {
    ($name:ident, $unit:expr) => { type $name = $unit; }
}
create_unit_alias!(Speed, m / s);
"#;
    let mut file = parse_source(src).unwrap();
    expand(&mut file).unwrap();
    assert_eq!(file.items.len(), 2);
    if let Item::TypeAlias { name, .. } = &file.items[1].node {
        assert_eq!(name, "Speed");
    } else {
        panic!("expected alias, got {:?}", file.items[1].node);
    }
}

#[test]
fn undefined_and_unmatched_macros_are_errors() {
    let mut file = parse_source("fn f(x: m) -> m := nope!(x);").unwrap();
    let e = expand(&mut file).unwrap_err();
    assert_eq!(e.display_string(), "undefined macro `nope!`");
    let mut file = parse_source("macro_rules! two { ($a:expr, $b:expr) => { $a + $b } }\nfn f(x: m) -> m := two!(x);").unwrap();
    let e = expand(&mut file).unwrap_err();
    assert_eq!(e.display_string(), "no matching rule in macro `two!` for args `x`");
}

#[test]
fn macro_free_file_is_unchanged() {
    let src = "fn f(x: m) -> m := x * 2.0;";
    let mut file = parse_source(src).unwrap();
    let before = format!("{:?}", file);
    expand(&mut file).unwrap();
    assert_eq!(format!("{:?}", file), before);
}

#[test]
fn substitute_does_not_rescan_inserted_text() {
    let bindings = vec![("a".to_string(), "$b".to_string()), ("b".to_string(), "1".to_string())];
    assert_eq!(substitute("$a", &bindings), "$b");
    assert_eq!(substitute("$a + $b + $c", &bindings), "$b + 1 + $c");
}

#[test]
fn repeated_metavariable_takes_last_value() {
    let b = match_pattern("$x, $x", "1, 2").unwrap();
    assert_eq!(substitute("$x", &b), "2");
}

#[test]
fn calls_inside_inline_modules_are_expanded() {
    let src = "macro_rules! sq {\n    ($x:expr) => { $x * $x }\n}\nmod inner {\n    fn g(x: m) -> m^2 := sq!(x);\n    sq_alias!();\n}\n";
    let mut file = parse_source(src).unwrap();
    assert!(expand(&mut file).is_err());
    let src = "macro_rules! sq {\n    ($x:expr) => { $x * $x }\n}\nmacro_rules! alias {\n    ($n:ident) => { type $n = m; }\n}\nmod inner {\n    fn g(x: m) -> m^2 := sq!(x);\n    alias!(L);\n}\n";
    let mut file = parse_source(src).unwrap();
    expand(&mut file).unwrap();
    match &file.items[2].node {
        Item::Module { body: Some(items), .. } => {
            assert_eq!(items.len(), 2);
            match &items[0].node {
                Item::Function { body: FunctionBody::Expression(e), .. } => {
                    assert!(matches!(e.node, Expr::BinaryOp { .. }), "got: {:?}", e.node)
                },
                other => panic!("expected a function, got {:?}", other),
            }
            assert!(matches!(&items[1].node, Item::TypeAlias { name, .. } if name == "L"));
        },
        other => panic!("expected a module, got {:?}", other),
    }
}

#[test]
fn no_invocation_remains_in_nested_modules() {
    let src = "macro_rules! sq {\n    ($x:expr) => { $x * $x }\n}\nmod a {\n    mod b {\n        fn g(x: m) -> m^2 := sq!(x);\n        const K: m^2 = sq!(2.0_m);\n    }\n}\n";
    let mut file = parse_source(src).unwrap();
    expand(&mut file).unwrap();
    let shown = format!("{:?}", file.items);
    assert!(!shown.contains("MacroCall"), "left: {shown}");
    assert!(shown.contains("BinaryOp"));
}
