use aevia::ast::{Item, Number};
use aevia::diagnostics::AeviaError;
use aevia::lowering::{copy_lowered, find_entry_function, LOp, Lowered, Lowerer};
use aevia::ops::{rule_shape, RuleShape};
use aevia::parser::items::parse_source;

fn lower_first(src: &str) -> Result<Lowered, AeviaError> {
    let file = parse_source(src).unwrap();
    let mut lowerer = Lowerer::new();
    lowerer.register_items(&file);
    let k = find_entry_function(&file.items).unwrap();
    match &file.items[k].node {
        Item::Function { params, body, .. } => lowerer.lower_body(params, body),
        _ => panic!("expected function"),
    }
}

fn show(t: &Lowered) -> String {
    match t {
        Lowered::Constant(n) => format!("{}e-{}", n.mantissa, n.scale),
        Lowered::Variable(v) => v.clone(),
        Lowered::Binary(op, a, b) => format!("({:?} {} {})", op, show(a), show(b)),
        Lowered::Neg(a) => format!("(neg {})", show(a)),
        Lowered::Call(f, args) => format!("{}({})", f, args.iter().map(show).collect::<Vec<_>>().join(", ")),
        Lowered::IfElse(c, t, e) => format!("(if {} {} {})", show(c), show(t), show(e)),
        Lowered::ForLoop(a, b, c, d) => format!("(for {} {} {} {})", show(a), show(b), show(c), show(d)),
    }
}

#[test]
fn test_lowering_simple_expr() {
    let root = lower_first("fn main(x: m) := x * 2.5;").unwrap();
    assert!(matches!(root, Lowered::Binary(LOp::Mul, _, _)));
    assert_eq!(show(&root), "(Mul x 25e-1)");
}

#[test]
fn test_lowering_let_bindings() {
    let root = lower_first("fn main(x: m) { let y = x * 2.0; let z = y + 1.0; }").unwrap();
    assert!(matches!(root, Lowered::Binary(LOp::Add, _, _)));
    assert_eq!(show(&root), "(Add (Mul x 20e-1) 10e-1)");
}

#[test]
fn calls_are_inlined() {
    let root = lower_first("fn sq(a: m) := a * a;\nfn main(x: m) := sq(x + 1.0) - x;").unwrap();
    assert_eq!(show(&root), "(Sub (Mul (Add x 10e-1) (Add x 10e-1)) x)");
    let root = lower_first("fn main(x: m) := ext(x, 2.0);").unwrap();
    assert_eq!(show(&root), "ext(x, 20e-1)");
}

#[test]
fn comparisons_become_helper_calls() {
    let root = lower_first("fn main(a: m, b: m) := if a < b { a } else { b };").unwrap();
    assert_eq!(show(&root), "(if lt(a, b) a b)");
    let root = lower_first("fn main(a: m) := if a == 1.0 { a };").unwrap();
    assert_eq!(show(&root), "(if eq(a, 10e-1) a 0e-0)");
}

#[test]
fn loops_and_matches() {
    let root = lower_first("fn main(n: m) { for i in 0..n { i } }").unwrap();
    assert_eq!(show(&root), "(for 0e-0 n 1e-0 i)");
    let root = lower_first("fn main(x: m) := match x { 1 => 2.0, v => v, _ => 0.0 };").unwrap();
    assert_eq!(show(&root), "(if eq(x, 1e-0) 20e-1 (if 1e-0 x (if 1e-0 0e-1 0e-0)))");
    let root = lower_first("fn main(x: m) { while x < 1.0 { x } }").unwrap();
    assert_eq!(show(&root), "(for 0e-0 1000000e-0 1e-0 (if lt(x, 10e-1) x 0e-0))");
}

#[test]
fn lowering_errors() {
    let e = lower_first("fn f(a: m, b: m) := a;\nfn main(x: m) := f(x);").unwrap_err();
    assert_eq!(e.display_string(), "arity mismatch: expected 2 arguments, got 1");
    let e = lower_first("fn main(x: m) := x + sq!(x);").unwrap_err();
    assert_eq!(
        e.display_string(),
        "macro `sq!` was not expanded before lowering; run the expansion pass first"
    );
    let e = lower_first("fn main(x: m) := loop_forever(x);\nfn loop_forever(x: m) := loop_forever(x);");
    assert_eq!(e.unwrap_err().display_string(), "call of `loop_forever` is nested too deeply to inline");
}

#[test]
fn entry_function_choice() {
    let file = parse_source("fn a() := 1.0;\nfn main() := 2.0;\nfn b() := 3.0;").unwrap();
    assert_eq!(find_entry_function(&file.items), Some(1));
    let file = parse_source("type T = m;\nfn a() := 1.0;\nfn b() := 3.0;").unwrap();
    assert_eq!(find_entry_function(&file.items), Some(1));
    let file = parse_source("type T = m;").unwrap();
    assert_eq!(find_entry_function(&file.items), None);
    let t = Lowered::Call("f".to_string(), vec![Lowered::Constant(Number { mantissa: 1, scale: 0 })]);
    assert_eq!(show(&copy_lowered(&t)), show(&t));
}

#[test]
fn op_rule_shapes() {
    let file = parse_source(
        "pub op double(x: m -> m) {\n    simplify { double(0) => 0, double(y) => y, other(1) => 2 }\n}",
    )
    .unwrap();
    let Item::CustomOp { name, properties, .. } = &file.items[0].node else { panic!("expected op") };
    let shapes: Vec<RuleShape> =
        properties.simplify_rules.iter().map(|r| rule_shape(&r.pattern, &r.replacement, name)).collect();
    assert_eq!(
        shapes,
        vec![
            RuleShape::LiteralArg {
                arg: Number { mantissa: 0, scale: 0 },
                replacement: Number { mantissa: 0, scale: 0 }
            },
            RuleShape::Passthrough,
            RuleShape::Other,
        ]
    );
}

#[test]
fn long_call_chains_inline_fully() {
    let mut src = String::from("fn main(x: m) := f299(x);\nfn f0(x: m) := x;\n");
    for i in 1..300 {
        src.push_str(&format!("fn f{}(x: m) := f{}(x);\n", i, i - 1));
    }
    let lowered = lower_first(&src);
    assert!(lowered.is_ok(), "{:?}", lowered.err().map(|e| e.display_string()));
}
