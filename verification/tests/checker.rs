use aevia::modules::ImportBindings;
use aevia::parser::items::parse_source;
use aevia::types::checker::{check, check_with_imports, CheckResult};
use aevia::types::dim::DimVector;
use aevia::types::error::TypeErrorCode;

fn check_src(src: &str) -> CheckResult {
    let file = parse_source(src).expect("parse failed");
    check(&file)
}

fn messages(r: &CheckResult) -> Vec<String> {
    r.errors.iter().map(|e| e.display_string()).collect()
}

#[test]
fn test_expr_fn_correct() {
    let result = check_src("pub fn force(m: kg, a: m/s^2) -> N := m * a;");
    assert!(result.ok(), "errors: {:?}", messages(&result));
}

#[test]
fn test_let_annotation_conflict() {
    let result = check_src("fn bad(x: m) { let y: s = x; }");
    assert!(!result.ok());
    assert!(result.errors.iter().any(|e| e.code == TypeErrorCode::AnnotationConflict));
}

#[test]
fn test_return_type_mismatch() {
    let result = check_src("fn wrong(x: m) -> s := x;");
    assert!(!result.ok());
    assert!(result.errors.iter().any(|e| e.code == TypeErrorCode::ReturnTypeMismatch));
}

#[test]
fn test_type_alias_resolution() {
    let result = check_src("type Acc = m/s^2;\nfn f(a: Acc) -> Acc := a;");
    assert!(result.ok(), "errors: {:?}", messages(&result));
}

#[test]
fn test_pow_integer_exponent() {
    let result = check_src("fn sq(x: m) -> m^2 := x^2;");
    assert!(result.ok(), "errors: {:?}", messages(&result));
}

#[test]
fn test_kinetic_energy_with_pow() {
    let result = check_src("fn ke(m: kg, v: m/s) -> J := 0.5 * m * v^2;");
    assert!(result.ok(), "errors: {:?}", messages(&result));
}

#[test]
fn test_use_import_fn() {
    let mut imports = ImportBindings::new();
    imports.insert_function("energy", DimVector::JOULE());
    let file = parse_source("fn main() -> J := energy(1.0, 1.0);").unwrap();
    let result = check_with_imports(&file, &imports);
    assert!(result.ok(), "errors: {:?}", messages(&result));
}

#[test]
fn test_add_mismatch() {
    let result = check_src("fn bad(x: m, y: kg) -> m := x + y;");
    assert!(!result.ok());
    assert!(result.errors.iter().any(|e| e.code == TypeErrorCode::DimensionMismatch));
}

#[test]
fn test_mul_infers_compound() {
    let result = check_src("fn v(x: m, t: s) -> m/s := x / t;");
    assert!(result.ok(), "errors: {:?}", messages(&result));
}

#[test]
fn test_block_fn_let_correct() {
    let result = check_src("fn f(x: m) { let y: m = x; }");
    assert!(result.ok(), "errors: {:?}", messages(&result));
}

#[test]
fn test_unknown_unit() {
    let result = check_src("fn f(x: xyz) -> m := x;");
    assert!(!result.ok());
    assert!(result.errors.iter().any(|e| e.code == TypeErrorCode::UnknownUnit));
}

#[test]
fn test_tensor_param_add_ok() {
    let result = check_src("fn add_bufs(a: kg[1024], b: kg[1024]) -> kg[1024] := a + b;");
    assert!(result.ok(), "errors: {:?}", messages(&result));
}

#[test]
fn test_tensor_shape_mismatch_add() {
    let result = check_src("fn bad(a: kg[1024], b: kg[512]) -> kg[1024] := a + b;");
    assert!(!result.ok());
    assert!(result.errors.iter().any(|e| e.code == TypeErrorCode::ShapeMismatch));
}

#[test]
fn test_tensor_matrix_mul() {
    let result = check_src("fn matmul(a: kg[4, 4], b: kg[4, 8]) -> kg^2[4, 8] := a * b;");
    assert!(result.ok(), "errors: {:?}", messages(&result));
}

#[test]
fn test_tensor_matrix_mul_bad() {
    let result = check_src("fn bad(a: kg[4, 3], b: kg[4, 4]) := a * b;");
    assert!(!result.ok());
    assert!(result.errors.iter().any(|e| e.code == TypeErrorCode::ShapeMismatch));
}

#[test]
fn pow_typechecks_kinetic_energy() {
    let result = check(&parse_source("fn ke(m: kg, v: m/s) -> J := 0.5 * m * v^2;").unwrap());
    assert!(result.ok(), "{:?}", messages(&result));
}

#[test]
fn readme_force_is_mass_times_acceleration() {
    let src = "type Acceleration = m / s^2;\ntype Force = kg * Acceleration;\nfn f(mass: kg) { let acc: Acceleration = 9.8_m/s^2; let force: Force = mass * acc; }";
    let result = check_src(src);
    assert!(result.ok(), "errors: {:?}", messages(&result));
    let bad = check_src("type Force = kg * m / s^2;\nfn f(force: Force) { let invalid: m = force; }");
    assert!(bad.errors.iter().any(|e| e.code == TypeErrorCode::AnnotationConflict));
}

#[test]
fn exponent_errors_are_reported() {
    let r = check_src("fn f(x: m) -> m := x ^ 1.0_s;");
    assert!(r.errors.iter().any(|e| e.code == TypeErrorCode::UnexpectedDimensionless));
    let r = check_src("fn f(x: m, y: m) := x ^ y;");
    assert!(r.errors.iter().any(|e| e.code == TypeErrorCode::DimensionMismatch));
    let r = check_src("fn f(x: m) := x ^ -2;");
    assert!(r.errors.iter().any(|e| e.code == TypeErrorCode::DimensionMismatch));
}

#[test]
fn comparison_and_if_branches_are_checked() {
    let r = check_src("fn f(x: m, t: s) := x < t;");
    assert!(r.errors.iter().any(|e| e.code == TypeErrorCode::DimensionMismatch));
    let r = check_src("fn f(x: m, t: s) := if x < 1.0_m { x } else { t };");
    assert!(r.errors.iter().any(|e| e.code == TypeErrorCode::DimensionMismatch));
    let r = check_src("fn f(x: m) -> m := if x < 1.0_m { x } else { 2.0_m };");
    assert!(r.ok(), "{:?}", messages(&r));
}

#[test]
fn struct_fields_and_access_are_checked() {
    let src = "pub struct P { mass: kg }\nfn f(x: kg) -> kg := P { mass: x }.mass;";
    let r = check_src(src);
    assert!(r.ok(), "{:?}", messages(&r));
    let r = check_src("pub struct P { mass: kg }\nfn f(x: m) := P { mass: x };");
    assert!(r.errors.iter().any(|e| e.code == TypeErrorCode::DimensionMismatch));
    let r = check_src("pub struct P { mass: kg }\nfn f(x: kg) := P { weight: x };");
    assert!(r.errors.iter().any(|e| e.code == TypeErrorCode::UnknownUnit));
}

#[test]
fn block_scopes_and_match_arms() {
    let r = check_src("fn f(x: m) -> m := { let y = x; y };");
    assert!(r.ok(), "{:?}", messages(&r));
    let r = check_src("fn f(x: m) -> m := match x { v: m => v, _ => x };");
    assert!(r.ok(), "{:?}", messages(&r));
    let r = check_src("fn f(x: m, t: s) := match x { 1 => x, _ => t };");
    assert!(r.errors.iter().any(|e| e.code == TypeErrorCode::DimensionMismatch));
}

#[test]
fn error_display_has_code_tag() {
    let r = check_src("fn wrong(x: m) -> s := x;");
    let text = r.errors[0].display_string();
    assert!(text.starts_with("E[dim::return_type] return type mismatch: declared `s`"), "{text}");
}

#[test]
fn mismatch_message_and_span_are_exact() {
    let r = check_src("fn f(x: m, t: s) := x + t;");
    assert_eq!(r.errors.len(), 1);
    assert_eq!(r.errors[0].code, TypeErrorCode::DimensionMismatch);
    assert_eq!(r.errors[0].message, "dimension mismatch: expected `m`, found `s`");
    assert_eq!((r.errors[0].span.offset, r.errors[0].span.len), (20, 5));
    assert!(r.errors[0].secondary.is_none());
    let r = check_src("fn g(x: m) { let y: s = x; }");
    assert_eq!(r.errors.len(), 1);
    assert_eq!(r.errors[0].message, "declared type `s` conflicts with inferred `m`");
}

#[test]
fn readme_dimensional_example_checks() {
    let src = "type Acceleration = m / s^2;\ntype Force = kg * Acceleration;\nfn main() { let mass: kg = 10.0; let acc: Acceleration = 9.8; let force: Force = mass * acc; }";
    let r = check_src(src);
    assert!(r.ok(), "{:?}", messages(&r));
    let bad = "type Acceleration = m / s^2;\ntype Force = kg * Acceleration;\nfn main() { let mass: kg = 10.0; let acc: Acceleration = 9.8; let force: Force = mass * acc; let invalid: m = force; }";
    let r = check_src(bad);
    assert_eq!(r.errors.len(), 1);
    assert_eq!(r.errors[0].code, TypeErrorCode::AnnotationConflict);
}
