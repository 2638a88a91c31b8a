use aevia::ast::{DimExpr, Span, Spanned};
use aevia::types::dim::{base_unit, resolve, DimVector, PhysicalType};
use aevia::types::env::TypeEnv;

fn sp<T>(node: T) -> Spanned<T> {
    Spanned::new(node, Span::new(0, 0))
}

#[test]
fn test_mul_div_display() {
    let v = DimVector::M().div(DimVector::S());
    assert_eq!(v.display_string(), "m/s");
    let f = DimVector::KG().mul(DimVector::M()).div(DimVector::S().pow(2));
    assert_eq!(f, DimVector::NEWTON());
    assert_eq!(f.display_string(), "m·kg/s^2");
}

#[test]
fn test_dimensionless() {
    let d = DimVector::M().div(DimVector::M());
    assert!(d.is_dimensionless());
    assert_eq!(d.display_string(), "dimensionless");
}

#[test]
fn test_pow() {
    let s2 = DimVector::S().pow(2);
    assert_eq!(s2.0[1], 2);
    let s_neg1 = DimVector::S().pow(-1);
    assert_eq!(s_neg1.0[1], -1);
}

#[test]
fn test_resolve_simple() {
    let expr = sp(DimExpr::Base("m".to_string()));
    assert_eq!(resolve(&expr), Some(DimVector::M()));
}

#[test]
fn test_resolve_compound() {
    let s = sp(DimExpr::Base("s".to_string()));
    let s2 = sp(DimExpr::Power(Box::new(s), 2));
    let m = sp(DimExpr::Base("m".to_string()));
    let expr = sp(DimExpr::Div(Box::new(m), Box::new(s2)));
    assert_eq!(resolve(&expr), Some(DimVector::ACCELERATION()));
}

#[test]
fn test_addable_with() {
    assert!(DimVector::M().addable_with(DimVector::M()));
    assert!(!DimVector::M().addable_with(DimVector::S()));
}

#[test]
fn test_unknown_base() {
    let expr = sp(DimExpr::Base("xyz".to_string()));
    assert_eq!(resolve(&expr), None);
}

#[test]
fn base_unit_knows_derived_names_and_grams() {
    assert_eq!(base_unit("Newton"), Some(DimVector::NEWTON()));
    assert_eq!(base_unit("Hz"), Some(DimVector::HERTZ()));
    assert_eq!(base_unit("g"), Some(DimVector::KG()));
    assert_eq!(base_unit("1"), Some(DimVector::DIMENSIONLESS()));
    assert_eq!(base_unit("furlong"), None);
}

#[test]
fn mul_then_div_restores_dimension() {
    let a = DimVector::JOULE();
    let b = DimVector::VELOCITY();
    assert_eq!(a.mul(b).div(b), a);
    assert_eq!(a.mul(b), b.mul(a));
}

#[test]
fn pow_two_is_square_and_pow_zero_is_dimensionless() {
    let v = DimVector::VELOCITY();
    assert_eq!(v.pow(2), v.mul(v));
    assert!(v.pow(0).is_dimensionless());
    assert_eq!(v.pow(1), v);
}

#[test]
fn physical_type_display_shows_shape() {
    let t = PhysicalType::tensor(DimVector::KG(), vec![4, 8]);
    assert_eq!(t.display_string(), "kg[4, 8]");
    assert!(!t.is_scalar());
    assert!(PhysicalType::scalar(DimVector::M()).is_scalar());
}

#[test]
fn test_define_lookup() {
    let mut env = TypeEnv::new();
    env.define("mass", PhysicalType::scalar(DimVector::KG()));
    assert_eq!(env.lookup("mass"), Some(PhysicalType::scalar(DimVector::KG())));
    assert_eq!(env.lookup("nope"), None);
}

#[test]
fn test_define_tensor_lookup() {
    let mut env = TypeEnv::new();
    env.define("buf", PhysicalType::tensor(DimVector::KG(), vec![1024]));
    let pt = env.lookup("buf").unwrap();
    assert_eq!(pt.dim, DimVector::KG());
    assert_eq!(pt.shape, Some(vec![1024]));
}

#[test]
fn test_scope_shadowing() {
    let mut env = TypeEnv::new();
    env.define("x", PhysicalType::scalar(DimVector::M()));
    env.push_scope();
    env.define("x", PhysicalType::scalar(DimVector::S()));
    assert_eq!(env.lookup("x").unwrap().dim, DimVector::S());
    env.pop_scope();
    assert_eq!(env.lookup("x").unwrap().dim, DimVector::M());
}

#[test]
fn test_alias_lookup() {
    let env = TypeEnv::new();
    assert_eq!(env.lookup("Newton").unwrap().dim, DimVector::NEWTON());
    assert_eq!(env.lookup("J").unwrap().dim, DimVector::JOULE());
}

#[test]
fn test_register_alias() {
    let mut env = TypeEnv::new();
    env.register_alias("MyUnit", DimVector::M().div(DimVector::S()));
    assert_eq!(env.lookup_alias("MyUnit"), Some(DimVector::VELOCITY()));
}

#[test]
fn test_fn_registration() {
    let mut env = TypeEnv::new();
    env.register_fn("force", DimVector::NEWTON());
    assert_eq!(env.lookup_fn("force"), Some(DimVector::NEWTON()));
}

#[test]
fn scope_depth_tracks_push_and_pop() {
    let mut env = TypeEnv::new();
    assert_eq!(env.depth(), 1);
    env.push_scope();
    env.define("t", PhysicalType::scalar(DimVector::S()));
    assert_eq!(env.depth(), 2);
    env.pop_scope();
    assert_eq!(env.depth(), 1);
    assert_eq!(env.lookup("t"), None);
}

#[test]
fn pow_saturates_exponents() {
    let big = DimVector::M().pow(100);
    let sq = big.pow(2);
    assert_eq!(sq.0[0], 127);
    assert_eq!(DimVector::M().pow(-300).0[0], -128);
}
