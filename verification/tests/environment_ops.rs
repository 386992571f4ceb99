use luth_lang::ast::Type;
use luth_lang::environment::Environment;
use luth_lang::value::RuntimeError;
use luth_lang::value::Value;

#[test]
fn get_of_an_undeclared_name_fails() {
    let env = Environment::new();
    let r = env.get("x");
    assert!(matches!(r, Err(RuntimeError::UndeclaredVariable(n)) if n == "x"));
}

#[test]
fn define_then_get_returns_the_value() {
    let mut env = Environment::new();
    env.define("x".to_string(), Value::NumberLiteral(5), None);
    assert_eq!(env.get("x").unwrap(), Value::NumberLiteral(5));
}

#[test]
fn typed_binding_rejects_a_mismatched_assignment() {
    let mut env = Environment::new();
    env.define("x".to_string(), Value::NumberLiteral(5), Some(Type::Int));
    let r = env.assign("x".to_string(), Value::StringLiteral("s".to_string()));
    assert!(matches!(r, Err(RuntimeError::TypeMismatch(n)) if n == "x"));
    assert_eq!(env.get("x").unwrap(), Value::NumberLiteral(5));
}

#[test]
fn dynamic_binding_accepts_any_variant() {
    let mut env = Environment::new();
    env.define("x".to_string(), Value::NumberLiteral(5), None);
    env.assign("x".to_string(), Value::StringLiteral("s".to_string())).unwrap();
    assert_eq!(env.get("x").unwrap(), Value::StringLiteral("s".to_string()));
    env.assign("x".to_string(), Value::BooleanLiteral(true)).unwrap();
    assert_eq!(env.get("x").unwrap(), Value::BooleanLiteral(true));
}

#[test]
fn assignment_to_an_undeclared_name_fails() {
    let mut env = Environment::new();
    let r = env.assign("y".to_string(), Value::Nil);
    assert!(matches!(r, Err(RuntimeError::UndeclaredVariable(n)) if n == "y"));
}

#[test]
fn assignment_preserves_the_declared_type() {
    let mut env = Environment::new();
    env.define("x".to_string(), Value::NumberLiteral(1), Some(Type::Int));
    env.assign("x".to_string(), Value::NumberLiteral(2)).unwrap();
    let r = env.assign("x".to_string(), Value::StringLiteral("s".to_string()));
    assert!(matches!(r, Err(RuntimeError::TypeMismatch(_))));
}

#[test]
fn redeclaration_discards_the_old_type() {
    let mut env = Environment::new();
    env.define("x".to_string(), Value::NumberLiteral(1), Some(Type::Int));
    env.define("x".to_string(), Value::NumberLiteral(2), None);
    env.assign("x".to_string(), Value::StringLiteral("s".to_string())).unwrap();
    assert_eq!(env.get("x").unwrap(), Value::StringLiteral("s".to_string()));
}

#[test]
fn nil_matches_no_declared_type() {
    let mut env = Environment::new();
    env.define("x".to_string(), Value::NumberLiteral(1), Some(Type::Int));
    let r = env.assign("x".to_string(), Value::Nil);
    assert!(matches!(r, Err(RuntimeError::TypeMismatch(_))));
}
