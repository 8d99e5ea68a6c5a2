use minilang::syntax_elements::{DataTypes, Variable};

#[test]
fn test_infer_type_int() {
    let value = 42;
    let inferred = DataTypes::from_int(value);
    assert_eq!(inferred, DataTypes::Int(42));
}

#[test]
fn test_infer_type_string() {
    let value = String::from("hello");
    let inferred = DataTypes::from_string(value.clone());
    assert_eq!(inferred, DataTypes::Str(value));
}

#[test]
fn test_infer_type_bool() {
    let value = true;
    let inferred = DataTypes::from_bool(value);
    assert_eq!(inferred, DataTypes::Bool(true));
}

#[test]
fn test_infer_type_float() {
    let value = 3.14f64;
    let inferred = DataTypes::from_float_bits(value.to_bits());
    assert_eq!(inferred, DataTypes::Float(3.14f64.to_bits()));
}

#[test]
fn test_infer_type_char() {
    let value = 'a';
    let inferred = DataTypes::from_char(value);
    assert_eq!(inferred, DataTypes::Char('a'));
}

#[test]
fn test_new_variable_int() {
    let name = String::from("x");
    let value = 42;
    let variable = Variable::new(name.clone(), DataTypes::from_int(value), true);
    assert_eq!(variable.name, name);
    assert_eq!(variable.value, DataTypes::Int(42));
}

#[test]
fn test_new_variable_string() {
    let name = String::from("y");
    let value = String::from("hello");
    let variable = Variable::new(name.clone(), DataTypes::from_string(value.clone()), false);
    assert_eq!(variable.name, name);
    assert_eq!(variable.value, DataTypes::Str(value));
}

#[test]
fn test_new_variable_bool() {
    let name = String::from("z");
    let value = true;
    let variable = Variable::new(name.clone(), DataTypes::from_bool(value), true);
    assert_eq!(variable.name, name);
    assert_eq!(variable.value, DataTypes::Bool(true));
}

#[test]
fn test_new_variable_float() {
    let name = String::from("w");
    let value = 3.14f64;
    let variable = Variable::new(name.clone(), DataTypes::from_float_bits(value.to_bits()), false);
    assert_eq!(variable.name, name);
    assert_eq!(variable.value, DataTypes::Float(3.14f64.to_bits()));
}

#[test]
fn test_new_variable_char() {
    let name = String::from("a");
    let value = 'a';
    let variable = Variable::new(name.clone(), DataTypes::from_char(value), true);
    assert_eq!(variable.name, name);
    assert_eq!(variable.value, DataTypes::Char('a'));
}

#[test]
fn variable_keeps_mutability_flag() {
    let variable = Variable::new("k".to_string(), DataTypes::Int(1), false);
    assert!(!variable.mutable);
    assert_eq!(variable.clone(), variable);
}
