use sloth::debug::SourceInformation;
use sloth::types::{Function, Type, Value, Variable, VariableGenerator};
use std::collections::HashMap;
use std::rc::Rc;

fn source() -> Rc<SourceInformation> {
    Rc::new(SourceInformation::new("main.sl".to_string(), 1, 1))
}

fn unknown(id: usize) -> Type {
    Type::Variable(Variable::new(id, source()))
}

fn number() -> Type {
    Type::Value(Value::Number)
}

fn function(arguments: Vec<Type>) -> Type {
    Type::Function(Function::new(arguments, Value::Number))
}

#[test]
fn source_information_holds_its_parts() {
    let source_information = SourceInformation::new("lib.sl".to_string(), 3, 14);

    assert_eq!(source_information.source_name(), "lib.sl");
    assert_eq!(source_information.line_number(), 3);
    assert_eq!(source_information.column_number(), 14);
}

#[test]
fn variable_holds_its_id_and_source() {
    let source_information = source();
    let variable = Variable::new(42, source_information.clone());

    assert_eq!(variable.id(), 42);
    assert!(Rc::ptr_eq(variable.source_information(), &source_information));
}

#[test]
fn variables_with_the_same_id_are_equal() {
    assert_eq!(Variable::new(7, source()), Variable::new(7, source()));
    assert_ne!(Variable::new(7, source()), Variable::new(8, source()));
}

#[test]
fn cloned_variable_shares_its_source() {
    let variable = Variable::new(1, source());
    let clone = variable.clone();

    assert_eq!(clone.id(), 1);
    assert!(Rc::ptr_eq(clone.source_information(), variable.source_information()));
}

#[test]
fn function_holds_its_parts() {
    let type_ = Function::new(vec![number(), unknown(0)], Value::Number);

    assert_eq!(type_.arguments(), &vec![number(), unknown(0)]);
    assert_eq!(type_.result(), &Value::Number);
    assert_eq!(type_.clone(), type_);
}

#[test]
fn closed_types_hold_no_variable() {
    assert!(number().is_closed());
    assert!(function(vec![number(), function(vec![])]).is_closed());
    assert!(!unknown(0).is_closed());
    assert!(!function(vec![number(), function(vec![unknown(1)])]).is_closed());
}

#[test]
fn variables_are_found_in_types() {
    let type_ = function(vec![number(), function(vec![unknown(1)])]);

    assert!(type_.contains_variable(1));
    assert!(!type_.contains_variable(0));
    assert!(!number().contains_variable(0));
    assert!(unknown(3).contains_variable(3));
}

#[test]
fn substitution_replaces_known_variables() {
    let mut substitutions = HashMap::new();
    substitutions.insert(0, number());
    substitutions.insert(1, function(vec![unknown(2)]));

    assert_eq!(
        function(vec![unknown(0), unknown(1), unknown(3)]).substitute_variables(&substitutions),
        function(vec![number(), function(vec![unknown(2)]), unknown(3)])
    );
    assert_eq!(number().substitute_variables(&substitutions), number());
}

#[test]
fn substitution_does_not_look_into_what_it_puts() {
    let mut substitutions = HashMap::new();
    substitutions.insert(0, unknown(1));
    substitutions.insert(1, number());

    assert_eq!(unknown(0).substitute_variables(&substitutions), unknown(1));
}

#[test]
fn one_variable_is_replaced() {
    assert_eq!(
        function(vec![unknown(0), unknown(1)]).replace_variable(0, &number()),
        function(vec![number(), unknown(1)])
    );
}

#[test]
fn types_are_copied() {
    let type_ = function(vec![unknown(0), function(vec![number()])]);

    assert_eq!(type_.duplicate(), type_);
    assert_eq!(type_.clone(), type_);
}

#[test]
fn generated_ids_grow() {
    let mut generator = VariableGenerator::new();
    let first = generator.generate(source()).unwrap();
    let second = generator.generate(source()).unwrap();
    let third = generator.generate(source()).unwrap();

    assert_eq!(first.id(), 0);
    assert_eq!(second.id(), 1);
    assert_eq!(third.id(), 2);
    assert!(first.id() < second.id() && second.id() < third.id());
    assert_eq!(second.source_information(), &source());
}

#[test]
fn no_id_is_given_twice_when_the_ids_are_used_up() {
    let mut generator = VariableGenerator { next: usize::MAX - 1 };

    assert_eq!(generator.generate(source()).map(|variable| variable.id()), Some(usize::MAX - 1));
    assert_eq!(generator.generate(source()).map(|variable| variable.id()), None);
    assert_eq!(generator.generate(source()).map(|variable| variable.id()), None);
}
