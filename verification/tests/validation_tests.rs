use riven::validation::builtins::{bool_type, float_type, get_operators, int_type, string_type};
use riven::validation::info::IdGen;
use riven::validation::operators::{BinaryOp, BinaryOpType, GlobalOperators, UnaryOpType};
use riven::validation::types::TypeInfo;

#[test]
fn arithmetic_stays_in_its_type() {
    let ops = get_operators();
    let r = ops.evaluate_binary(&int_type(), &int_type(), BinaryOpType::Plus).unwrap();
    assert!(r.same(&int_type()));
    let f = ops.evaluate_binary(&float_type(), &float_type(), BinaryOpType::Divide).unwrap();
    assert!(f.same(&float_type()));
}

#[test]
fn comparisons_give_bool_and_strings_join() {
    let ops = get_operators();
    let c = ops.evaluate_binary(&int_type(), &int_type(), BinaryOpType::LessThan).unwrap();
    assert!(c.same(&bool_type()));
    let s = ops.evaluate_binary(&string_type(), &string_type(), BinaryOpType::Plus).unwrap();
    assert!(s.same(&string_type()));
}

#[test]
fn mismatched_operands_have_no_operator() {
    let ops = get_operators();
    assert!(ops.evaluate_binary(&int_type(), &string_type(), BinaryOpType::Minus).is_none());
    assert!(ops.evaluate_unary(&string_type(), UnaryOpType::Negate).is_none());
    let n = ops.evaluate_unary(&int_type(), UnaryOpType::Negate).unwrap();
    assert!(n.same(&int_type()));
    let b = ops.evaluate_unary(&bool_type(), UnaryOpType::Invert).unwrap();
    assert!(b.same(&bool_type()));
}

#[test]
fn types_compare_by_structure() {
    let a = TypeInfo::Array(Box::new(int_type()));
    let b = TypeInfo::Array(Box::new(int_type()));
    let c = TypeInfo::Array(Box::new(float_type()));
    assert!(a.same(&b));
    assert!(!a.same(&c));
    assert!(!a.is_iter());
    let next = TypeInfo::Function { args: vec![], returned: Box::new(TypeInfo::Optional(Box::new(int_type()))) };
    assert!(next.is_iter());
    assert!(next.get_iter_type().unwrap().same(&int_type()));
    assert!(!int_type().is_iter());
}

#[test]
fn ids_are_fresh() {
    let mut ids = IdGen::new();
    let a = ids.fresh();
    let b = ids.fresh();
    assert!(a < b);
}

#[test]
fn earlier_operator_rules_win() {
    let mut ops = GlobalOperators::new();
    ops.add_binary_op(BinaryOp::make_uniform(int_type(), BinaryOpType::Plus));
    ops.add_binary_op(BinaryOp::make_isosceles(int_type(), float_type(), BinaryOpType::Plus));
    let r = ops.evaluate_binary(&int_type(), &int_type(), BinaryOpType::Plus).unwrap();
    assert!(r.same(&int_type()));
    assert!(ops.evaluate_binary(&float_type(), &float_type(), BinaryOpType::Plus).is_none());
}
