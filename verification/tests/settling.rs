//! What inference does once the types an expression is made of are known, and what a function
//! settles once its body is walked, on values written by hand.

use lumen_check::ast::{BinaryOperator, Expr, ExprKind, Name, Span, UnaryOperator};
use lumen_check::calls::{branches_agree, called, returned, walked_over, Propagated};
use lumen_check::generalise::{free_in, generalised};
use lumen_check::operators::{binary, unary, Operated};
use lumen_check::scheme::{Quantified, Required};
use lumen_check::settle::{propagate, settle_discards, settle_propagations, unanswered, Asked};
use lumen_check::settle::{Propagation, Requirement};
use lumen_check::table::Table;
use lumen_check::type_error::{Count, TypeErrorKind};
use lumen_check::types::{Type, TypeVar};

fn span(start: usize, end: usize) -> Span {
    Span { start, end }
}

fn integer(value: i64, start: usize) -> Expr {
    Expr { kind: ExprKind::Integer(value), span: span(start, start + 1) }
}

fn requirement(trait_name: &str, at: Type, how: Asked) -> Requirement {
    Requirement { required: Required { trait_name: trait_name.to_owned(), at }, written: span(4, 9), how }
}

#[test]
fn an_operator_with_no_instance_is_refused_as_the_operator_written() {
    let refused = unanswered(&requirement("Add", Type::boolean(), Asked::Operator("+")), Type::boolean());
    assert_eq!(refused.span(), span(4, 9));
    assert_eq!(
        *refused.kind(),
        TypeErrorKind::NoOperator { written_as: "+", of: "Add".to_owned(), at: Type::boolean() }
    );
}

#[test]
fn a_method_with_no_instance_is_refused_as_the_trait_asked_for() {
    let refused = unanswered(&requirement("Show", Type::Unit, Asked::Method), Type::Unit);
    assert_eq!(*refused.kind(), TypeErrorKind::NoInstance { of: "Show".to_owned(), at: Type::Unit });
    let refused = unanswered(&requirement("Eq", Type::integer(), Asked::Constraint), Type::integer());
    assert_eq!(*refused.kind(), TypeErrorKind::NoInstance { of: "Eq".to_owned(), at: Type::integer() });
}

#[test]
fn a_statement_nothing_settled_is_settled_as_unit() {
    let mut table = Table::new();
    let left = table.fresh();
    assert!(settle_discards(&mut table, &vec![(left.copied(), span(0, 3)), (Type::Unit, span(5, 7))]).is_ok());
    assert_eq!(table.solved(&left), Type::Unit);
}

#[test]
fn a_statement_that_leaves_a_value_is_refused_where_it_is_written() {
    let mut table = Table::new();
    let refused = settle_discards(&mut table, &vec![(Type::Unit, span(0, 2)), (Type::integer(), span(3, 8))])
        .expect_err("an Int is left behind");
    assert_eq!(refused.span(), span(3, 8));
    assert_eq!(*refused.kind(), TypeErrorKind::Discarded(Type::integer()));
}

#[test]
fn a_question_mark_on_an_option_leaves_what_it_holds() {
    let mut table = Table::new();
    let held = table.fresh();
    let result = Type::option(Type::integer());
    let waiting = Propagation {
        found: Type::option(Type::string()),
        held: held.copied(),
        inner: span(10, 14),
        at: span(10, 15),
    };
    assert!(propagate(&mut table, &result, &waiting, Propagated::Absence).is_ok());
    assert_eq!(table.solved(&held), Type::string());
}

#[test]
fn a_question_mark_on_a_result_in_a_function_giving_an_option_is_refused_at_the_question_mark() {
    let mut table = Table::new();
    let held = table.fresh();
    let result = Type::option(Type::integer());
    let waiting = Propagation {
        found: Type::result(Type::integer(), Type::string()),
        held: held.copied(),
        inner: span(10, 14),
        at: span(10, 15),
    };
    let refused = settle_propagations(&mut table, &result, &vec![waiting]).expect_err("an Option is no Result");
    assert_eq!(refused.span(), span(10, 14));
}

#[test]
fn a_function_that_says_nothing_propagates_what_its_question_mark_is_written_on() {
    let mut table = Table::new();
    let result = table.fresh();
    let held = table.fresh();
    let waiting = Propagation {
        found: Type::result(Type::integer(), Type::string()),
        held: held.copied(),
        inner: span(20, 24),
        at: span(20, 25),
    };
    assert!(settle_propagations(&mut table, &result, &vec![waiting]).is_ok());
    assert_eq!(table.solved(&held), Type::integer());
    assert_eq!(table.solved(&result), Type::result(Type::Var(TypeVar(3)), Type::string()));
}

#[test]
fn only_what_nothing_else_holds_is_free_to_quantify() {
    let mut table = Table::new();
    let free = table.fresh();
    let held = table.fresh();
    let body = Type::function(vec![free.copied()], held.copied());
    assert_eq!(free_in(&table, &body, &vec![Type::list(held.copied())]), vec![TypeVar(0)]);
    assert_eq!(free_in(&table, &body, &Vec::new()).len(), 2);
    let scheme = generalised(&table, &body, &vec![held.copied()]);
    assert_eq!(scheme.quantified, vec![Quantified::Var(TypeVar(0))]);
    assert_eq!(scheme.body, body);
}

#[test]
fn a_settled_value_is_not_polymorphic() {
    let mut table = Table::new();
    let var = table.fresh();
    table.settle(TypeVar(0), Type::integer());
    let scheme = generalised(&table, &Type::list(var), &Vec::new());
    assert!(scheme.quantified.is_empty());
    assert_eq!(scheme.body, Type::list(Type::integer()));
}

#[test]
fn not_takes_a_bool_and_negation_asks_neg() {
    let mut table = Table::new();
    let operand = table.fresh();
    let (given, asked) = unary(&mut table, UnaryOperator::Not, operand.copied(), span(1, 2), span(0, 2))
        .expect("anything unsettled can be a Bool");
    assert_eq!(given, Type::boolean());
    assert!(asked.is_none());
    assert_eq!(table.solved(&operand), Type::boolean());
    let refused = unary(&mut table, UnaryOperator::Not, Type::integer(), span(1, 2), span(0, 2))
        .expect_err("an Int is no Bool");
    assert_eq!(refused.span(), span(1, 2));
    let (given, asked) = unary(&mut table, UnaryOperator::Negate, Type::integer(), span(1, 2), span(0, 2))
        .expect("negation asks, it does not refuse");
    assert_eq!(given, Type::integer());
    let asked: Operated = asked.expect("negation asks Neg");
    assert_eq!((asked.of, asked.written_as, asked.written), ("Neg", "-", span(0, 2)));
}

#[test]
fn an_addition_holds_both_sides_to_one_type_and_asks_add() {
    let mut table = Table::new();
    let left = table.fresh();
    let right = integer(1, 4);
    let (given, asked) = binary(&mut table, BinaryOperator::Add, left.copied(), Type::integer(), span(0, 1), &right, span(0, 5))
        .expect("an unsettled side takes the other's type");
    assert_eq!(table.solved(&given), Type::integer());
    assert_eq!(table.solved(&left), Type::integer());
    let asked = asked.expect("an addition asks Add");
    assert_eq!((asked.of, asked.written_as), ("Add", "+"));
}

#[test]
fn a_comparison_gives_a_bool_and_a_division_an_option() {
    let mut table = Table::new();
    let right = integer(2, 4);
    let (given, _) = binary(&mut table, BinaryOperator::Less, Type::integer(), Type::integer(), span(0, 1), &right, span(0, 5))
        .expect("two Ints compare");
    assert_eq!(given, Type::boolean());
    let (given, asked) = binary(&mut table, BinaryOperator::Divide, Type::integer(), Type::integer(), span(0, 1), &right, span(0, 5))
        .expect("two Ints divide");
    assert_eq!(given, Type::option(Type::integer()));
    assert_eq!(asked.expect("a division asks Div").of, "Div");
}

#[test]
fn a_division_by_a_written_zero_is_refused_at_the_zero() {
    let mut table = Table::new();
    let zero = integer(0, 4);
    let refused = binary(&mut table, BinaryOperator::Remainder, Type::integer(), Type::integer(), span(0, 1), &zero, span(0, 5))
        .expect_err("nothing divides by zero");
    assert_eq!(refused.span(), span(4, 5));
    assert_eq!(*refused.kind(), TypeErrorKind::DivisorIsZero);
}

#[test]
fn and_holds_both_sides_to_bool() {
    let mut table = Table::new();
    let right = integer(1, 9);
    let refused = binary(&mut table, BinaryOperator::And, Type::boolean(), Type::integer(), span(0, 4), &right, span(0, 10))
        .expect_err("an Int is no Bool");
    assert_eq!(refused.span(), span(9, 10));
    let (given, asked) = binary(&mut table, BinaryOperator::Or, Type::boolean(), Type::boolean(), span(0, 4), &right, span(0, 10))
        .expect("two Bools");
    assert_eq!(given, Type::boolean());
    assert!(asked.is_none());
}

fn callee(text: &str) -> Expr {
    let name = Name { text: text.to_owned(), span: span(0, text.len()) };
    Expr { kind: ExprKind::Name(name), span: span(0, text.len()) }
}

#[test]
fn a_call_gives_back_the_result_of_what_it_calls() {
    let mut table = Table::new();
    let argument = table.fresh();
    let signature = Type::function(vec![Type::integer()], Type::boolean());
    let given = called(&mut table, &callee("f"), &signature, vec![argument.copied()], &vec![span(2, 3)], span(0, 4))
        .expect("an unsettled argument takes the parameter's type");
    assert_eq!(given, Type::boolean());
    assert_eq!(table.solved(&argument), Type::integer());
}

#[test]
fn a_call_with_the_wrong_number_of_arguments_is_refused_at_its_name() {
    let mut table = Table::new();
    let signature = Type::function(vec![Type::integer()], Type::boolean());
    let refused = called(&mut table, &callee("f"), &signature, Vec::new(), &Vec::new(), span(0, 3))
        .expect_err("f takes one argument");
    assert_eq!(refused.span(), span(0, 1));
    assert_eq!(
        *refused.kind(),
        TypeErrorKind::WrongArgumentCount(Count { name: "f".to_owned(), takes: 1, given: 0 })
    );
}

#[test]
fn a_call_of_something_not_yet_known_to_be_a_function_makes_it_one() {
    let mut table = Table::new();
    let signature = table.fresh();
    let given = called(&mut table, &callee("g"), &signature, vec![Type::string()], &vec![span(2, 5)], span(0, 6))
        .expect("a variable can be any function");
    assert_eq!(given, Type::Var(TypeVar(1)));
    assert_eq!(table.solved(&signature), Type::function(vec![Type::string()], Type::Var(TypeVar(1))));
}

#[test]
fn every_branch_gives_what_the_if_gives() {
    let mut table = Table::new();
    let first = table.fresh();
    assert!(branches_agree(&mut table, &Type::string(), &vec![(first.copied(), span(0, 4))]).is_ok());
    assert_eq!(table.solved(&first), Type::string());
    let refused = branches_agree(&mut table, &Type::string(), &vec![(Type::Unit, span(6, 9))])
        .expect_err("a branch giving nothing");
    assert_eq!(refused.span(), span(6, 9));
}

#[test]
fn a_for_walks_a_list_and_binds_what_it_holds() {
    let mut table = Table::new();
    let item = walked_over(&mut table, &Type::list(Type::string()), span(9, 14)).expect("a List is walked");
    assert_eq!(table.solved(&item), Type::string());
    let refused = walked_over(&mut table, &Type::integer(), span(9, 10)).expect_err("an Int is not walked");
    assert_eq!(refused.span(), span(9, 10));
}

#[test]
fn a_return_is_held_to_the_result_and_leaves_anything() {
    let mut table = Table::new();
    let result = table.fresh();
    let left = returned(&mut table, &result, &Type::integer(), span(7, 8)).expect("the result was unsettled");
    assert_eq!(left, Type::Var(TypeVar(1)));
    assert_eq!(table.solved(&result), Type::integer());
    let refused = returned(&mut table, &result, &Type::string(), span(7, 10)).expect_err("a String is no Int");
    assert_eq!(refused.span(), span(7, 10));
}

#[test]
fn the_first_branch_that_disagrees_is_the_one_refused() {
    let mut table = Table::new();
    let first = table.fresh();
    let blocks = vec![(first.copied(), span(0, 4)), (Type::integer(), span(6, 9)), (Type::Unit, span(11, 13))];
    let refused = branches_agree(&mut table, &Type::string(), &blocks).expect_err("an Int branch");
    assert_eq!(refused.span(), span(6, 9));
    assert_eq!(*refused.kind(), TypeErrorKind::Mismatch { expected: Type::string(), found: Type::integer() });
    assert_eq!(table.solved(&first), Type::string());
}

#[test]
fn a_whole_number_left_behind_is_refused_as_a_mismatch_with_unit() {
    let mut table = Table::new();
    let left = table.fresh_whole_number();
    let refused = settle_discards(&mut table, &vec![(left.copied(), span(0, 2))]).expect_err("a number is left");
    assert_eq!(refused.span(), span(0, 2));
    match refused.kind() {
        TypeErrorKind::Mismatch { expected, .. } => assert_eq!(*expected, Type::Unit),
        other => panic!("expected a mismatch, found {:?}", other),
    }
}
