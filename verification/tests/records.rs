//! How a record is built and a call is written, on values written by hand.

use lumen_check::ast::{Argument, Block, Expr, ExprKind, FieldValue, Function, Name, Parameter, Path, Span};
use lumen_check::calls::{expect, held_apart, in_order, name_of, not_discardable, propagated, Propagated};
use lumen_check::code::Code;
use lumen_check::records::{
    build_without_fields, built_without_labels, labelled, missing_field, unreachable_field, written_once,
};
use lumen_check::table::Table;
use lumen_check::type_error::TypeErrorKind;
use lumen_check::types::{Type, TypeVar};
use lumen_check::unify::unify;

fn named(text: &str, start: usize) -> Name {
    Name { text: text.to_owned(), span: Span { start, end: start + text.len() } }
}

fn field(text: &str, start: usize) -> FieldValue {
    FieldValue { name: named(text, start), value: Expr { kind: ExprKind::Integer(1), span: Span { start: start + 10, end: start + 11 } } }
}

fn path(text: &str) -> Path {
    Path { module: None, name: named(text, 0) }
}

fn labels(texts: &[&str]) -> Vec<String> {
    texts.iter().map(|text| (*text).to_owned()).collect()
}

#[test]
fn a_field_is_found_at_the_place_of_its_label() {
    let point = Type::plain("Point");
    assert_eq!(labelled(&labels(&["x", "y"]), &named("y", 4), &point).ok(), Some(1));
    let error = labelled(&labels(&["x", "y"]), &named("z", 4), &point).expect_err("no `z`");
    assert_eq!(error.message(), "`Point` has no field named `z`");
    assert_eq!(error.span(), Span { start: 4, end: 5 });
    assert_eq!(error.code(), Code::UnknownField);
}

#[test]
fn a_field_given_twice_is_refused_at_the_second() {
    let fields = vec![field("x", 0), field("y", 20), field("x", 40)];
    let error = written_once(&path("Point"), &fields).expect_err("`x` twice");
    assert_eq!(error.message(), "`Point` is given `x` twice");
    assert_eq!(error.span(), Span { start: 40, end: 41 });
    assert!(written_once(&path("Point"), &vec![field("x", 0), field("y", 20)]).is_ok());
    let reached = Path { module: Some(named("shapes", 0)), name: named("Point", 7) };
    let error = written_once(&reached, &fields).expect_err("`x` twice");
    assert_eq!(error.message(), "`shapes.Point` is given `x` twice");
}

#[test]
fn a_record_built_without_a_label_names_the_first_missing() {
    let at = Span { start: 3, end: 30 };
    let error = missing_field(&path("Point"), &labels(&["x", "y", "z"]), &vec![field("x", 0)], at)
        .expect_err("`y` and `z` are missing");
    assert_eq!(error.message(), "`Point` needs a field named `y`");
    assert_eq!(error.span(), at);
    assert!(missing_field(&path("Point"), &labels(&["x"]), &vec![field("x", 0)], at).is_ok());
}

#[test]
fn a_variant_carrying_nothing_takes_no_field() {
    let built = build_without_fields(Type::plain("Empty"), &Vec::new()).expect("nothing written");
    assert_eq!(built, Type::plain("Empty"));
    let error = build_without_fields(Type::plain("Empty"), &vec![field("x", 12)]).expect_err("no fields");
    assert_eq!(error.message(), "`Empty` has no field named `x`");
    assert_eq!(error.span(), Span { start: 12, end: 13 });
}

#[test]
fn a_variant_carrying_values_in_order_names_none() {
    let error = built_without_labels(&path("Circle"), &Vec::new(), 1, &Type::plain("Shape"));
    assert_eq!(error.message(), "`Circle` takes 1 argument but 0 were given");
    let error = built_without_labels(&path("Circle"), &vec![field("radius", 9)], 1, &Type::plain("Shape"));
    assert_eq!(error.message(), "`Shape` has no field named `radius`");
}

#[test]
fn a_field_of_an_unknown_type_asks_for_a_declared_one() {
    let error = unreachable_field(&Type::Var(TypeVar(2)), &named("name", 5));
    assert_eq!(error.message(), "the type here is not known, so `name` cannot be found");
    let error = unreachable_field(&Type::integer(), &named("name", 5));
    assert_eq!(error.message(), "`Int` has no field named `name`");
}

#[test]
fn two_parameters_of_one_type_want_their_arguments_named() {
    let at = Span { start: 0, end: 12 };
    let error = held_apart(&named("move", 0), &vec![Type::string(), Type::integer(), Type::integer()], at)
        .expect_err("two `Int`s");
    assert_eq!(error.message(), "`move` gives two parameters the type `Int`, so this call names its arguments");
    assert_eq!(error.span(), at);
    assert!(held_apart(&named("move", 0), &vec![Type::string(), Type::integer()], at).is_ok());
}

#[test]
fn named_arguments_follow_the_order_of_the_parameters() {
    let declared = Function {
        name: named("area", 3),
        type_parameters: Vec::new(),
        parameters: vec![
            Parameter { name: named("width", 8), type_ref: None, span: Span { start: 8, end: 13 } },
            Parameter { name: named("height", 15), type_ref: None, span: Span { start: 15, end: 21 } },
        ],
        result: None,
        body: Block { statements: Vec::new(), span: Span { start: 23, end: 25 } },
        span: Span { start: 0, end: 25 },
    };
    let value = |start: usize| Expr { kind: ExprKind::Integer(2), span: Span { start, end: start + 1 } };
    let in_place = vec![
        Argument { label: Some(named("width", 40)), value: value(47) },
        Argument { label: Some(named("height", 50)), value: value(58) },
    ];
    assert!(in_order(&declared, &in_place).is_ok());
    let swapped = vec![
        Argument { label: Some(named("height", 40)), value: value(48) },
        Argument { label: Some(named("width", 51)), value: value(58) },
    ];
    let error = in_order(&declared, &swapped).expect_err("out of order");
    assert_eq!(error.message(), "this argument is named `height`, and the parameter here is `width`");
    assert_eq!(error.span(), Span { start: 40, end: 49 });
}

#[test]
fn a_call_is_a_call_of_the_name_it_writes() {
    let called = Expr { kind: ExprKind::Name(named("total", 0)), span: Span { start: 0, end: 5 } };
    assert_eq!(name_of(&called), Some(&named("total", 0)));
    let literal = Expr { kind: ExprKind::Integer(3), span: Span { start: 0, end: 1 } };
    assert_eq!(name_of(&literal), None);
}

#[test]
fn a_question_mark_hands_back_the_case_of_its_kind() {
    assert_eq!(propagated(&Type::option(Type::integer())), Some(Propagated::Absence));
    assert_eq!(propagated(&Type::result(Type::integer(), Type::string())), Some(Propagated::Failure));
    assert_eq!(propagated(&Type::integer()), None);
    assert_eq!(propagated(&Type::Unit), None);
}

#[test]
fn a_value_left_behind_is_refused_unless_it_is_unit() {
    assert!(not_discardable(&Type::Unit).is_none());
    match not_discardable(&Type::integer()) {
        Some(TypeErrorKind::Discarded(left)) => assert_eq!(left, Type::integer()),
        other => panic!("expected a discarded `Int`, found {other:?}"),
    }
}

#[test]
fn two_types_that_cannot_be_one_are_refused_with_both_solved() {
    let mut table = Table::new();
    let var = table.fresh();
    assert_eq!(unify(&mut table, &var, &Type::string()), Ok(()));
    let at = Span { start: 5, end: 9 };
    let error = expect(&mut table, &Type::integer(), &var, at).expect_err("`Int` is no `String`");
    assert_eq!(error.message(), "expected `Int`, found `String`");
    assert_eq!(error.span(), at);
    let other = table.fresh();
    let error = expect(&mut table, &other, &Type::list(other.copied()), at).expect_err("it would hold itself");
    assert_eq!(error.message(), "this would have a type that contains itself");
    assert!(expect(&mut table, &Type::string(), &var, at).is_ok());
}
