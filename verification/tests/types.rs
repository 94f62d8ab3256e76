//! The type side of the compiler on values written by hand: types, unification, schemes, and
//! the refusals with their words.

use lumen_check::ast::{Expr, ExprKind, Item, JavaName, Name, Path, Program, RecordField, Span};
use lumen_check::ast::{BinaryOperator, TypeDeclaration, TypeDefinition, TypeRef, TypeRefKind};
use lumen_check::boundary::{self, Crossing};
use lumen_check::bounds::Bounds;
use lumen_check::code::Code;
use lumen_check::holds::nothing_holds_itself;
use lumen_check::naming;
use lumen_check::operators;
use lumen_check::scheme::{replace, Quantified, Scheme};
use lumen_check::supplied;
use lumen_check::table::Table;
use lumen_check::text;
use lumen_check::type_error::{Count, TypeError, TypeErrorKind};
use lumen_check::types::{Type, TypeParameter, TypeVar};
use lumen_check::unify::{unify, Clash};

fn span(start: usize, end: usize) -> Span {
    Span { start, end }
}

fn named(text: &str, start: usize) -> Name {
    Name { text: text.to_owned(), span: span(start, start + text.len()) }
}

fn written(text: &str, start: usize, arguments: Vec<TypeRef>) -> TypeRef {
    let name = named(text, start);
    let span = name.span;
    TypeRef { kind: TypeRefKind::Named { path: Path { module: None, name }, arguments }, span }
}

fn record(name: &str, start: usize, fields: Vec<(&str, TypeRef)>) -> Item {
    let fields = fields
        .into_iter()
        .map(|(field, type_ref)| RecordField { name: named(field, start + 20), type_ref })
        .collect();
    Item::Type(TypeDeclaration {
        name: named(name, start),
        parameters: Vec::new(),
        definition: TypeDefinition::Record(fields),
        span: span(start, start + 40),
    })
}

fn parameter(name: &str) -> Type {
    Type::Parameter(TypeParameter::prelude(name))
}

#[test]
fn a_type_is_shown_as_it_is_written() {
    let function = Type::function(vec![Type::integer(), Type::list(Type::string())], Type::boolean());
    assert_eq!(function.shown(), "(Int, List<String>) -> Bool");
    assert_eq!(Type::result(Type::integer(), Type::string()).shown(), "Result<Int, String>");
    assert_eq!(Type::Var(TypeVar(3)).shown(), "_");
    assert_eq!(Type::Unit.shown(), "()");
    assert_eq!(Type::option(parameter("T")).shown(), "Option<T>");
}

#[test]
fn a_variable_unified_with_a_type_is_solved_as_that_type() {
    let mut table = Table::new();
    let var = table.fresh();
    let list = Type::list(Type::integer());
    assert_eq!(unify(&mut table, &var, &list), Ok(()));
    assert_eq!(table.solved(&var), Type::list(Type::integer()));
}

#[test]
fn two_unified_types_solve_to_one_type() {
    let mut table = Table::new();
    let first = table.fresh();
    let second = table.fresh();
    let expected = Type::function(vec![first.copied()], Type::string());
    let found = Type::function(vec![Type::integer()], second.copied());
    assert_eq!(unify(&mut table, &expected, &found), Ok(()));
    assert_eq!(table.solved(&expected), table.solved(&found));
    assert_eq!(table.solved(&first), Type::integer());
    assert_eq!(table.solved(&second), Type::string());
}

#[test]
fn two_different_types_are_a_mismatch() {
    let mut table = Table::new();
    assert_eq!(unify(&mut table, &Type::integer(), &Type::string()), Err(Clash::Mismatch));
    assert_eq!(
        unify(&mut table, &Type::list(Type::integer()), &Type::option(Type::integer())),
        Err(Clash::Mismatch)
    );
    assert_eq!(
        unify(&mut table, &Type::function(vec![Type::integer()], Type::Unit), &Type::function(Vec::new(), Type::Unit)),
        Err(Clash::Mismatch)
    );
}

#[test]
fn a_type_that_would_contain_itself_is_infinite() {
    let mut table = Table::new();
    let var = table.fresh();
    let holding = Type::list(var.copied());
    assert_eq!(unify(&mut table, &var, &holding), Err(Clash::Infinite));
}

#[test]
fn what_is_unified_stays_unified_after_more_is_settled() {
    let mut table = Table::new();
    let first = table.fresh();
    let second = table.fresh();
    assert_eq!(unify(&mut table, &first, &second), Ok(()));
    assert_eq!(table.solved(&first), table.solved(&second));
    assert_eq!(unify(&mut table, &second, &Type::boolean()), Ok(()));
    assert_eq!(table.solved(&first), Type::boolean());
    assert_eq!(table.solved(&second), Type::boolean());
}

#[test]
fn solving_a_solved_type_changes_nothing() {
    let mut table = Table::new();
    let first = table.fresh();
    let second = table.fresh();
    assert_eq!(unify(&mut table, &first, &Type::list(second.copied())), Ok(()));
    let once = table.solved(&first);
    assert_eq!(table.solved(&once), once);
    assert_eq!(once, Type::list(Type::Var(TypeVar(1))));
}

#[test]
fn a_parameter_unifies_with_itself_and_nothing_else() {
    let mut table = Table::new();
    assert_eq!(unify(&mut table, &parameter("T"), &parameter("T")), Ok(()));
    assert_eq!(unify(&mut table, &parameter("T"), &parameter("U")), Err(Clash::Mismatch));
    assert_eq!(unify(&mut table, &parameter("T"), &Type::integer()), Err(Clash::Mismatch));
}

#[test]
fn a_scheme_is_instantiated_with_one_fresh_variable_for_each_parameter() {
    let mut table = Table::new();
    let identity = Scheme::over(
        vec![Quantified::Parameter(TypeParameter::prelude("T"))],
        Type::function(vec![parameter("T")], parameter("T")),
    );
    let first = identity.instantiate(&mut table);
    let second = identity.instantiate(&mut table);
    assert_eq!(first, Type::function(vec![Type::Var(TypeVar(0))], Type::Var(TypeVar(0))));
    assert_eq!(second, Type::function(vec![Type::Var(TypeVar(1))], Type::Var(TypeVar(1))));
}

#[test]
fn a_monomorphic_scheme_is_its_body_at_every_use() {
    let mut table = Table::new();
    let scheme = Scheme::monomorphic(Type::list(Type::string()));
    assert_eq!(scheme.instantiate(&mut table), Type::list(Type::string()));
}

#[test]
fn replacing_with_nothing_given_leaves_a_type_as_it_was() {
    let within = Type::function(vec![parameter("T"), Type::list(parameter("U"))], parameter("T"));
    assert_eq!(replace(&within, &Vec::new()), within);
}

#[test]
fn a_given_parameter_is_replaced_wherever_it_stands() {
    let within = Type::function(vec![parameter("T"), Type::list(parameter("U"))], parameter("T"));
    let given = vec![(Quantified::Parameter(TypeParameter::prelude("T")), Type::integer())];
    assert_eq!(
        replace(&within, &given),
        Type::function(vec![Type::integer(), Type::list(parameter("U"))], Type::integer())
    );
}

#[test]
fn a_mismatch_names_both_types() {
    let kind = TypeErrorKind::Mismatch { expected: Type::integer(), found: Type::list(Type::string()) };
    let error = TypeError::at(span(4, 9), kind);
    assert_eq!(error.message(), "expected `Int`, found `List<String>`");
    assert_eq!(error.help(), "one type is not another, however alike they are held");
    assert_eq!(error.code(), Code::TypeMismatch);
    assert_eq!(error.span(), span(4, 9));
}

#[test]
fn a_count_says_argument_or_arguments_and_was_or_were() {
    let one = TypeErrorKind::WrongArgumentCount(Count { name: "f".to_owned(), takes: 1, given: 2 });
    assert_eq!(one.message(), "`f` takes 1 argument but 2 were given");
    let none = TypeErrorKind::WrongTypeArgumentCount(Count { name: "List".to_owned(), takes: 1, given: 0 });
    assert_eq!(none.message(), "`List` takes 1 type argument but 0 were given");
    let many = TypeErrorKind::WrongArgumentCount(Count { name: "g".to_owned(), takes: 3, given: 1 });
    assert_eq!(many.message(), "`g` takes 3 arguments but 1 was given");
    assert_eq!(many.code(), Code::WrongArgumentCount);
    assert_eq!(none.code(), Code::WrongArgumentCount);
    assert_eq!(none.help(), "a type is written with one argument for each the declaration lists");
}

#[test]
fn a_literal_that_does_not_fit_names_what_the_type_holds() {
    let kind = TypeErrorKind::LiteralDoesNotFit {
        value: -129,
        at: Type::plain("Byte"),
        lowest: -128,
        highest: 127,
    };
    assert_eq!(kind.message(), "`-129` does not fit `Byte`, which holds `-128` to `127`");
    assert_eq!(kind.code(), Code::LiteralDoesNotFit);
}

#[test]
fn a_type_with_no_eq_is_told_to_derive_it() {
    let kind = TypeErrorKind::NoOperator { written_as: "==", of: "Eq".to_owned(), at: Type::plain("User") };
    assert_eq!(kind.message(), "`User` has no `Eq`, so `==` is not written over it");
    assert_eq!(kind.help(), "`User` gets one by deriving it: write `derive Eq for User`");
    assert_eq!(kind.derived_instead(), Some("`User` gets one by deriving it: write `derive Eq for User`".to_owned()));
}

#[test]
fn a_type_with_arguments_and_no_eq_gets_the_stated_help() {
    let kind = TypeErrorKind::NoOperator { written_as: "==", of: "Eq".to_owned(), at: Type::list(Type::integer()) };
    assert_eq!(kind.derived_instead(), None);
    assert_eq!(
        kind.help(),
        "an operator is a trait method, so a type gets one by writing that trait's instance"
    );
    let ordered = TypeErrorKind::NoOperator { written_as: "<", of: "Ord".to_owned(), at: Type::plain("User") };
    assert_eq!(ordered.derived_instead(), None);
}

#[test]
fn a_ring_of_holdings_names_each_type_it_runs_through() {
    let kind = TypeErrorKind::HoldsItself { ring: vec!["A".to_owned(), "B".to_owned(), "C".to_owned()] };
    assert_eq!(kind.message(), "`A` holds `B`, which holds `C`, which holds `A`");
    assert_eq!(kind.code(), Code::HoldsItself);
}

#[test]
fn the_words_of_a_module_refusal() {
    let missing = TypeErrorKind::NotInModule { module: "io".to_owned(), name: "write".to_owned() };
    assert_eq!(missing.message(), "`io` declares no `write`");
    let kept = TypeErrorKind::TypeOfAnotherModule {
        module: "users".to_owned(),
        name: "find".to_owned(),
        declared: "User".to_owned(),
    };
    assert_eq!(kept.message(), "`users.find` names `User`, which `users` keeps to itself");
    let generic = TypeErrorKind::GenericThroughModule { module: "lists".to_owned(), name: "first".to_owned() };
    assert_eq!(generic.message(), "`lists.first` is generic, so `lists` alone writes it");
}

#[test]
fn the_words_of_how_a_call_is_written() {
    let flag = TypeErrorKind::FlagParameter("save".to_owned());
    assert_eq!(flag.message(), "this parameter is a `Bool`, so a call of `save` passes `true` and says no more");
    assert_eq!(flag.code(), Code::FlagParameter);
    let predicate = TypeErrorKind::NotAPredicate("valid".to_owned());
    assert_eq!(predicate.message(), "`valid` gives back a `Bool`, so its name asks the question it answers");
    assert_eq!(predicate.help(), "begin the name with `is_`, `has_`, `can_`, or `should_`");
    let unnamed = TypeErrorKind::Unnamed { function: "move".to_owned(), repeated: Type::integer() };
    assert_eq!(unnamed.message(), "`move` gives two parameters the type `Int`, so this call names its arguments");
    assert_eq!(TypeErrorKind::NamedPrelude("length".to_owned()).code(), Code::Unnameable);
    assert_eq!(TypeErrorKind::NamedConstructor("Some".to_owned()).code(), Code::Unnameable);
}

#[test]
fn records_that_hold_each_other_are_refused_at_the_first() {
    let program = Program {
        items: vec![
            record("A", 0, vec![("b", written("B", 30, Vec::new()))]),
            record("B", 100, vec![("a", written("A", 130, Vec::new()))]),
        ],
    };
    let error = nothing_holds_itself(&program).expect_err("the two hold each other");
    assert_eq!(error.message(), "`A` holds `B`, which holds `A`");
    assert_eq!(error.span(), span(0, 1));
    assert_eq!(error.code(), Code::HoldsItself);
}

#[test]
fn a_record_holding_itself_through_an_option_is_accepted() {
    let program = Program {
        items: vec![record(
            "Node",
            0,
            vec![("next", written("Option", 30, vec![written("Node", 37, Vec::new())]))],
        )],
    };
    assert!(nothing_holds_itself(&program).is_ok());
}

#[test]
fn a_record_holding_itself_directly_is_refused() {
    let program = Program { items: vec![record("Loop", 5, vec![("again", written("Loop", 30, Vec::new()))])] };
    let error = nothing_holds_itself(&program).expect_err("it holds itself");
    assert_eq!(error.message(), "`Loop` holds `Loop`");
}

#[test]
fn the_bounds_of_an_int_hold_every_whole_number() {
    let bounds = Bounds::of_int();
    assert!(bounds.holds(i64::MIN));
    assert!(bounds.holds(i64::MAX));
    let byte = Bounds { lowest: 0, highest: 255 };
    assert!(byte.holds(0));
    assert!(byte.holds(255));
    assert!(!byte.holds(256));
    assert!(!byte.holds(-1));
}

#[test]
fn a_predicate_name_asks_one_of_four_questions() {
    assert!(naming::asks_a_question("is_empty"));
    assert!(naming::asks_a_question("has_items"));
    assert!(naming::asks_a_question("can_retry"));
    assert!(naming::asks_a_question("should_stop"));
    assert!(!naming::asks_a_question("valid"));
    assert!(!naming::asks_a_question("is"));
    assert!(!naming::asks_a_question("island"));
}

#[test]
fn a_function_giving_back_a_bool_under_another_name_is_refused() {
    let refused = naming::named_for_its_result(&Type::boolean(), &named("valid", 3)).expect_err("not a question");
    assert_eq!(refused.code(), Code::NotAPredicate);
    assert_eq!(refused.span(), span(3, 8));
    assert!(naming::named_for_its_result(&Type::boolean(), &named("is_valid", 3)).is_ok());
    assert!(naming::named_for_its_result(&Type::integer(), &named("total", 3)).is_ok());
}

#[test]
fn an_operator_is_the_trait_it_asks_for() {
    let equal = operators::asked_by(BinaryOperator::Equal).expect("`==` asks for `Eq`");
    assert_eq!((equal.of, equal.written_as), ("Eq", "=="));
    let less = operators::asked_by(BinaryOperator::Less).expect("`<` asks for `Ord`");
    assert_eq!((less.of, less.written_as), ("Ord", "<"));
    assert!(operators::asked_by(BinaryOperator::And).is_none());
    assert!(operators::asked_by(BinaryOperator::Or).is_none());
}

#[test]
fn a_division_gives_back_an_option_and_a_comparison_a_bool() {
    assert_eq!(operators::gives_back(BinaryOperator::Divide, Type::integer()), Type::option(Type::integer()));
    assert_eq!(operators::gives_back(BinaryOperator::Remainder, Type::integer()), Type::option(Type::integer()));
    assert_eq!(operators::gives_back(BinaryOperator::Less, Type::integer()), Type::boolean());
    assert_eq!(operators::gives_back(BinaryOperator::Add, Type::string()), Type::string());
}

#[test]
fn a_division_by_a_written_zero_is_refused() {
    let zero = Expr { kind: ExprKind::Integer(0), span: span(8, 9) };
    let error = operators::divides_by_zero(&zero).expect_err("no answer by zero");
    assert_eq!(error.message(), "this divisor is zero, so there is no answer");
    assert_eq!(error.code(), Code::DivisorIsZero);
    let two = Expr { kind: ExprKind::Integer(2), span: span(8, 9) };
    assert!(operators::divides_by_zero(&two).is_ok());
}

#[test]
fn the_compiler_supplies_io_and_files() {
    assert!(supplied::supplies("io"));
    assert!(supplied::supplies("files"));
    assert!(!supplied::supplies("users"));
    assert_eq!(
        supplied::declared("io", "println"),
        Some(Type::function(vec![Type::string()], Type::Unit))
    );
    assert_eq!(
        supplied::declared("files", "read"),
        Some(Type::function(vec![Type::string()], Type::result(Type::string(), Type::string())))
    );
    assert_eq!(supplied::declared("io", "read"), None);
}

#[test]
fn a_java_class_name_is_dotted_names_none_opening_with_a_digit() {
    let good = JavaName { text: "java.util.ArrayList".to_owned(), span: span(0, 19) };
    assert!(boundary::class(&good).is_ok());
    let dollar = JavaName { text: "com.acme.Outer$Inner".to_owned(), span: span(0, 20) };
    assert!(boundary::class(&dollar).is_ok());
    let digit = JavaName { text: "java.2d.Shape".to_owned(), span: span(3, 16) };
    let error = boundary::class(&digit).expect_err("a segment opens with a digit");
    assert_eq!(error.message(), "`java.2d.Shape` is no Java name");
    assert_eq!(error.code(), Code::NotAJavaName);
    assert_eq!(error.span(), span(3, 16));
    let empty_segment = JavaName { text: "java..List".to_owned(), span: span(0, 10) };
    assert!(boundary::class(&empty_segment).is_err());
    let accented = JavaName { text: "café.Menü".to_owned(), span: span(0, 11) };
    assert!(boundary::class(&accented).is_ok());
}

#[test]
fn a_boundary_carries_ints_strings_bools_and_lists_of_them() {
    let foreign = Vec::new();
    assert!(boundary::crosses(&Type::integer(), Crossing::Taken, &foreign, span(0, 3)).is_ok());
    assert!(boundary::crosses(&Type::list(Type::string()), Crossing::Taken, &foreign, span(0, 3)).is_ok());
    let refused = boundary::crosses(&Type::plain("User"), Crossing::Taken, &foreign, span(4, 8))
        .expect_err("a `User` crosses no boundary");
    assert_eq!(refused.code(), Code::DoesNotCross);
    assert_eq!(refused.span(), span(4, 8));
}

#[test]
fn decimals_are_written_with_their_sign() {
    assert_eq!(text::decimal_of(0), "0");
    assert_eq!(text::decimal_of(1207), "1207");
    assert_eq!(text::signed_decimal_of(-45), "-45");
    assert_eq!(text::signed_decimal_of(i64::MIN), "-9223372036854775808");
    assert_eq!(text::count_of(12), "12");
}

#[test]
fn a_renamed_scheme_renames_its_body_and_what_it_requires_and_keeps_what_it_is_over() {
    let body = Type::function(vec![Type::plain("User")], Type::Var(TypeVar(0)));
    let scheme = Scheme::over(vec![Quantified::Var(TypeVar(0))], body)
        .requiring(vec![lumen_check::scheme::Required { trait_name: "Eq".to_owned(), at: Type::plain("User") }]);
    let rename = |t: &Type| if *t == Type::plain("User") { Type::plain("demo.User") } else { Type::Unit };
    let renamed = scheme.renamed(&rename);
    assert_eq!(renamed.quantified, vec![Quantified::Var(TypeVar(0))]);
    assert_eq!(renamed.body, Type::Unit);
    assert_eq!(renamed.required[0].trait_name, "Eq");
    assert_eq!(renamed.required[0].at, Type::plain("demo.User"));
}

#[test]
fn a_whole_number_meets_only_a_type_a_number_is_written_at() {
    let mut table = Table::new();
    table.whole_numbers_are_written_at(vec!["Int".to_owned()]);
    let number = table.fresh_whole_number();
    assert_eq!(unify(&mut table, &number, &Type::string()), Err(Clash::Mismatch));
    assert_eq!(table.solved(&number), number);
    assert_eq!(unify(&mut table, &Type::integer(), &number), Ok(()));
    assert_eq!(table.solved(&number), Type::integer());
}

#[test]
fn two_types_already_one_unify_settling_nothing() {
    let mut table = Table::new();
    let var = table.fresh();
    let list = Type::list(var.copied());
    assert_eq!(unify(&mut table, &list, &list.copied()), Ok(()));
    assert_eq!(table.solved(&var), var);
}

#[test]
fn unsettled_variables_come_in_the_order_they_are_first_written() {
    let mut table = Table::new();
    let a = table.fresh();
    let b = table.fresh();
    let c = table.fresh();
    assert_eq!(unify(&mut table, &c, &Type::list(b.copied())), Ok(()));
    let of = Type::function(vec![c.copied(), a.copied()], Type::list(b.copied()));
    let mut into = vec![TypeVar(7)];
    table.unsettled(&of, &mut into);
    let (Type::Var(a), Type::Var(b)) = (a, b) else { panic!("fresh variables are variables") };
    assert_eq!(into, vec![TypeVar(7), b, a]);
}

#[test]
fn a_java_segment_opens_with_a_letter_and_goes_on_with_letters_and_digits() {
    assert!(boundary::opens_a_segment('j') && boundary::opens_a_segment('_') && boundary::opens_a_segment('$'));
    assert!(!boundary::opens_a_segment('9') && !boundary::opens_a_segment('.') && !boundary::opens_a_segment('-'));
    assert!(boundary::continues_a_segment('1') && boundary::continues_a_segment('x'));
    assert!(!boundary::continues_a_segment('.') && !boundary::continues_a_segment('-'));
}

#[test]
fn types_of_one_head_unify_their_arguments_in_order() {
    let mut table = Table::new();
    let held = table.fresh();
    assert_eq!(unify(&mut table, &Type::list(held.copied()), &Type::list(Type::integer())), Ok(()));
    assert_eq!(table.solved(&held), Type::integer());
    let first = table.fresh();
    let expected = Type::function(vec![first.copied(), Type::string()], first.copied());
    let found = Type::function(vec![Type::boolean(), Type::integer()], Type::boolean());
    assert_eq!(unify(&mut table, &expected, &found), Err(Clash::Mismatch));
    assert_eq!(table.solved(&first), Type::boolean());
}
