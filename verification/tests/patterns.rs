//! `_` binds nothing, and neither does any alternative of an or-pattern.

use lumen_check::ast::{Arm, Block, Expr, ExprKind, Function, Item, MatchExpr, Name, Parameter};
use lumen_check::ast::{Path, Pattern, PatternKind, Program, Span, Statement, StatementKind};
use lumen_check::ast::{TypeDeclaration, TypeDefinition, TypeRef, TypeRefKind, Variant, VariantPayload};
use lumen_check::definition::{DefinitionKind, Namespace};
use lumen_check::error::{ResolveError, ResolveErrorKind};
use lumen_check::resolve::program::ResolvedProgram;
use lumen_check::resolve::resolve;

fn at(source: &str, written: &str, occurrence: usize) -> Span {
    let start = source
        .match_indices(written)
        .nth(occurrence - 1)
        .unwrap_or_else(|| panic!("{source:?} writes {written:?} {occurrence} times"))
        .0;
    Span { start, end: start + written.len() }
}

fn name(source: &str, written: &str, occurrence: usize) -> Name {
    Name { text: written.to_owned(), span: at(source, written, occurrence) }
}

fn named_type(source: &str, written: &str, occurrence: usize) -> TypeRef {
    let name = name(source, written, occurrence);
    let span = name.span;
    TypeRef { kind: TypeRefKind::Named { path: Path { module: None, name }, arguments: Vec::new() }, span }
}

fn between(source: &str, from: &str, to: &str) -> Span {
    let start = source.find(from).expect("the source writes where it starts");
    let end = start + source[start..].find(to).expect("the source writes where it ends") + to.len();
    Span { start, end }
}

/// A bare name written in a pattern.
fn bare(source: &str, written: &str, occurrence: usize) -> Pattern {
    let name = name(source, written, occurrence);
    let span = name.span;
    Pattern { kind: PatternKind::Name(Path { module: None, name }), span }
}

/// A module declaring the payment type, with `arms` as the arms of the one `match`.
fn matching_source(arms: &str) -> String {
    format!(
        "fn describe(payment: Payment) -> String {{\n    match payment {{\n{arms}    }}\n}}\n\n\
         type Payment =\n    | Pending\n    | Running\n    | Failed(String)\n"
    )
}

/// The tree of that module, with the arms `arms` builds.
fn matching(source: &str, arms: Vec<Arm>) -> Program {
    let scrutinee = name(source, "payment", 2);
    let scrutinee_span = scrutinee.span;
    let body = Expr {
        kind: ExprKind::Match(MatchExpr {
            scrutinee: Box::new(Expr { kind: ExprKind::Name(scrutinee), span: scrutinee_span }),
            arms,
        }),
        span: between(source, "match", "    }"),
    };
    let statement = Statement { span: body.span, kind: StatementKind::Expr(body) };
    let describe = Function {
        name: name(source, "describe", 1),
        type_parameters: Vec::new(),
        parameters: vec![Parameter {
            name: name(source, "payment", 1),
            type_ref: Some(named_type(source, "Payment", 1)),
            span: between(source, "payment", "Payment"),
        }],
        result: Some(named_type(source, "String", 1)),
        body: Block { statements: vec![statement], span: between(source, "{", "\n}") },
        span: between(source, "fn", "\n}"),
    };
    let declared_at = source.find("type Payment").expect("the type is declared");
    let pending = source[declared_at..].find("Pending").expect("a variant") + declared_at;
    let running = source[declared_at..].find("Running").expect("a variant") + declared_at;
    let failed = source[declared_at..].find("Failed").expect("a variant") + declared_at;
    let payment_at = source[declared_at..].find("Payment").expect("the name") + declared_at;
    let carried = source[declared_at..].find("String").expect("a payload") + declared_at;
    let payment = TypeDeclaration {
        name: Name { text: "Payment".to_owned(), span: Span { start: payment_at, end: payment_at + 7 } },
        parameters: Vec::new(),
        definition: TypeDefinition::Variants(vec![
            Variant { name: Name { text: "Pending".to_owned(), span: Span { start: pending, end: pending + 7 } }, payload: VariantPayload::Bare },
            Variant { name: Name { text: "Running".to_owned(), span: Span { start: running, end: running + 7 } }, payload: VariantPayload::Bare },
            Variant {
                name: Name { text: "Failed".to_owned(), span: Span { start: failed, end: failed + 6 } },
                payload: VariantPayload::Tuple(vec![TypeRef {
                    kind: TypeRefKind::Named {
                        path: Path { module: None, name: Name { text: "String".to_owned(), span: Span { start: carried, end: carried + 6 } } },
                        arguments: Vec::new(),
                    },
                    span: Span { start: carried, end: carried + 6 },
                }]),
            },
        ]),
        span: Span { start: declared_at, end: source.len() },
    };
    Program { items: vec![Item::Function(describe), Item::Type(payment)] }
}

fn text(source: &str, span: Span) -> &str {
    &source[span.start..span.end]
}

fn waiting(source: &str, occurrence: usize) -> Expr {
    Expr { kind: ExprKind::String("waiting".to_owned()), span: at(source, "\"waiting\"", occurrence) }
}

fn refusal(program: Program) -> ResolveError {
    match resolve(program, "demo", &Program { items: Vec::new() }) {
        Ok(_) => panic!("the module is refused"),
        Err(error) => error,
    }
}

fn resolved(program: Program) -> ResolvedProgram {
    match resolve(program, "demo", &Program { items: Vec::new() }) {
        Ok(resolved) => resolved,
        Err(error) => panic!("the module resolves: {}", error.message()),
    }
}

#[test]
fn the_help_of_a_binding_inside_an_or_pattern_says_to_write_one_arm_for_each() {
    let source = matching_source("        Pending | anything => \"waiting\"\n");
    let either = Pattern {
        kind: PatternKind::Or(vec![bare(&source, "Pending", 1), bare(&source, "anything", 1)]),
        span: between(&source, "Pending |", "anything"),
    };
    let program = matching(&source, vec![Arm { pattern: either, body: waiting(&source, 1) }]);

    assert_eq!(refusal(program).help(), "write one arm for each alternative where one of them binds");
}

#[test]
fn a_name_that_binds_inside_an_or_pattern_is_refused_where_it_is_written() {
    let source = matching_source("        Pending | anything => \"waiting\"\n");
    let either = Pattern {
        kind: PatternKind::Or(vec![bare(&source, "Pending", 1), bare(&source, "anything", 1)]),
        span: between(&source, "Pending |", "anything"),
    };
    let program = matching(&source, vec![Arm { pattern: either, body: waiting(&source, 1) }]);
    let refused = refusal(program);

    assert_eq!(refused.message(), "`anything` binds inside an or-pattern, which binds nothing");
    assert_eq!(text(&source, refused.span()), "anything");
    assert_eq!(refused.kind, ResolveErrorKind::BindsInsideOr("anything".to_owned()));
}

#[test]
fn a_name_that_binds_inside_a_constructor_of_an_alternative_is_refused_as_well() {
    let source = matching_source("        Pending | Failed(reason) => \"waiting\"\n");
    let failed = Pattern {
        kind: PatternKind::Tuple {
            path: Path { module: None, name: name(&source, "Failed", 1) },
            elements: vec![bare(&source, "reason", 1)],
        },
        span: between(&source, "Failed(", ")"),
    };
    let either = Pattern {
        kind: PatternKind::Or(vec![bare(&source, "Pending", 1), failed]),
        span: between(&source, "Pending |", ")"),
    };
    let program = matching(&source, vec![Arm { pattern: either, body: waiting(&source, 1) }]);

    assert_eq!(refusal(program).message(), "`reason` binds inside an or-pattern, which binds nothing");
}

#[test]
fn an_underscore_declares_no_name_for_the_arm_to_look_up() {
    let source = matching_source("        _ => \"whatever\"\n");
    let underscore = Pattern { kind: PatternKind::Wildcard, span: at(&source, "_", 1) };
    let body = Expr { kind: ExprKind::String("whatever".to_owned()), span: at(&source, "\"whatever\"", 1) };
    let program = matching(&source, vec![Arm { pattern: underscore, body }]);

    resolved(program);
}

#[test]
fn an_alternative_naming_a_variant_means_the_declaration_it_names() {
    let source = matching_source("        Pending | Running => \"waiting\"\n        _ => \"other\"\n");
    let either = Pattern {
        kind: PatternKind::Or(vec![bare(&source, "Pending", 1), bare(&source, "Running", 1)]),
        span: between(&source, "Pending |", "Running"),
    };
    let underscore = Pattern { kind: PatternKind::Wildcard, span: at(&source, "_", 1) };
    let other = Expr { kind: ExprKind::String("other".to_owned()), span: at(&source, "\"other\"", 1) };
    let program = matching(
        &source,
        vec![Arm { pattern: either, body: waiting(&source, 1) }, Arm { pattern: underscore, body: other }],
    );
    let found = resolved(program);

    let named = found
        .definition(Namespace::Value, &name(&source, "Pending", 1))
        .expect("the alternative names the variant");
    assert_eq!(named.kind, DefinitionKind::Constructor);
}

#[test]
fn a_name_that_binds_outside_an_or_pattern_binds_as_it_always_did() {
    let source = matching_source("        anything => \"waiting\"\n");
    let program = matching(&source, vec![Arm { pattern: bare(&source, "anything", 1), body: waiting(&source, 1) }]);
    let found = resolved(program);

    let bound = found
        .definition(Namespace::Value, &name(&source, "anything", 1))
        .expect("the name binds");
    assert_eq!(bound.kind, DefinitionKind::Local);
}
