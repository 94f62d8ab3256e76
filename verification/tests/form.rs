//! The printed form of a resolved module and of a refusal, built over trees written by hand.

use lumen_check::ast::{Block, Expr, ExprKind, Function, Item, Name, Parameter, Path, Program};
use lumen_check::ast::{RecordField, Span, Statement, StatementKind, TypeDeclaration};
use lumen_check::ast::{TypeDefinition, TypeRef, TypeRefKind, TypeParameter, Variant, VariantPayload};
use lumen_check::ast::{Argument, TraitDeclaration, Signature};
use lumen_check::code::Code;
use lumen_check::definition::{Definition, DefinitionKind, Namespace, Origin};
use lumen_check::error::ResolveError;
use lumen_check::resolve::program::ResolvedProgram;
use lumen_check::resolve::{prelude_resolved, resolve};

/// The name a fixture is resolved as, which nothing that is printed depends on.
const MODULE: &str = "main";

/// Where the `occurrence`-th `written` stands in `source`, counting from one.
fn at(source: &str, written: &str, occurrence: usize) -> Span {
    let start = source
        .match_indices(written)
        .nth(occurrence - 1)
        .unwrap_or_else(|| panic!("{source:?} writes {written:?} {occurrence} times"))
        .0;
    Span { start, end: start + written.len() }
}

fn name(source: &str, written: &str, occurrence: usize) -> Name {
    Name { text: written.to_owned(), span: at(source, written, occurrence) }
}

fn named_type(source: &str, written: &str, occurrence: usize) -> TypeRef {
    let name = name(source, written, occurrence);
    let span = name.span;
    TypeRef { kind: TypeRefKind::Named { path: Path { module: None, name }, arguments: Vec::new() }, span }
}

fn applied_type(source: &str, written: &str, occurrence: usize, arguments: Vec<TypeRef>) -> TypeRef {
    let name = name(source, written, occurrence);
    let span = name.span;
    TypeRef { kind: TypeRefKind::Named { path: Path { module: None, name }, arguments }, span }
}

fn name_expr(source: &str, written: &str, occurrence: usize) -> Expr {
    let name = name(source, written, occurrence);
    let span = name.span;
    Expr { kind: ExprKind::Name(name), span }
}

fn statement(expr: Expr) -> Statement {
    let span = expr.span;
    Statement { kind: StatementKind::Expr(expr), span }
}

/// The span from the first `from` to the end of the first `to` after it.
fn between(source: &str, from: &str, to: &str) -> Span {
    let start = source.find(from).expect("the source writes where it starts");
    let end = start + source[start..].find(to).expect("the source writes where it ends") + to.len();
    Span { start, end }
}

fn shown(span: Span) -> String {
    format!("{}..{}", span.start, span.end)
}

/// The word of a namespace, which also sorts a `type` line above a `value` line at one span.
fn namespace_word(namespace: Namespace) -> &'static str {
    match namespace {
        Namespace::Type => "type",
        Namespace::Value => "value",
    }
}

fn kind_word(kind: DefinitionKind) -> &'static str {
    match kind {
        DefinitionKind::Module => "module",
        DefinitionKind::Type => "type",
        DefinitionKind::Trait => "trait",
        DefinitionKind::TypeParameter => "type-parameter",
        DefinitionKind::Constructor => "constructor",
        DefinitionKind::Function => "function",
        DefinitionKind::TraitMethod => "trait-method",
        DefinitionKind::Parameter => "parameter",
        DefinitionKind::Local => "local",
        DefinitionKind::Variable => "variable",
    }
}

fn origin_words(origin: Origin) -> String {
    match origin {
        Origin::Prelude => "prelude".to_owned(),
        Origin::Declared(declared) => format!("declared {}", shown(declared)),
    }
}

/// The number a refusal's code is printed with.
fn number(code: Code) -> &'static str {
    match code {
        Code::UnresolvedName => "L0300",
        Code::NameDeclaredTwice => "L0301",
        Code::NameShadowed => "L0302",
        Code::DefinitionBeforeUse => "L0303",
        _ => "L03xx",
    }
}

/// `resolved`, then each name that has a definition, in the order of the spans.
fn render_resolved(resolved: &ResolvedProgram) -> String {
    let mut lines: Vec<(Namespace, Span, Definition)> = resolved.resolutions();
    lines.sort_by_key(|(namespace, span, _)| (span.start, namespace_word(*namespace)));
    let mut written = "resolved\n".to_owned();
    for (namespace, span, definition) in lines {
        written.push_str(&format!(
            "{} {} {} {}\n",
            shown(span),
            namespace_word(namespace),
            kind_word(definition.kind),
            origin_words(definition.origin)
        ));
    }
    written
}

/// `refused`, then the code, the span, and the message, then the help.
fn render_refusal(error: &ResolveError) -> String {
    format!(
        "refused\n{} {} {}\nhelp: {}\n",
        number(error.code()),
        shown(error.span()),
        error.message(),
        error.help()
    )
}

fn render(program: Program) -> String {
    match resolve(program, MODULE, &Program { items: Vec::new() }) {
        Ok(resolved) => render_resolved(&resolved),
        Err(error) => render_refusal(&error),
    }
}

/// A small prelude: a type with a parameter, a trait over one, and a function reading a list
/// with the `at` the compiler holds for the prelude.
fn prelude_source() -> &'static str {
    "fn first<U>(values: List<U>) -> Option<U> {\n    at(values, 0)\n}\n\ntype Option<T> =\n    | Some(T)\n    | None\n\ntrait Eq<T> {\n    fn is_equal(one: T, other: T) -> Bool\n}\n"
}

fn prelude_program() -> Program {
    let source = prelude_source();
    let option = TypeDeclaration {
        name: name(source, "Option", 2),
        parameters: vec![name(source, "T", 1)],
        definition: TypeDefinition::Variants(vec![
            Variant {
                name: name(source, "Some", 1),
                payload: VariantPayload::Tuple(vec![named_type(source, "T", 2)]),
            },
            Variant { name: name(source, "None", 1), payload: VariantPayload::Bare },
        ]),
        span: between(source, "type Option", "None"),
    };
    let eq = TraitDeclaration {
        name: name(source, "Eq", 1),
        parameter: name(source, "T", 3),
        methods: vec![Signature {
            name: name(source, "is_equal", 1),
            parameters: vec![
                Parameter { name: name(source, "one", 1), type_ref: Some(named_type(source, "T", 4)), span: at(source, "one", 1) },
                Parameter { name: name(source, "other", 1), type_ref: Some(named_type(source, "T", 5)), span: at(source, "other", 1) },
            ],
            result: Some(named_type(source, "Bool", 1)),
        }],
        span: between(source, "trait", "}"),
    };
    let call = Expr {
        kind: ExprKind::Call {
            callee: Box::new(name_expr(source, "at", 1)),
            arguments: vec![
                Argument { label: None, value: name_expr(source, "values", 2) },
                Argument { label: None, value: Expr { kind: ExprKind::Integer(0), span: at(source, "0", 1) } },
            ],
        },
        span: between(source, "at(", ")"),
    };
    let first = Function {
        name: name(source, "first", 1),
        type_parameters: vec![TypeParameter { name: name(source, "U", 1), constraint: None }],
        parameters: vec![Parameter {
            name: name(source, "values", 1),
            type_ref: Some(applied_type(source, "List", 1, vec![named_type(source, "U", 2)])),
            span: at(source, "values", 1),
        }],
        result: Some(applied_type(source, "Option", 1, vec![named_type(source, "U", 3)])),
        body: Block { statements: vec![statement(call)], span: between(source, "{\n    at", "}") },
        span: between(source, "fn first", "}"),
    };
    Program { items: vec![Item::Function(first), Item::Type(option), Item::Trait(eq)] }
}

/// What the resolver says of the prelude, which is resolved with the names the JVM holds.
fn render_prelude() -> String {
    match prelude_resolved(prelude_program()) {
        Ok(resolved) => render_resolved(&resolved),
        Err(error) => render_refusal(&error),
    }
}

#[test]
fn a_resolved_module_prints_each_name_in_the_order_of_its_span() {
    let source = "fn f(id: Id) -> Id {\n    id\n}\n\ntype Id = {\n    value: Int\n}\n";
    let function = Function {
        name: name(source, "f", 2),
        type_parameters: Vec::new(),
        parameters: vec![Parameter {
            name: name(source, "id", 1),
            type_ref: Some(named_type(source, "Id", 1)),
            span: between(source, "id", "Id"),
        }],
        result: Some(named_type(source, "Id", 2)),
        body: Block { statements: vec![statement(name_expr(source, "id", 2))], span: between(source, "{", "}") },
        span: between(source, "fn", "}"),
    };
    let declaration = TypeDeclaration {
        name: name(source, "Id", 3),
        parameters: Vec::new(),
        definition: TypeDefinition::Record(vec![RecordField {
            name: name(source, "value", 1),
            type_ref: named_type(source, "Int", 1),
        }]),
        span: between(source, "type", "Int\n}"),
    };
    let program = Program { items: vec![Item::Function(function), Item::Type(declaration)] };

    assert_eq!(
        render(program),
        [
            "resolved\n",
            "3..4 value function declared 3..4\n",
            "5..7 value parameter declared 5..7\n",
            "9..11 type type declared 36..38\n",
            "16..18 type type declared 36..38\n",
            "25..27 value parameter declared 5..7\n",
            "36..38 type type declared 36..38\n",
            "36..38 value constructor declared 36..38\n",
            "54..57 type type prelude\n",
        ]
        .concat()
    );
}

#[test]
fn a_refusal_prints_its_code_span_message_and_help() {
    let source = "fn f() -> Int {\n    missing\n}\n";
    let function = Function {
        name: name(source, "f", 2),
        type_parameters: Vec::new(),
        parameters: Vec::new(),
        result: Some(named_type(source, "Int", 1)),
        body: Block { statements: vec![statement(name_expr(source, "missing", 1))], span: between(source, "{", "}") },
        span: between(source, "fn", "}"),
    };
    let program = Program { items: vec![Item::Function(function)] };

    assert_eq!(
        render(program),
        [
            "refused\n",
            "L0300 20..27 there is nothing named `missing`\n",
            "help: a name is declared in this file, imported, or supplied by the prelude\n",
        ]
        .concat()
    );
}

#[test]
fn the_prelude_prints_as_a_resolved_module() {
    assert!(render_prelude().starts_with("resolved\n"));
}

#[test]
fn the_prelude_reads_a_list_with_the_at_the_compiler_holds_for_it() {
    let source = prelude_source();
    let resolved = prelude_resolved(prelude_program()).expect("the prelude resolves");
    let held = resolved
        .definition(Namespace::Value, &name(source, "at", 1))
        .expect("`at` has a definition in the prelude");
    assert_eq!(held.kind, DefinitionKind::Function);
    assert_eq!(held.origin, Origin::Prelude);
}

#[test]
fn a_module_other_than_the_prelude_does_not_reach_at_unqualified() {
    let source = "fn f(values: List<Int>) -> Int {\n    at\n}\n";
    let function = Function {
        name: name(source, "f", 2),
        type_parameters: Vec::new(),
        parameters: vec![Parameter {
            name: name(source, "values", 1),
            type_ref: Some(applied_type(source, "List", 1, vec![named_type(source, "Int", 1)])),
            span: at(source, "values", 1),
        }],
        result: Some(named_type(source, "Int", 2)),
        body: Block { statements: vec![statement(name_expr(source, "at", 1))], span: between(source, "{", "}") },
        span: between(source, "fn", "}"),
    };
    let program = Program { items: vec![Item::Function(function)] };

    assert_eq!(
        render(program),
        [
            "refused\n",
            "L0300 37..39 there is nothing named `at`\n",
            "help: a name is declared in this file, imported, or supplied by the prelude\n",
        ]
        .concat()
    );
}
