//! What a module declares, read into an environment over trees written by hand.

use lumen_check::ast::{Argument, Block, Called, DeriveDeclaration, Expr, ExprKind, ExternDeclaration, FieldValue};
use lumen_check::ast::{Function, Gives, Item, JavaName, Name, Parameter, Path, Program, Reaches};
use lumen_check::ast::{RecordField, Signature, Span, Statement, StatementKind, TraitDeclaration};
use lumen_check::ast::{TypeDeclaration, TypeDefinition, TypeParameter, TypeRef, TypeRefKind};
use lumen_check::ast::{Variant, VariantPayload};
use lumen_check::code::Code;
use lumen_check::environment::key::Key;
use lumen_check::environment::Environment;
use lumen_check::resolve::program::ResolvedProgram;
use lumen_check::resolve::{prelude_resolved, resolve};
use lumen_check::lookup::{look_up, Lookup};
use lumen_check::generalise::generalise;
use lumen_check::scheme::{Quantified, Required, Scheme};
use lumen_check::definition::{Definition, DefinitionKind, Origin};
use lumen_check::settle::{answers, settle_parameters, settle_predicate, settle_requirements, value, Asked, Requirement};
use lumen_check::surface::Imported;
use lumen_check::type_error::TypeErrorKind;
use lumen_check::table::Table;
use lumen_check::types::{Type, TypeParameter as Stand, TypeVar};

/// Where the `occurrence`-th `written` stands in `source`, counting from one.
fn at(source: &str, written: &str, occurrence: usize) -> Span {
    let start = source
        .match_indices(written)
        .nth(occurrence - 1)
        .unwrap_or_else(|| panic!("{source:?} writes {written:?} {occurrence} times"))
        .0;
    Span { start, end: start + written.len() }
}

fn name(source: &str, written: &str, occurrence: usize) -> Name {
    Name { text: written.to_owned(), span: at(source, written, occurrence) }
}

fn named_type(source: &str, written: &str, occurrence: usize) -> TypeRef {
    applied_type(source, written, occurrence, Vec::new())
}

fn applied_type(source: &str, written: &str, occurrence: usize, arguments: Vec<TypeRef>) -> TypeRef {
    let name = name(source, written, occurrence);
    let span = name.span;
    TypeRef { kind: TypeRefKind::Named { path: Path { module: None, name }, arguments }, span }
}

fn name_expr(source: &str, written: &str, occurrence: usize) -> Expr {
    let name = name(source, written, occurrence);
    let span = name.span;
    Expr { kind: ExprKind::Name(name), span }
}

fn statement(expr: Expr) -> Statement {
    let span = expr.span;
    Statement { kind: StatementKind::Expr(expr), span }
}

/// The span from the first `from` to the end of the first `to` after it.
fn between(source: &str, from: &str, to: &str) -> Span {
    let start = source.find(from).expect("the source writes where it starts");
    let end = start + source[start..].find(to).expect("the source writes where it ends") + to.len();
    Span { start, end }
}

fn parameter(source: &str, written: &str, occurrence: usize, type_ref: Option<TypeRef>) -> Parameter {
    Parameter { name: name(source, written, occurrence), type_ref, span: at(source, written, occurrence) }
}

/// A small prelude: a function reading a list, a type with a parameter, and a trait over one.
fn prelude_source() -> &'static str {
    "fn first<U>(values: List<U>) -> Option<U> {\n    at(values, 0)\n}\n\ntype Option<T> =\n    | Some(T)\n    | None\n\ntrait Eq<T> {\n    fn is_equal(one: T, other: T) -> Bool\n}\n"
}

fn prelude_program() -> Program {
    let source = prelude_source();
    let option = TypeDeclaration {
        name: name(source, "Option", 2),
        parameters: vec![name(source, "T", 1)],
        definition: TypeDefinition::Variants(vec![
            Variant { name: name(source, "Some", 1), payload: VariantPayload::Tuple(vec![named_type(source, "T", 2)]) },
            Variant { name: name(source, "None", 1), payload: VariantPayload::Bare },
        ]),
        span: between(source, "type Option", "None"),
    };
    let eq = TraitDeclaration {
        name: name(source, "Eq", 1),
        parameter: name(source, "T", 3),
        methods: vec![Signature {
            name: name(source, "is_equal", 1),
            parameters: vec![
                parameter(source, "one", 1, Some(named_type(source, "T", 4))),
                parameter(source, "other", 1, Some(named_type(source, "T", 5))),
            ],
            result: Some(named_type(source, "Bool", 1)),
        }],
        span: between(source, "trait", "}"),
    };
    let call = Expr {
        kind: ExprKind::Call {
            callee: Box::new(name_expr(source, "at", 1)),
            arguments: vec![
                Argument { label: None, value: name_expr(source, "values", 2) },
                Argument { label: None, value: Expr { kind: ExprKind::Integer(0), span: at(source, "0", 1) } },
            ],
        },
        span: between(source, "at(", ")"),
    };
    let first = Function {
        name: name(source, "first", 1),
        type_parameters: vec![TypeParameter { name: name(source, "U", 1), constraint: None }],
        parameters: vec![parameter(
            source,
            "values",
            1,
            Some(applied_type(source, "List", 1, vec![named_type(source, "U", 2)])),
        )],
        result: Some(applied_type(source, "Option", 1, vec![named_type(source, "U", 3)])),
        body: Block { statements: vec![statement(call)], span: between(source, "{\n    at", "}") },
        span: between(source, "fn first", "}"),
    };
    Program { items: vec![Item::Function(first), Item::Type(option), Item::Trait(eq)] }
}

fn prelude_environment() -> Environment {
    let resolved = prelude_resolved(prelude_program()).expect("the prelude resolves");
    Environment::of_prelude(&resolved).expect("the prelude declares what it writes")
}

fn resolve_module(program: Program) -> ResolvedProgram {
    resolve(program, "main", &prelude_program()).unwrap_or_else(|error| panic!("resolves: {}", error.message()))
}

fn environment_of(resolved: &ResolvedProgram) -> Result<Environment, lumen_check::type_error::TypeError> {
    let mut table = Table::new();
    Environment::of(prelude_environment(), resolved, &mut table)
}

fn body_of(environment: &Environment, key: &Key) -> Type {
    environment.scheme(key).expect("the name has a type").body.copied()
}

/// `fn f(id: Id) -> Id { id }` above `type Id = { value: Int }`.
fn record_module() -> (&'static str, Program) {
    let source = "fn f(id: Id) -> Id {\n    id\n}\n\ntype Id = {\n    value: Int\n}\n";
    let function = Function {
        name: name(source, "f", 2),
        type_parameters: Vec::new(),
        parameters: vec![parameter(source, "id", 1, Some(named_type(source, "Id", 1)))],
        result: Some(named_type(source, "Id", 2)),
        body: Block { statements: vec![statement(name_expr(source, "id", 2))], span: between(source, "{", "}") },
        span: between(source, "fn", "}"),
    };
    let declaration = TypeDeclaration {
        name: name(source, "Id", 3),
        parameters: Vec::new(),
        definition: TypeDefinition::Record(vec![RecordField {
            name: name(source, "value", 1),
            type_ref: named_type(source, "Int", 1),
        }]),
        span: between(source, "type", "Int\n}"),
    };
    (source, Program { items: vec![Item::Function(function), Item::Type(declaration)] })
}

#[test]
fn a_function_is_filed_where_it_is_declared_with_the_type_its_signature_writes() {
    let (source, program) = record_module();
    let resolved = resolve_module(program);
    let environment = environment_of(&resolved).expect("the module declares what it writes");
    let f = Key::at(&name(source, "f", 2));
    assert_eq!(body_of(&environment, &f), Type::function(vec![Type::plain("Id")], Type::plain("Id")));
    assert!(environment.scheme(&f).expect("typed").quantified.is_empty());
}

#[test]
fn a_record_is_built_from_its_fields_in_order() {
    let (source, program) = record_module();
    let resolved = resolve_module(program);
    let environment = environment_of(&resolved).expect("the module declares what it writes");
    let id = name(source, "Id", 3);
    let built_with = Key::at(&id);
    assert_eq!(body_of(&environment, &built_with), Type::function(vec![Type::integer()], Type::plain("Id")));
    assert_eq!(environment.labels(&built_with), vec!["value".to_owned()]);
    assert_eq!(environment.record(&"Id".to_owned()), Some(&Key::Declared(id.span)));
    assert_eq!(
        environment.declared_as(&"Id".to_owned()).expect("declared").body,
        Type::plain("Id")
    );
    assert_eq!(environment.record(&"Missing".to_owned()), None);
}

#[test]
fn each_variant_is_a_constructor_of_its_own() {
    let source = "type Shape =\n    | Dot\n    | Circle(Int)\n    | Frame { width: Int, height: Int }\n";
    let declaration = TypeDeclaration {
        name: name(source, "Shape", 1),
        parameters: Vec::new(),
        definition: TypeDefinition::Variants(vec![
            Variant { name: name(source, "Dot", 1), payload: VariantPayload::Bare },
            Variant {
                name: name(source, "Circle", 1),
                payload: VariantPayload::Tuple(vec![named_type(source, "Int", 1)]),
            },
            Variant {
                name: name(source, "Frame", 1),
                payload: VariantPayload::Record(vec![
                    RecordField { name: name(source, "width", 1), type_ref: named_type(source, "Int", 2) },
                    RecordField { name: name(source, "height", 1), type_ref: named_type(source, "Int", 3) },
                ]),
            },
        ]),
        span: between(source, "type", "}"),
    };
    let resolved = resolve_module(Program { items: vec![Item::Type(declaration)] });
    let environment = environment_of(&resolved).expect("the module declares what it writes");
    let shape = Type::plain("Shape");
    assert_eq!(body_of(&environment, &Key::at(&name(source, "Dot", 1))), shape.copied());
    assert_eq!(
        body_of(&environment, &Key::at(&name(source, "Circle", 1))),
        Type::function(vec![Type::integer()], shape.copied())
    );
    let frame = Key::at(&name(source, "Frame", 1));
    assert_eq!(body_of(&environment, &frame), Type::function(vec![Type::integer(), Type::integer()], shape));
    assert_eq!(environment.labels(&frame), vec!["width".to_owned(), "height".to_owned()]);
    assert!(environment.labels(&Key::at(&name(source, "Circle", 1))).is_empty());
    assert_eq!(environment.record(&"Shape".to_owned()), None);
}

#[test]
fn a_type_written_with_the_wrong_number_of_arguments_is_refused() {
    let source = "fn f(values: List) -> Int {\n    1\n}\n";
    let function = Function {
        name: name(source, "f", 2),
        type_parameters: Vec::new(),
        parameters: vec![parameter(source, "values", 1, Some(named_type(source, "List", 1)))],
        result: Some(named_type(source, "Int", 1)),
        body: Block {
            statements: vec![statement(Expr { kind: ExprKind::Integer(1), span: at(source, "1", 1) })],
            span: between(source, "{", "}"),
        },
        span: between(source, "fn", "}"),
    };
    let resolved = resolve_module(Program { items: vec![Item::Function(function)] });
    let error = environment_of(&resolved).err().expect("`List` takes one argument");
    assert_eq!(error.message(), "`List` takes 1 type argument but 0 were given");
    assert_eq!(error.code(), Code::WrongArgumentCount);
    assert_eq!(error.span(), at(source, "List", 1));
}

#[test]
fn a_type_left_out_is_a_variable_of_its_own() {
    let source = "fn keep(value) {\n    value\n}\n";
    let function = Function {
        name: name(source, "keep", 1),
        type_parameters: Vec::new(),
        parameters: vec![parameter(source, "value", 1, None)],
        result: None,
        body: Block { statements: vec![statement(name_expr(source, "value", 2))], span: between(source, "{", "}") },
        span: between(source, "fn", "}"),
    };
    let resolved = resolve_module(Program { items: vec![Item::Function(function)] });
    let environment = environment_of(&resolved).expect("the module declares what it writes");
    assert_eq!(
        body_of(&environment, &Key::at(&name(source, "keep", 1))),
        Type::function(vec![Type::Var(TypeVar(0))], Type::Var(TypeVar(1)))
    );
}

#[test]
fn the_prelude_files_its_names_by_their_spelling() {
    let source = prelude_source();
    let environment = prelude_environment();
    let t = Type::Parameter(Stand::written(&name(source, "T", 1)));
    let option_of_t = Type::option(t.copied());
    assert_eq!(body_of(&environment, &Key::prelude("Some")), Type::function(vec![t], option_of_t.copied()));
    assert_eq!(body_of(&environment, &Key::prelude("None")), option_of_t);
    let u = Type::Parameter(Stand::written(&name(source, "U", 1)));
    assert_eq!(
        body_of(&environment, &Key::prelude("first")),
        Type::function(vec![Type::list(u.copied())], Type::option(u))
    );
    let todo = environment.scheme(&Key::prelude("todo")).expect("`todo` is a hole every module has");
    let hole = Type::Parameter(Stand::prelude("T"));
    assert_eq!(todo.body, Type::function(vec![Type::string()], hole));
}

#[test]
fn a_trait_method_is_written_over_the_trait_parameter_and_asks_for_the_trait() {
    let source = prelude_source();
    let environment = prelude_environment();
    let method = Key::prelude("is_equal");
    let scheme = environment.scheme(&method).expect("the method has a type");
    let t = Type::Parameter(Stand::written(&name(source, "T", 3)));
    assert_eq!(scheme.body, Type::function(vec![t.copied(), t.copied()], Type::boolean()));
    assert_eq!(scheme.required.len(), 1);
    assert_eq!(scheme.required[0].trait_name, "Eq");
    assert_eq!(scheme.required[0].at, t);
    assert_eq!(
        environment.of_a_trait(&method),
        Some(&Quantified::Parameter(Stand::written(&name(source, "T", 3))))
    );
    assert_eq!(environment.of_a_trait(&Key::prelude("first")), None);
}

#[test]
fn a_derived_type_has_the_instance_it_derives() {
    let source = "derive Eq for Color\n\ntype Color =\n    | Red\n    | Green\n";
    let derive = DeriveDeclaration {
        traits: vec![name(source, "Eq", 1)],
        for_type: name(source, "Color", 1),
        span: between(source, "derive", "Color"),
    };
    let color = TypeDeclaration {
        name: name(source, "Color", 2),
        parameters: Vec::new(),
        definition: TypeDefinition::Variants(vec![
            Variant { name: name(source, "Red", 1), payload: VariantPayload::Bare },
            Variant { name: name(source, "Green", 1), payload: VariantPayload::Bare },
        ]),
        span: between(source, "type", "Green"),
    };
    let resolved = resolve_module(Program { items: vec![Item::Derive(derive), Item::Type(color)] });
    let environment = environment_of(&resolved).expect("a type holding nothing derives `Eq`");
    assert!(environment.has_instance(&"Eq".to_owned(), &"Color".to_owned()));
    assert!(!environment.has_instance(&"Eq".to_owned(), &"Shape".to_owned()));
}

#[test]
fn a_derive_is_refused_where_what_the_type_holds_has_no_instance() {
    let source = "derive Eq for Id\n\ntype Id = {\n    value: Int\n}\n";
    let derive = DeriveDeclaration {
        traits: vec![name(source, "Eq", 1)],
        for_type: name(source, "Id", 1),
        span: between(source, "derive", "Id"),
    };
    let id = TypeDeclaration {
        name: name(source, "Id", 2),
        parameters: Vec::new(),
        definition: TypeDefinition::Record(vec![RecordField {
            name: name(source, "value", 1),
            type_ref: named_type(source, "Int", 1),
        }]),
        span: between(source, "type", "Int\n}"),
    };
    let resolved = resolve_module(Program { items: vec![Item::Derive(derive), Item::Type(id)] });
    let error = environment_of(&resolved).err().expect("`Int` has no `Eq` in this prelude");
    assert_eq!(error.message(), "`Id` derives `Eq`, and the `Int` it holds as `value` has none");
    assert_eq!(error.code(), Code::HeldTypeHasNoInstance);
    assert_eq!(error.span(), at(source, "Int", 1));
}

#[test]
fn an_extern_type_names_a_java_class() {
    let source = "type Builder = extern class java.lang.StringBuilder\n";
    let declaration = TypeDeclaration {
        name: name(source, "Builder", 1),
        parameters: Vec::new(),
        definition: TypeDefinition::Foreign {
            class: JavaName { text: "java.lang.StringBuilder".to_owned(), span: at(source, "java.lang.StringBuilder", 1) },
            called: Called::AsAClass,
        },
        span: between(source, "type", "StringBuilder"),
    };
    let resolved = resolve_module(Program { items: vec![Item::Type(declaration)] });
    let environment = environment_of(&resolved).expect("a Java class name");
    assert_eq!(environment.declared_as(&"Builder".to_owned()).expect("declared").body, Type::plain("Builder"));

    let source = "type Broken = extern class 9lives\n";
    let declaration = TypeDeclaration {
        name: name(source, "Broken", 1),
        parameters: Vec::new(),
        definition: TypeDefinition::Foreign {
            class: JavaName { text: "9lives".to_owned(), span: at(source, "9lives", 1) },
            called: Called::AsAClass,
        },
        span: between(source, "type", "9lives"),
    };
    let resolved = resolve_module(Program { items: vec![Item::Type(declaration)] });
    let error = environment_of(&resolved).err().expect("a name opening with a digit");
    assert_eq!(error.message(), "`9lives` is no Java name");
    assert_eq!(error.span(), at(source, "9lives", 1));
}

/// A module whose one function writes `Int` twice and `String` once, which an extern below
/// reuses: the places are the ones name resolution gave a definition.
fn typed_places() -> (&'static str, ResolvedProgram) {
    let source = "fn g(a: Int, b: Int) -> String {\n    \"\"\n}\n";
    let function = Function {
        name: name(source, "g", 1),
        type_parameters: Vec::new(),
        parameters: vec![
            parameter(source, "a", 1, Some(named_type(source, "Int", 1))),
            parameter(source, "b", 1, Some(named_type(source, "Int", 2))),
        ],
        result: Some(named_type(source, "String", 1)),
        body: Block {
            statements: vec![statement(Expr { kind: ExprKind::String(String::new()), span: at(source, "\"\"", 1) })],
            span: between(source, "{", "}"),
        },
        span: between(source, "fn", "}"),
    };
    (source, resolve_module(Program { items: vec![Item::Function(function)] }))
}

#[test]
fn an_extern_static_is_filed_with_the_signature_it_writes() {
    let (source, resolved) = typed_places();
    let mut environment = environment_of(&resolved).expect("the module declares what it writes");
    let declaration = ExternDeclaration {
        name: Name { text: "biggest".to_owned(), span: Span { start: 200, end: 207 } },
        parameters: vec![
            parameter(source, "a", 1, Some(named_type(source, "Int", 1))),
            parameter(source, "b", 1, Some(named_type(source, "Int", 2))),
        ],
        result: named_type(source, "Int", 1),
        reaches: Reaches::Static(JavaName { text: "java.lang.Math.max".to_owned(), span: Span { start: 210, end: 228 } }),
        gives: Gives::WhatTheResultIs,
        span: Span { start: 190, end: 230 },
    };
    assert!(environment.declare_extern(&resolved, &declaration).is_ok());
    assert_eq!(
        body_of(&environment, &Key::Declared(Span { start: 200, end: 207 })),
        Type::function(vec![Type::integer(), Type::integer()], Type::integer())
    );
}

#[test]
fn an_extern_static_naming_no_class_is_refused() {
    let (source, resolved) = typed_places();
    let mut environment = environment_of(&resolved).expect("the module declares what it writes");
    let declaration = ExternDeclaration {
        name: Name { text: "biggest".to_owned(), span: Span { start: 200, end: 207 } },
        parameters: vec![parameter(source, "a", 1, Some(named_type(source, "Int", 1)))],
        result: named_type(source, "String", 1),
        reaches: Reaches::Static(JavaName { text: "max".to_owned(), span: Span { start: 210, end: 213 } }),
        gives: Gives::WhatTheResultIs,
        span: Span { start: 190, end: 230 },
    };
    let error = environment.declare_extern(&resolved, &declaration).expect_err("a static names its class");
    assert_eq!(error.message(), "`max` is no Java name");
    assert_eq!(error.span(), Span { start: 210, end: 213 });
    assert!(environment.scheme(&Key::Declared(Span { start: 200, end: 207 })).is_none());
}

#[test]
fn an_extern_parameter_that_states_no_type_is_refused() {
    let (source, resolved) = typed_places();
    let mut environment = environment_of(&resolved).expect("the module declares what it writes");
    let declaration = ExternDeclaration {
        name: Name { text: "shown".to_owned(), span: Span { start: 200, end: 205 } },
        parameters: vec![parameter(source, "a", 1, None)],
        result: named_type(source, "String", 1),
        reaches: Reaches::Static(JavaName { text: "java.lang.String.valueOf".to_owned(), span: Span { start: 210, end: 234 } }),
        gives: Gives::WhatTheResultIs,
        span: Span { start: 190, end: 240 },
    };
    let error = environment.declare_extern(&resolved, &declaration).expect_err("a signature is never inferred");
    assert_eq!(error.message(), "`a` states no type, and a signature is never inferred");
    assert_eq!(error.span(), at(source, "a", 1));
}

#[test]
fn the_prelude_gives_an_instance_a_method_at_its_type() {
    let environment = prelude_environment();
    let at_user = environment
        .method_at(&"Eq".to_owned(), &"is_equal".to_owned(), &Type::plain("User"))
        .expect("`Eq` declares `is_equal`");
    assert_eq!(at_user, Type::function(vec![Type::plain("User"), Type::plain("User")], Type::boolean()));
    assert!(environment.method_at(&"Eq".to_owned(), &"shown".to_owned(), &Type::plain("User")).is_none());
}

fn color_environment() -> Environment {
    let source = "derive Eq for Color\n\ntype Color =\n    | Red\n    | Green\n";
    let derive = DeriveDeclaration {
        traits: vec![name(source, "Eq", 1)],
        for_type: name(source, "Color", 1),
        span: between(source, "derive", "Color"),
    };
    let color = TypeDeclaration {
        name: name(source, "Color", 2),
        parameters: Vec::new(),
        definition: TypeDefinition::Variants(vec![
            Variant { name: name(source, "Red", 1), payload: VariantPayload::Bare },
            Variant { name: name(source, "Green", 1), payload: VariantPayload::Bare },
        ]),
        span: between(source, "type", "Green"),
    };
    let resolved = resolve_module(Program { items: vec![Item::Derive(derive), Item::Type(color)] });
    environment_of(&resolved).expect("a type holding nothing derives `Eq`")
}

#[test]
fn a_trait_is_answered_by_an_instance_or_by_a_promise_and_by_nothing_else() {
    let environment = color_environment();
    let eq = "Eq".to_owned();
    let parameter = Type::Parameter(Stand::prelude("T"));
    let promised = vec![Required { trait_name: eq.clone(), at: parameter.copied() }];
    assert!(answers(&environment, &promised, &eq, &Type::plain("Color")));
    assert!(!answers(&environment, &promised, &"Show".to_owned(), &Type::plain("Color")));
    assert!(answers(&environment, &promised, &eq, &parameter));
    assert!(!answers(&environment, &Vec::new(), &eq, &parameter));
    assert!(!answers(&environment, &promised, &eq, &Type::Var(TypeVar(0))));
}

#[test]
fn a_method_answered_is_recorded_at_the_type_it_reached_and_the_first_unanswered_is_refused() {
    let environment = color_environment();
    let mut table = Table::new();
    let color = table.fresh();
    table.settle(TypeVar(0), Type::plain("Color"));
    let asked = |how: Asked, at: Type, start: usize| Requirement {
        required: Required { trait_name: "Eq".to_owned(), at },
        written: Span { start, end: start + 2 },
        how,
    };
    let requirements = vec![asked(Asked::Constraint, Type::plain("Color"), 0), asked(Asked::Method, color.copied(), 5)];
    let methods = settle_requirements(&table, &environment, &Vec::new(), &requirements).expect("Color has Eq");
    assert_eq!(methods, vec![(Span { start: 5, end: 7 }, Type::plain("Color"))]);
    let requirements = vec![asked(Asked::Method, color, 0), asked(Asked::Operator("=="), Type::integer(), 9)];
    let refused = settle_requirements(&table, &environment, &Vec::new(), &requirements).expect_err("Int has no Eq here");
    assert_eq!(refused.span(), Span { start: 9, end: 11 });
    assert_eq!(
        *refused.kind(),
        TypeErrorKind::NoOperator { written_as: "==", of: "Eq".to_owned(), at: Type::integer() }
    );
}

fn field_named(text: &str) -> Name {
    Name { text: text.to_owned(), span: Span { start: 40, end: 40 + text.len() } }
}

#[test]
fn a_field_of_a_record_has_the_type_its_constructor_takes_at_its_label() {
    let (_, program) = record_module();
    let environment = environment_of(&resolve_module(program)).expect("the module declares what it writes");
    let mut table = Table::new();
    let found = table.fresh();
    let through = table.fresh();
    let lookup = Lookup { through: through.copied(), field: field_named("value"), found: found.copied() };
    table.settle(TypeVar(1), Type::plain("Id"));
    look_up(&mut table, &environment, &Imported::empty(), &lookup).expect("an Id has a value");
    assert_eq!(table.solved(&found), Type::integer());
    let lookup = Lookup { through: Type::plain("Id"), field: field_named("name"), found: Type::Unit };
    let refused = look_up(&mut table, &environment, &Imported::empty(), &lookup).expect_err("an Id has no name");
    assert_eq!(refused.span(), field_named("name").span);
    assert_eq!(*refused.kind(), TypeErrorKind::UnknownField { of: Type::plain("Id"), field: "name".to_owned() });
}

#[test]
fn a_field_of_something_with_no_fields_is_refused() {
    let (_, program) = record_module();
    let environment = environment_of(&resolve_module(program)).expect("the module declares what it writes");
    let mut table = Table::new();
    let unsettled = table.fresh();
    let lookup = Lookup { through: Type::integer(), field: field_named("value"), found: Type::Unit };
    let refused = look_up(&mut table, &environment, &Imported::empty(), &lookup).expect_err("an Int has no fields");
    assert_eq!(*refused.kind(), TypeErrorKind::UnknownField { of: Type::integer(), field: "value".to_owned() });
    let lookup = Lookup { through: unsettled, field: field_named("value"), found: Type::Unit };
    let refused = look_up(&mut table, &environment, &Imported::empty(), &lookup).expect_err("nothing settled it");
    assert_eq!(*refused.kind(), TypeErrorKind::UnknownReceiver("value".to_owned()));
}

#[test]
fn a_name_inside_a_supplied_module_has_the_type_the_module_declares() {
    let environment = prelude_environment();
    let mut table = Table::new();
    let found = table.fresh();
    let lookup = Lookup { through: Type::Module("io".to_owned()), field: field_named("println"), found: found.copied() };
    look_up(&mut table, &environment, &Imported::empty(), &lookup).expect("io declares println");
    assert_eq!(table.solved(&found), Type::function(vec![Type::string()], Type::Unit));
    let lookup = Lookup { through: Type::Module("io".to_owned()), field: field_named("shout"), found: Type::Unit };
    let refused = look_up(&mut table, &environment, &Imported::empty(), &lookup).expect_err("io declares no shout");
    assert_eq!(
        *refused.kind(),
        TypeErrorKind::NotInModule { module: "io".to_owned(), name: "shout".to_owned() }
    );
}

fn function_taking(source: &str, named: &str, parameters: Vec<Parameter>) -> Function {
    Function {
        name: name(source, named, 1),
        type_parameters: Vec::new(),
        parameters,
        result: None,
        body: Block { statements: Vec::new(), span: between(source, "{", "}") },
        span: between(source, "fn", "}"),
    }
}

#[test]
fn a_parameter_settled_on_bool_is_a_flag_but_in_a_boolean_operation() {
    let source = "fn open(door: Door, locked: Bool) {}";
    let function = function_taking(
        source,
        "open",
        vec![parameter(source, "door", 1, None), parameter(source, "locked", 1, None)],
    );
    let environment = prelude_environment();
    let mut table = Table::new();
    let door = table.fresh();
    let locked = table.fresh();
    table.settle(TypeVar(1), Type::boolean());
    let key = Key::at(&function.name);
    let taken = vec![door.copied(), locked.copied()];
    let refused = settle_parameters(&table, &environment, &key, &function, &taken, &Type::Unit)
        .expect_err("`locked` says nothing at a call");
    assert_eq!(*refused.kind(), TypeErrorKind::FlagParameter("open".to_owned()));
    assert_eq!(refused.span(), at(source, "locked", 1));
    let both = vec![Type::boolean(), locked];
    assert!(settle_parameters(&table, &environment, &key, &function, &both, &Type::boolean()).is_ok());
}

#[test]
fn a_function_settled_on_bool_asks_a_question_in_its_name() {
    let source = "fn active(user: User) {}\nfn is_active(user: User) {}";
    let mut table = Table::new();
    let result = table.fresh();
    table.settle(TypeVar(0), Type::boolean());
    let refused = settle_predicate(&table, &result, &function_taking(source, "active", Vec::new()))
        .expect_err("`active` asks nothing");
    assert_eq!(*refused.kind(), TypeErrorKind::NotAPredicate("active".to_owned()));
    assert!(settle_predicate(&table, &result, &function_taking(source, "is_active", Vec::new())).is_ok());
    assert!(settle_predicate(&table, &Type::Unit, &function_taking(source, "active", Vec::new())).is_ok());
}

#[test]
fn a_function_is_generalised_over_what_nothing_else_holds() {
    let source = "fn pair(one, other) {}";
    let mut environment = prelude_environment();
    let mut table = Table::new();
    let one = table.fresh();
    let other = table.fresh();
    let result = table.fresh();
    table.settle(TypeVar(2), Type::integer());
    let key = Key::at(&name(source, "pair", 1));
    let body = Type::function(vec![one.copied(), other.copied()], result);
    environment.bind(Key::at(&name(source, "pair", 1)), Scheme::monomorphic(body));
    generalise(&mut environment, &table, key, &vec![Type::list(other.copied())]);
    let scheme = environment.scheme(&Key::at(&name(source, "pair", 1))).expect("still bound");
    assert_eq!(scheme.quantified, vec![Quantified::Var(TypeVar(0))]);
    assert_eq!(scheme.body, Type::function(vec![one, other], Type::integer()));
}

#[test]
fn a_name_unbound_has_no_type_and_one_never_bound_is_left_alone() {
    let source = "fn gone() {}";
    let mut environment = prelude_environment();
    let key = Key::at(&name(source, "gone", 1));
    assert!(environment.unbind(&key).is_none());
    generalise(&mut environment, &Table::new(), Key::at(&name(source, "gone", 1)), &Vec::new());
    assert!(environment.scheme(&key).is_none());
    environment.bind(Key::at(&name(source, "gone", 1)), Scheme::monomorphic(Type::Unit));
    let unbound = environment.unbind(&key).expect("it was bound");
    assert_eq!(unbound.body, Type::Unit);
    assert!(environment.scheme(&key).is_none());
}

#[test]
fn a_name_is_fresh_at_each_use_and_a_method_asks_its_trait_of_what_that_use_settled() {
    let environment = prelude_environment();
    let prelude = Definition { kind: DefinitionKind::Function, origin: Origin::Prelude };
    let mut table = Table::new();
    let used = Name { text: "first".to_owned(), span: Span { start: 3, end: 8 } };
    let (found, asked) = value(&environment, &mut table, prelude, &used);
    assert_eq!(found, Type::function(vec![Type::list(Type::Var(TypeVar(0)))], Type::option(Type::Var(TypeVar(0)))));
    assert!(asked.is_empty());
    let method = Definition { kind: DefinitionKind::TraitMethod, origin: Origin::Prelude };
    let called = Name { text: "is_equal".to_owned(), span: Span { start: 10, end: 18 } };
    let (found, asked) = value(&environment, &mut table, method, &called);
    assert_eq!(found, Type::function(vec![Type::Var(TypeVar(1)), Type::Var(TypeVar(1))], Type::boolean()));
    assert_eq!(asked.len(), 1);
    assert_eq!(asked[0].required.trait_name, "Eq");
    assert_eq!(asked[0].required.at, Type::Var(TypeVar(1)));
    assert_eq!(asked[0].written, Span { start: 10, end: 18 });
    assert!(matches!(asked[0].how, Asked::Method));
}

/// The environment of `type Shape = | Dot | Circle(Int) | Frame { width: Int, height: Int }`.
fn shape_environment(source: &str) -> Environment {
    let declaration = TypeDeclaration {
        name: name(source, "Shape", 1),
        parameters: Vec::new(),
        definition: TypeDefinition::Variants(vec![
            Variant { name: name(source, "Dot", 1), payload: VariantPayload::Bare },
            Variant {
                name: name(source, "Circle", 1),
                payload: VariantPayload::Tuple(vec![named_type(source, "Int", 1)]),
            },
            Variant {
                name: name(source, "Frame", 1),
                payload: VariantPayload::Record(vec![
                    RecordField { name: name(source, "width", 1), type_ref: named_type(source, "Int", 2) },
                    RecordField { name: name(source, "height", 1), type_ref: named_type(source, "Int", 3) },
                ]),
            },
        ]),
        span: between(source, "type", "}"),
    };
    let resolved = resolve_module(Program { items: vec![Item::Type(declaration)] });
    environment_of(&resolved).expect("the module declares what it writes")
}

fn given_field(text: &str, start: usize) -> FieldValue {
    let span = Span { start, end: start + text.len() };
    FieldValue {
        name: Name { text: text.to_owned(), span },
        value: Expr { kind: ExprKind::Unit, span: Span { start: start + 10, end: start + 12 } },
    }
}

fn frame_path(source: &str) -> Path {
    Path { module: None, name: name(source, "Frame", 1) }
}

#[test]
fn a_record_built_with_every_label_is_the_type_its_constructor_gives() {
    let source = "type Shape =\n    | Dot\n    | Circle(Int)\n    | Frame { width: Int, height: Int }\n";
    let environment = shape_environment(source);
    let frame = Key::at(&name(source, "Frame", 1));
    let built_as = body_of(&environment, &frame);
    let mut table = Table::new();
    let fields = vec![given_field("height", 200), given_field("width", 300)];
    let found = vec![Type::integer(), Type::integer()];
    let built = lumen_check::building::build(
        &mut table, &environment, &frame, &built_as, &frame_path(source), &fields, &found, Span { start: 0, end: 5 },
    );
    assert_eq!(built, Ok(Type::plain("Shape")));
}

#[test]
fn a_record_built_with_a_value_of_the_wrong_type_is_refused_at_the_value() {
    let source = "type Shape =\n    | Dot\n    | Circle(Int)\n    | Frame { width: Int, height: Int }\n";
    let environment = shape_environment(source);
    let frame = Key::at(&name(source, "Frame", 1));
    let built_as = body_of(&environment, &frame);
    let mut table = Table::new();
    let fields = vec![given_field("width", 200), given_field("height", 300)];
    let found = vec![Type::integer(), Type::string()];
    let error = lumen_check::building::build(
        &mut table, &environment, &frame, &built_as, &frame_path(source), &fields, &found, Span { start: 0, end: 5 },
    )
    .unwrap_err();
    assert_eq!(*error.kind(), TypeErrorKind::Mismatch { expected: Type::integer(), found: Type::string() });
    assert_eq!(error.span(), Span { start: 310, end: 312 });
}

#[test]
fn a_record_built_without_a_label_or_with_an_unknown_one_is_refused() {
    let source = "type Shape =\n    | Dot\n    | Circle(Int)\n    | Frame { width: Int, height: Int }\n";
    let environment = shape_environment(source);
    let frame = Key::at(&name(source, "Frame", 1));
    let built_as = body_of(&environment, &frame);
    let at = Span { start: 0, end: 5 };
    let mut table = Table::new();
    let fields = vec![given_field("width", 200)];
    let error = lumen_check::building::build(
        &mut table, &environment, &frame, &built_as, &frame_path(source), &fields, &vec![Type::integer()], at,
    )
    .unwrap_err();
    assert_eq!(*error.kind(), TypeErrorKind::MissingField { of: "Frame".to_owned(), field: "height".to_owned() });
    assert_eq!(error.span(), at);
    let fields = vec![given_field("depth", 200)];
    let error = lumen_check::building::build(
        &mut table, &environment, &frame, &built_as, &frame_path(source), &fields, &vec![Type::integer()], at,
    )
    .unwrap_err();
    assert_eq!(*error.kind(), TypeErrorKind::UnknownField { of: Type::plain("Shape"), field: "depth".to_owned() });
    assert_eq!(error.span(), Span { start: 200, end: 205 });
}

#[test]
fn a_constructor_without_labels_or_without_values_takes_no_field() {
    let source = "type Shape =\n    | Dot\n    | Circle(Int)\n    | Frame { width: Int, height: Int }\n";
    let environment = shape_environment(source);
    let at = Span { start: 0, end: 5 };
    let mut table = Table::new();
    let dot = Key::at(&name(source, "Dot", 1));
    let dot_path = Path { module: None, name: name(source, "Dot", 1) };
    let built = lumen_check::building::build(
        &mut table, &environment, &dot, &body_of(&environment, &dot), &dot_path, &Vec::new(), &Vec::new(), at,
    );
    assert_eq!(built, Ok(Type::plain("Shape")));
    let circle = Key::at(&name(source, "Circle", 1));
    let circle_path = Path { module: None, name: name(source, "Circle", 1) };
    let error = lumen_check::building::build(
        &mut table, &environment, &circle, &body_of(&environment, &circle), &circle_path, &Vec::new(), &Vec::new(), at,
    )
    .unwrap_err();
    match error.kind() {
        TypeErrorKind::WrongArgumentCount(count) => {
            assert_eq!((count.name.as_str(), count.takes, count.given), ("Circle", 1usize, 0usize));
        },
        other => panic!("expected a miscount, found {:?}", other),
    }
}
