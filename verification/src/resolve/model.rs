//! What resolving each part of a module does, stated over what the resolver holds.
//!
//! A walk is the two scopes, the definition each written name was pointed at, the instances
//! claimed, and the traits declared. Resolving a part of a module either takes one walk to the
//! next or is the one error of the run; each function below says which, and to what.
use vstd::prelude::*;

use crate::ast::{Argument, Block, Branch, Constraint, DeriveDeclaration, Expr, ExprKind, FieldValue};
use crate::ast::{ForHeader, ForLoop, Function, IfExpr, InstanceDeclaration, Item, MatchExpr, Arm};
use crate::ast::{Name, Parameter, Path, Pattern, PatternKind, Program, RecordField, Signature, Span};
use crate::ast::{Statement, StatementKind, TraitDeclaration, TypeDeclaration, TypeDefinition};
use crate::ast::{TypeParameter, TypeRef, TypeRefKind, Variant, VariantPayload};
use crate::definition::{Definition, DefinitionKind, Namespace, Origin};
use crate::error::{ResolveError, ResolveErrorKind};
use crate::prelude::{all_method_texts, constructor_texts, declared_traits, declared_types};
use crate::prelude::{derivable_names, first_where, function_names, held_function_names};
use crate::prelude::{held_type_names, instance_names, supplied_names, trait_names_of, type_names};
use crate::prelude::Supplied;
use crate::scope::prelude_layer;
use crate::order::{declarations_of, spec_out_of_order, DeclaredView};
use crate::resolve::program::ResolvedProgram;
use crate::resolve::pattern::first_binding;
use crate::resolve::traits::{claims, first_refused, unwritten, written_names};
use crate::resolve::{is_constructor, spec_bound, Position, Resolved, Resolver};
use crate::scope::{layer_look_up, spec_look_up, Layer};
use crate::text::texts;

verus! {

/// What the resolver holds, as the specifications read it.
pub struct Walk {
    pub types: Seq<Layer>,
    pub values: Seq<Layer>,
    /// The definition each written name was pointed at, by namespace and place.
    pub found: Map<(Namespace, Span), Definition>,
    /// Each trait with the type it has an instance for.
    pub claims: Seq<(Seq<char>, Seq<char>)>,
    /// Each trait this module declares, with the methods it declares.
    pub declared: Seq<(String, Seq<String>)>,
    /// The traits the prelude supplies, each by name with the methods it declares.
    pub supplied: Seq<(Seq<char>, Seq<String>)>,
}

/// One step of resolving: the walk it leaves, or the one error of the run.
pub type Step = Result<Walk, ResolveError>;

impl Resolver {
    /// What this resolver holds.
    pub(crate) open spec fn walk(&self) -> Walk {
        Walk {
            types: self.types.layers(),
            values: self.values.layers(),
            found: self.definitions@,
            claims: claims(self.instances@),
            declared: self.declared_traits@.map_values(|t: (String, Vec<String>)| (t.0, t.1@)),
            supplied: self.prelude_traits@.map_values(|t: Supplied| (t.name@, t.methods@)),
        }
    }
}

/// Whether what a function gave back and the walk it left are what `expected` says.
pub open spec fn outcome(resolved: Resolved, after: Walk, expected: Step) -> bool {
    match expected {
        Ok(walk) => resolved is Ok && after == walk,
        Err(error) => resolved == Err::<(), ResolveError>(error),
    }
}

/// A walk with a layer opened inside the value scope.
pub open spec fn enter_values(w: Walk) -> Walk {
    Walk { values: w.values.push(Seq::empty()), ..w }
}

/// A walk with the innermost layer of the value scope closed.
pub open spec fn leave_values(w: Walk) -> Walk {
    Walk { values: w.values.drop_last(), ..w }
}

/// A walk with a layer opened inside the type scope.
pub open spec fn enter_types(w: Walk) -> Walk {
    Walk { types: w.types.push(Seq::empty()), ..w }
}

/// A walk with the innermost layer of the type scope closed.
pub open spec fn leave_types(w: Walk) -> Walk {
    Walk { types: w.types.drop_last(), ..w }
}

/// The refusal of `name`, which is missing from `namespace`.
pub open spec fn missing(namespace: Namespace, name: Name) -> ResolveError {
    ResolveError {
        kind: match namespace {
            Namespace::Value => ResolveErrorKind::NoValue(name.text),
            Namespace::Type => ResolveErrorKind::NoType(name.text),
        },
        span: name.span,
    }
}

/// `name` pointed at what it means among the values.
pub open spec fn spec_use_value(w: Walk, name: Name) -> Step {
    match spec_look_up(w.values, name.text@) {
        Some(definition) => Ok(Walk { found: w.found.insert((Namespace::Value, name.span), definition), ..w }),
        None => Err(missing(Namespace::Value, name)),
    }
}

/// `name` pointed at what it means among the types.
pub open spec fn spec_use_type(w: Walk, name: Name) -> Step {
    match spec_look_up(w.types, name.text@) {
        Some(definition) => Ok(Walk { found: w.found.insert((Namespace::Type, name.span), definition), ..w }),
        None => Err(missing(Namespace::Type, name)),
    }
}

/// The refusal of introducing `name` into `layers`, where it already means something.
pub open spec fn clash(layers: Seq<Layer>, name: Name) -> ResolveError {
    ResolveError {
        kind: if layer_look_up(layers.last(), name.text@) is Some {
            ResolveErrorKind::DeclaredTwice(name.text)
        } else {
            ResolveErrorKind::Shadowed(name.text)
        },
        span: name.span,
    }
}

/// `name` declared as `kind` in the innermost layer of `layers`, with what it now means.
pub open spec fn introduced(layers: Seq<Layer>, name: Name, kind: DefinitionKind) -> Seq<Layer> {
    layers.drop_last().push(
        layers.last().push((name.text@, Definition { kind, origin: Origin::Declared(name.span) })),
    )
}

/// `name` introduced among the values as `kind`, refused where it already means something.
pub open spec fn spec_introduce_value(w: Walk, name: Name, kind: DefinitionKind) -> Step {
    match spec_look_up(w.values, name.text@) {
        None => Ok(
            Walk {
                values: introduced(w.values, name, kind),
                found: w.found.insert(
                    (Namespace::Value, name.span),
                    Definition { kind, origin: Origin::Declared(name.span) },
                ),
                ..w
            },
        ),
        Some(_) => Err(clash(w.values, name)),
    }
}

/// `name` introduced among the types as `kind`, refused where it already means something.
pub open spec fn spec_introduce_type(w: Walk, name: Name, kind: DefinitionKind) -> Step {
    match spec_look_up(w.types, name.text@) {
        None => Ok(
            Walk {
                types: introduced(w.types, name, kind),
                found: w.found.insert(
                    (Namespace::Type, name.span),
                    Definition { kind, origin: Origin::Declared(name.span) },
                ),
                ..w
            },
        ),
        Some(_) => Err(clash(w.types, name)),
    }
}

/// A type as a type is written: a name among the types that is no trait.
pub open spec fn spec_named_type(w: Walk, name: Name) -> Step {
    match spec_use_type(w, name) {
        Ok(after) => if spec_look_up(w.types, name.text@)->0.kind == DefinitionKind::Trait {
            Err(ResolveError { kind: ResolveErrorKind::TraitAsType(name.text), span: name.span })
        } else {
            Ok(after)
        },
        Err(error) => Err(error),
    }
}

/// The module a path is reached through, a name among the values that is a module.
pub open spec fn spec_reached_through(w: Walk, module: Name) -> Step {
    match spec_use_value(w, module) {
        Ok(after) => if spec_look_up(w.values, module.text@)->0.kind == DefinitionKind::Module {
            Ok(after)
        } else {
            Err(ResolveError { kind: ResolveErrorKind::NotAModule(module.text), span: module.span })
        },
        Err(error) => Err(error),
    }
}

/// The name a value is built with: a constructor here, or a name reached through a module.
pub open spec fn spec_built_as(w: Walk, path: Path) -> Step {
    match path.module {
        Some(module) => spec_reached_through(w, module),
        None => spec_use_value(w, path.name),
    }
}

/// `name` at a place that takes what `position` takes, refused where it names a function or a
/// module and the place wants a value.
pub open spec fn spec_named(w: Walk, name: Name, position: Position) -> Step {
    match spec_use_value(w, name) {
        Ok(after) => {
            let found = spec_look_up(w.values, name.text@)->0;
            if position.spec_takes(found.kind) {
                Ok(after)
            } else if found.kind == DefinitionKind::Function || found.kind == DefinitionKind::TraitMethod {
                Err(ResolveError { kind: ResolveErrorKind::NotCalled(name.text), span: name.span })
            } else if found.kind == DefinitionKind::Module {
                Err(ResolveError { kind: ResolveErrorKind::NotReachedThrough(name.text), span: name.span })
            } else {
                Ok(after)
            }
        },
        Err(error) => Err(error),
    }
}

/// The name an assignment changes, which has to be a `var` binding.
pub open spec fn spec_assigned_to(w: Walk, name: Name) -> Step {
    match spec_named(w, name, Position::Value) {
        Ok(after) => if spec_look_up(w.values, name.text@)->0.kind == DefinitionKind::Variable {
            Ok(after)
        } else {
            Err(ResolveError { kind: ResolveErrorKind::NotAVariable(name.text), span: name.span })
        },
        Err(error) => Err(error),
    }
}

/// Whether `receiver` is written as the name of a module.
pub open spec fn names_a_module(w: Walk, receiver: Expr) -> bool {
    receiver.kind matches ExprKind::Name(name) && spec_look_up(w.values, name.text@) matches Some(found)
        && found.kind == DefinitionKind::Module
}

/// The methods of the prelude's trait called `text`, none where it supplies no such trait.
pub open spec fn supplied_methods(supplied: Seq<(Seq<char>, Seq<String>)>, text: Seq<char>) -> Seq<String> {
    match first_where(supplied, supplied_trait_named(text)) {
        Some(k) => supplied[k].1,
        None => Seq::empty(),
    }
}

/// Whether a trait the prelude supplies is the one called `text`.
pub open spec fn supplied_trait_named(text: Seq<char>) -> spec_fn((Seq<char>, Seq<String>)) -> bool {
    |one: (Seq<char>, Seq<String>)| one.0 == text
}

/// Whether a trait this module declares is the one called `text`.
pub open spec fn declared_trait_named(text: Seq<char>) -> spec_fn((String, Seq<String>)) -> bool {
    |one: (String, Seq<String>)| one.0@ == text
}

/// The methods of this module's trait called `text`, none where it declares no such trait.
pub open spec fn declared_methods(declared: Seq<(String, Seq<String>)>, text: Seq<char>) -> Seq<String> {
    match first_where(declared, declared_trait_named(text)) {
        Some(k) => declared[k].1,
        None => Seq::empty(),
    }
}

/// A name written where a trait belongs, with the methods the trait declares.
pub open spec fn spec_trait_named(w: Walk, name: Name) -> Result<(Walk, Seq<String>), ResolveError> {
    match spec_use_type(w, name) {
        Ok(after) => {
            let found = spec_look_up(w.types, name.text@)->0;
            if found.kind != DefinitionKind::Trait {
                Err(ResolveError { kind: ResolveErrorKind::NotATrait(name.text), span: name.span })
            } else if found.origin is Prelude {
                Ok((after, supplied_methods(w.supplied, name.text@)))
            } else {
                Ok((after, declared_methods(w.declared, name.text@)))
            }
        },
        Err(error) => Err(error),
    }
}

/// A claim that `of` has an instance for `for_type`, refused where it already has one.
pub open spec fn spec_claimed(w: Walk, of: Name, for_type: Name) -> Step {
    if w.claims.contains((of.text@, for_type.text@)) {
        Err(
            ResolveError {
                kind: ResolveErrorKind::InstanceTwice { of: of.text, for_type: for_type.text },
                span: for_type.span,
            },
        )
    } else {
        Ok(Walk { claims: w.claims.push((of.text@, for_type.text@)), ..w })
    }
}

/// A written type: its name, or the module it is reached through, then each argument.
pub open spec fn spec_type_ref(w: Walk, type_ref: TypeRef) -> Step
    decreases type_ref, 0int,
{
    match type_ref.kind {
        TypeRefKind::Unit => Ok(w),
        TypeRefKind::Named { path, arguments } => {
            let head = match path.module {
                Some(module) => spec_reached_through(w, module),
                None => spec_named_type(w, path.name),
            };
            proof {
                assert(decreases_to!(type_ref => type_ref.kind));
                assert(decreases_to!(type_ref.kind => arguments));
                assert(decreases_to!(arguments => arguments@));
            }
            match head {
                Ok(after) => spec_type_refs(after, arguments@, 0),
                Err(error) => Err(error),
            }
        },
    }
}

/// Each of `type_refs` from the one at `i` on, in order.
pub open spec fn spec_type_refs(w: Walk, type_refs: Seq<TypeRef>, i: int) -> Step
    decreases type_refs, type_refs.len() - i,
{
    if 0 <= i < type_refs.len() {
        proof {
            assert(decreases_to!(type_refs => type_refs[i]));
        }
        match spec_type_ref(w, type_refs[i]) {
            Ok(after) => spec_type_refs(after, type_refs, i + 1),
            Err(error) => Err(error),
        }
    } else {
        Ok(w)
    }
}

/// The type each of `fields` from the one at `i` on is written with.
pub open spec fn spec_record_fields(w: Walk, fields: Seq<RecordField>, i: int) -> Step
    decreases fields.len() - i,
{
    if 0 <= i < fields.len() {
        match spec_type_ref(w, fields[i].type_ref) {
            Ok(after) => spec_record_fields(after, fields, i + 1),
            Err(error) => Err(error),
        }
    } else {
        Ok(w)
    }
}

/// What one variant carries.
pub open spec fn spec_variant(w: Walk, variant: Variant) -> Step {
    match variant.payload {
        VariantPayload::Bare => Ok(w),
        VariantPayload::Tuple(types) => spec_type_refs(w, types@, 0),
        VariantPayload::Record(fields) => spec_record_fields(w, fields@, 0),
    }
}

/// Each of `variants` from the one at `i` on.
pub open spec fn spec_variants(w: Walk, variants: Seq<Variant>, i: int) -> Step
    decreases variants.len() - i,
{
    if 0 <= i < variants.len() {
        match spec_variant(w, variants[i]) {
            Ok(after) => spec_variants(after, variants, i + 1),
            Err(error) => Err(error),
        }
    } else {
        Ok(w)
    }
}

/// Each of `names` from the one at `i` on introduced among the types as `kind`.
pub open spec fn spec_introduce_types(w: Walk, names: Seq<Name>, kind: DefinitionKind, i: int) -> Step
    decreases names.len() - i,
{
    if 0 <= i < names.len() {
        match spec_introduce_type(w, names[i], kind) {
            Ok(after) => spec_introduce_types(after, names, kind, i + 1),
            Err(error) => Err(error),
        }
    } else {
        Ok(w)
    }
}

/// Each of `names` from the one at `i` on introduced among the values as `kind`.
pub open spec fn spec_introduce_values(w: Walk, names: Seq<Name>, kind: DefinitionKind, i: int) -> Step
    decreases names.len() - i,
{
    if 0 <= i < names.len() {
        match spec_introduce_value(w, names[i], kind) {
            Ok(after) => spec_introduce_values(after, names, kind, i + 1),
            Err(error) => Err(error),
        }
    } else {
        Ok(w)
    }
}

/// The names of `variants`.
pub open spec fn variant_names(variants: Seq<Variant>) -> Seq<Name> {
    variants.map_values(|variant: Variant| variant.name)
}

/// The names of `parameters`, which is what a function introduces them by.
pub open spec fn type_parameter_names(parameters: Seq<TypeParameter>) -> Seq<Name> {
    parameters.map_values(|parameter: TypeParameter| parameter.name)
}

/// The names of `methods`.
pub open spec fn method_names(methods: Seq<Signature>) -> Seq<Name> {
    methods.map_values(|method: Signature| method.name)
}

/// A type declaration's names: the type, and the value each variant, or the record, is built
/// with.
pub open spec fn spec_declare_type(w: Walk, declaration: TypeDeclaration) -> Step {
    match spec_introduce_type(w, declaration.name, DefinitionKind::Type) {
        Ok(after) => match declaration.definition {
            TypeDefinition::Variants(variants) => spec_introduce_values(
                after,
                variant_names(variants@),
                DefinitionKind::Constructor,
                0,
            ),
            _ => spec_introduce_value(after, declaration.name, DefinitionKind::Constructor),
        },
        Err(error) => Err(error),
    }
}

/// The strings a trait's methods are written with.
pub open spec fn method_strings(methods: Seq<Signature>) -> Seq<String> {
    methods.map_values(|method: Signature| method.name.text)
}

/// A trait's names: the trait among the types, each method among the values, and the trait
/// with its methods among those the module declares.
pub open spec fn spec_declare_trait(w: Walk, declaration: TraitDeclaration) -> Step {
    match spec_introduce_type(w, declaration.name, DefinitionKind::Trait) {
        Ok(after) => match spec_introduce_values(
            after,
            method_names(declaration.methods@),
            DefinitionKind::TraitMethod,
            0,
        ) {
            Ok(named) => Ok(
                Walk {
                    declared: named.declared.push(
                        (declaration.name.text, method_strings(declaration.methods@)),
                    ),
                    ..named
                },
            ),
            Err(error) => Err(error),
        },
        Err(error) => Err(error),
    }
}

/// What one item declares, before any body is walked.
pub open spec fn spec_declare(w: Walk, item: Item) -> Step {
    match item {
        Item::Import(import) => spec_introduce_value(w, import.module, DefinitionKind::Module),
        Item::Type(declaration) => spec_declare_type(w, declaration),
        Item::Trait(declaration) => spec_declare_trait(w, declaration),
        Item::Instance(_) | Item::Derive(_) => Ok(w),
        Item::Function(function) => spec_introduce_value(w, function.name, DefinitionKind::Function),
    }
}

/// A type declaration read: its parameters in a layer of their own, and what it is made of.
pub open spec fn spec_type_declaration(w: Walk, declaration: TypeDeclaration) -> Step {
    match spec_introduce_types(
        enter_types(w),
        declaration.parameters@,
        DefinitionKind::TypeParameter,
        0,
    ) {
        Ok(after) => type_declaration_rest(after, declaration),
        Err(error) => Err(error),
    }
}

/// The rest of a type declaration once its parameters are in scope: what it is made of, and the
/// layer it opened closed again.
pub open spec fn type_declaration_rest(w: Walk, declaration: TypeDeclaration) -> Step {
    match match declaration.definition {
        TypeDefinition::Record(fields) => spec_record_fields(w, fields@, 0),
        TypeDefinition::Variants(variants) => spec_variants(w, variants@, 0),
        TypeDefinition::Foreign { .. } => Ok(w),
    } {
        Ok(read) => Ok(leave_types(read)),
        Err(error) => Err(error),
    }
}

/// The trait a type parameter is constrained by, when the author wrote one, and its argument.
pub open spec fn spec_constrained(w: Walk, parameter: TypeParameter) -> Step {
    match parameter.constraint {
        None => Ok(w),
        Some(constraint) => match spec_trait_named(w, constraint.name) {
            Ok((after, _)) => spec_type_ref(after, constraint.argument),
            Err(error) => Err(error),
        },
    }
}

/// The constraints of each of `parameters` from the one at `i` on.
pub open spec fn spec_constraints(w: Walk, parameters: Seq<TypeParameter>, i: int) -> Step
    decreases parameters.len() - i,
{
    if 0 <= i < parameters.len() {
        match spec_constrained(w, parameters[i]) {
            Ok(after) => spec_constraints(after, parameters, i + 1),
            Err(error) => Err(error),
        }
    } else {
        Ok(w)
    }
}

/// An optional written type, nothing where there is none.
pub open spec fn spec_type_ref_if(w: Walk, type_ref: Option<TypeRef>) -> Step {
    match type_ref {
        Some(written) => spec_type_ref(w, written),
        None => Ok(w),
    }
}

/// Each of `parameters` from the one at `i` on: its type, where written, then its name.
pub open spec fn spec_parameters(w: Walk, parameters: Seq<Parameter>, i: int) -> Step
    decreases parameters.len() - i,
{
    if 0 <= i < parameters.len() {
        match spec_type_ref_if(w, parameters[i].type_ref) {
            Ok(typed) => match spec_introduce_value(typed, parameters[i].name, DefinitionKind::Parameter) {
                Ok(after) => spec_parameters(after, parameters, i + 1),
                Err(error) => Err(error),
            },
            Err(error) => Err(error),
        }
    } else {
        Ok(w)
    }
}

/// One signature a trait declares: its parameters in a layer of their own, then its result.
pub open spec fn spec_signature(w: Walk, method: Signature) -> Step {
    match spec_parameters(enter_values(w), method.parameters@, 0) {
        Ok(after) => match spec_type_ref_if(after, method.result) {
            Ok(read) => Ok(leave_values(read)),
            Err(error) => Err(error),
        },
        Err(error) => Err(error),
    }
}

/// Each of `methods` from the one at `i` on.
pub open spec fn spec_signatures(w: Walk, methods: Seq<Signature>, i: int) -> Step
    decreases methods.len() - i,
{
    if 0 <= i < methods.len() {
        match spec_signature(w, methods[i]) {
            Ok(after) => spec_signatures(after, methods, i + 1),
            Err(error) => Err(error),
        }
    } else {
        Ok(w)
    }
}

/// A trait's signatures, each read with the trait's type parameter in a layer of its own.
pub open spec fn spec_trait_declaration(w: Walk, declaration: TraitDeclaration) -> Step {
    match spec_introduce_type(enter_types(w), declaration.parameter, DefinitionKind::TypeParameter) {
        Ok(after) => match spec_signatures(after, declaration.methods@, 0) {
            Ok(read) => Ok(leave_types(read)),
            Err(error) => Err(error),
        },
        Err(error) => Err(error),
    }
}

/// A bare name in a pattern: reached through a module, a constructor it matches, or a binding.
pub open spec fn spec_bare_pattern(w: Walk, path: Path) -> Step {
    match path.module {
        Some(module) => spec_reached_through(w, module),
        None => if is_constructor(spec_look_up(w.values, path.name.text@)) {
            spec_use_value(w, path.name)
        } else {
            spec_introduce_value(w, path.name, DefinitionKind::Local)
        },
    }
}

/// A pattern: the constructors it names, and the names it binds.
pub open spec fn spec_pattern(w: Walk, pattern: Pattern) -> Step
    decreases pattern, 1int,
{
    match pattern.kind {
        PatternKind::Name(path) => spec_bare_pattern(w, path),
        PatternKind::Tuple { path, elements } => {
            proof {
                assert(decreases_to!(pattern => pattern.kind));
                assert(decreases_to!(pattern.kind => elements));
                assert(decreases_to!(elements => elements@));
            }
            match spec_built_as(w, path) {
                Ok(after) => spec_patterns(after, elements@, 0),
                Err(error) => Err(error),
            }
        },
        PatternKind::Record { path, fields } => match spec_built_as(w, path) {
            Ok(after) => spec_introduce_values(after, fields@, DefinitionKind::Local, 0),
            Err(error) => Err(error),
        },
        PatternKind::Or(alternatives) => {
            proof {
                assert(decreases_to!(pattern => pattern.kind));
                assert(decreases_to!(pattern.kind => alternatives));
                assert(decreases_to!(alternatives => alternatives@));
            }
            spec_any_of(w, alternatives@, 0)
        },
        _ => Ok(w),
    }
}

/// Each of `patterns` from the one at `i` on.
pub open spec fn spec_patterns(w: Walk, patterns: Seq<Pattern>, i: int) -> Step
    decreases patterns, patterns.len() - i,
{
    if 0 <= i < patterns.len() {
        proof {
            assert(decreases_to!(patterns => patterns[i]));
        }
        match spec_pattern(w, patterns[i]) {
            Ok(after) => spec_patterns(after, patterns, i + 1),
            Err(error) => Err(error),
        }
    } else {
        Ok(w)
    }
}

/// The alternatives of an or-pattern from the one at `i` on, each refused where it binds.
pub open spec fn spec_any_of(w: Walk, alternatives: Seq<Pattern>, i: int) -> Step
    decreases alternatives, alternatives.len() - i,
{
    if 0 <= i < alternatives.len() {
        proof {
            assert(decreases_to!(alternatives => alternatives[i]));
        }
        match first_binding(w.values, alternatives[i]) {
            Some(bound) => Err(ResolveError { kind: ResolveErrorKind::BindsInsideOr(bound.text), span: bound.span }),
            None => match spec_pattern(w, alternatives[i]) {
                Ok(after) => spec_any_of(after, alternatives, i + 1),
                Err(error) => Err(error),
            },
        }
    } else {
        Ok(w)
    }
}

/// Every name of an expression, pointed at what it means.
pub open spec fn spec_expr(w: Walk, expr: Expr) -> Step
    decreases expr, 0int,
{
    match expr.kind {
        ExprKind::Name(name) => spec_named(w, name, Position::Value),
        ExprKind::Integer(_) | ExprKind::String(_) | ExprKind::Bool(_) | ExprKind::Unit => Ok(w),
        ExprKind::Unary { operand, .. } => spec_expr(w, *operand),
        ExprKind::Binary { left, right, .. } => match spec_expr(w, *left) {
            Ok(after) => spec_expr(after, *right),
            Err(error) => Err(error),
        },
        ExprKind::Call { callee, arguments } => {
            proof {
                assert(decreases_to!(expr => expr.kind));
                assert(decreases_to!(expr.kind => arguments));
                assert(decreases_to!(arguments => arguments@));
            }
            match spec_written(w, *callee, Position::Callee) {
                Ok(after) => spec_arguments(after, arguments@, 0),
                Err(error) => Err(error),
            }
        },
        ExprKind::Field { receiver, field } => match spec_written(w, *receiver, Position::Receiver) {
            Ok(after) => if names_a_module(w, *receiver) {
                Err(ResolveError { kind: ResolveErrorKind::NotCalled(field.text), span: field.span })
            } else {
                Ok(after)
            },
            Err(error) => Err(error),
        },
        ExprKind::Try(inner) => spec_expr(w, *inner),
        ExprKind::List(elements) => {
            proof {
                assert(decreases_to!(expr => expr.kind));
                assert(decreases_to!(expr.kind => elements));
                assert(decreases_to!(elements => elements@));
            }
            spec_exprs(w, elements@, 0)
        },
        ExprKind::Record { base, fields } => {
            proof {
                assert(decreases_to!(expr => expr.kind));
                assert(decreases_to!(expr.kind => fields));
                assert(decreases_to!(fields => fields@));
            }
            match spec_built_as(w, base) {
                Ok(after) => spec_field_values(after, fields@, 0),
                Err(error) => Err(error),
            }
        },
        ExprKind::If(chain) => spec_if(w, chain),
        ExprKind::Match(matched) => spec_match(w, matched),
    }
}

/// An expression in a place that takes what `position` takes, when it is a bare name.
pub open spec fn spec_written(w: Walk, expr: Expr, position: Position) -> Step
    decreases expr, 1int,
{
    match expr.kind {
        ExprKind::Name(name) => spec_named(w, name, position),
        ExprKind::Field { receiver, field } => if position == Position::Callee {
            match spec_written(w, *receiver, Position::Receiver) {
                Ok(after) => if names_a_module(w, *receiver) {
                    Ok(after)
                } else {
                    spec_named(after, field, Position::Callee)
                },
                Err(error) => Err(error),
            }
        } else {
            spec_expr(w, expr)
        },
        _ => spec_expr(w, expr),
    }
}

/// The value of each of `arguments` from the one at `i` on.
pub open spec fn spec_arguments(w: Walk, arguments: Seq<Argument>, i: int) -> Step
    decreases arguments, arguments.len() - i,
{
    if 0 <= i < arguments.len() {
        proof {
            assert(decreases_to!(arguments => arguments[i]));
        }
        match spec_expr(w, arguments[i].value) {
            Ok(after) => spec_arguments(after, arguments, i + 1),
            Err(error) => Err(error),
        }
    } else {
        Ok(w)
    }
}

/// Each of `exprs` from the one at `i` on.
pub open spec fn spec_exprs(w: Walk, exprs: Seq<Expr>, i: int) -> Step
    decreases exprs, exprs.len() - i,
{
    if 0 <= i < exprs.len() {
        proof {
            assert(decreases_to!(exprs => exprs[i]));
        }
        match spec_expr(w, exprs[i]) {
            Ok(after) => spec_exprs(after, exprs, i + 1),
            Err(error) => Err(error),
        }
    } else {
        Ok(w)
    }
}

/// The value of each of `fields` from the one at `i` on.
pub open spec fn spec_field_values(w: Walk, fields: Seq<FieldValue>, i: int) -> Step
    decreases fields, fields.len() - i,
{
    if 0 <= i < fields.len() {
        proof {
            assert(decreases_to!(fields => fields[i]));
        }
        match spec_expr(w, fields[i].value) {
            Ok(after) => spec_field_values(after, fields, i + 1),
            Err(error) => Err(error),
        }
    } else {
        Ok(w)
    }
}

/// An `if`: each condition and block in order, then the block of the `else`.
pub open spec fn spec_if(w: Walk, chain: IfExpr) -> Step
    decreases chain, 0int,
{
    proof {
        assert(decreases_to!(chain => chain.branches));
        assert(decreases_to!(chain.branches => chain.branches@));
    }
    match spec_branches(w, chain.branches@, 0) {
        Ok(after) => match chain.otherwise {
            Some(block) => spec_block(after, block),
            None => Ok(after),
        },
        Err(error) => Err(error),
    }
}

/// Each of `branches` from the one at `i` on: its condition, then its block.
pub open spec fn spec_branches(w: Walk, branches: Seq<Branch>, i: int) -> Step
    decreases branches, branches.len() - i,
{
    if 0 <= i < branches.len() {
        proof {
            assert(decreases_to!(branches => branches[i]));
        }
        match spec_expr(w, branches[i].condition) {
            Ok(checked) => match spec_block(checked, branches[i].block) {
                Ok(after) => spec_branches(after, branches, i + 1),
                Err(error) => Err(error),
            },
            Err(error) => Err(error),
        }
    } else {
        Ok(w)
    }
}

/// A `match`: what it matches, then each arm in a layer of its own.
pub open spec fn spec_match(w: Walk, matched: MatchExpr) -> Step
    decreases matched, 0int,
{
    proof {
        assert(decreases_to!(matched => matched.arms));
        assert(decreases_to!(matched.arms => matched.arms@));
    }
    match spec_expr(w, *matched.scrutinee) {
        Ok(after) => spec_arms(after, matched.arms@, 0),
        Err(error) => Err(error),
    }
}

/// Each of `arms` from the one at `i` on: its pattern, then its body, in a layer of its own.
pub open spec fn spec_arms(w: Walk, arms: Seq<Arm>, i: int) -> Step
    decreases arms, arms.len() - i,
{
    if 0 <= i < arms.len() {
        proof {
            assert(decreases_to!(arms => arms[i]));
        }
        match spec_pattern(enter_values(w), arms[i].pattern) {
            Ok(bound) => match spec_expr(bound, arms[i].body) {
                Ok(after) => spec_arms(leave_values(after), arms, i + 1),
                Err(error) => Err(error),
            },
            Err(error) => Err(error),
        }
    } else {
        Ok(w)
    }
}

/// A block: its statements in a layer of their own.
pub open spec fn spec_block(w: Walk, block: Block) -> Step
    decreases block, 0int,
{
    proof {
        assert(decreases_to!(block => block.statements));
        assert(decreases_to!(block.statements => block.statements@));
    }
    match spec_statements(enter_values(w), block.statements@, 0) {
        Ok(after) => Ok(leave_values(after)),
        Err(error) => Err(error),
    }
}

/// Each of `statements` from the one at `i` on.
pub open spec fn spec_statements(w: Walk, statements: Seq<Statement>, i: int) -> Step
    decreases statements, statements.len() - i,
{
    if 0 <= i < statements.len() {
        proof {
            assert(decreases_to!(statements => statements[i]));
        }
        match spec_statement(w, statements[i]) {
            Ok(after) => spec_statements(after, statements, i + 1),
            Err(error) => Err(error),
        }
    } else {
        Ok(w)
    }
}

/// One statement.
pub open spec fn spec_statement(w: Walk, statement: Statement) -> Step
    decreases statement, 0int,
{
    match statement.kind {
        StatementKind::Binding { mutability, name, value } => match spec_expr(w, value) {
            Ok(after) => spec_introduce_value(after, name, spec_bound(mutability)),
            Err(error) => Err(error),
        },
        StatementKind::Assign { target, value, .. } => match spec_assigned_to(w, target) {
            Ok(after) => spec_expr(after, value),
            Err(error) => Err(error),
        },
        StatementKind::Return(value) => match value {
            Some(returned) => spec_expr(w, returned),
            None => Ok(w),
        },
        StatementKind::Break | StatementKind::Continue => Ok(w),
        StatementKind::For(walked) => spec_for(w, walked),
        StatementKind::Discard(expr) => spec_expr(w, expr),
        StatementKind::Expr(expr) => spec_expr(w, expr),
    }
}

/// A loop: its header and body in a layer of their own.
pub open spec fn spec_for(w: Walk, walked: ForLoop) -> Step
    decreases walked, 0int,
{
    let entered = enter_values(w);
    let headed = match walked.header {
        ForHeader::Forever => Ok(entered),
        ForHeader::While(condition) => spec_expr(entered, condition),
        ForHeader::In { binding, iterable } => match spec_expr(entered, iterable) {
            Ok(after) => spec_introduce_value(after, binding, DefinitionKind::Local),
            Err(error) => Err(error),
        },
    };
    match headed {
        Ok(after) => match spec_block(after, walked.body) {
            Ok(read) => Ok(leave_values(read)),
            Err(error) => Err(error),
        },
        Err(error) => Err(error),
    }
}

/// A function: its type parameters, their constraints, its parameters, its result, and its
/// body, with its own layer in each scope.
pub open spec fn spec_function(w: Walk, function: Function) -> Step {
    match spec_introduce_types(
        enter_values(enter_types(w)),
        type_parameter_names(function.type_parameters@),
        DefinitionKind::TypeParameter,
        0,
    ) {
        Ok(introduced) => function_from_constraints(introduced, function),
        Err(error) => Err(error),
    }
}

/// The rest of a function once its type parameters are in scope: their constraints on.
pub open spec fn function_from_constraints(w: Walk, function: Function) -> Step {
    match spec_constraints(w, function.type_parameters@, 0) {
        Ok(constrained) => function_from_parameters(constrained, function),
        Err(error) => Err(error),
    }
}

/// The rest of a function once its constraints are read: its parameters on.
pub open spec fn function_from_parameters(w: Walk, function: Function) -> Step {
    match spec_parameters(w, function.parameters@, 0) {
        Ok(parameters) => function_from_result(parameters, function),
        Err(error) => Err(error),
    }
}

/// The rest of a function once its parameters are in scope: its result, its body, and the two
/// layers it opened closed again.
pub open spec fn function_from_result(w: Walk, function: Function) -> Step {
    match spec_type_ref_if(w, function.result) {
        Ok(typed) => match spec_block(typed, function.body) {
            Ok(after) => Ok(leave_types(leave_values(after))),
            Err(error) => Err(error),
        },
        Err(error) => Err(error),
    }
}

/// Each of `functions` from the one at `i` on.
pub open spec fn spec_functions(w: Walk, functions: Seq<Function>, i: int) -> Step
    decreases functions.len() - i,
{
    if 0 <= i < functions.len() {
        match spec_function(w, functions[i]) {
            Ok(after) => spec_functions(after, functions, i + 1),
            Err(error) => Err(error),
        }
    } else {
        Ok(w)
    }
}

/// What an instance's method names are refused with, where one is.
pub open spec fn spec_names_once(declaration: InstanceDeclaration, declared: Seq<String>) -> Result<
    (),
    ResolveError,
> {
    match first_refused(written_names(declaration.methods@), texts(declared), 0) {
        None => Ok(()),
        Some(k) => Err(
            ResolveError {
                kind: if !texts(declared).contains(written_names(declaration.methods@)[k]) {
                    ResolveErrorKind::MethodUndeclared {
                        of: declaration.trait_name.text,
                        method: declaration.methods@[k].name.text,
                    }
                } else {
                    ResolveErrorKind::MethodTwice {
                        of: declaration.trait_name.text,
                        method: declaration.methods@[k].name.text,
                    }
                },
                span: declaration.methods@[k].name.span,
            },
        ),
    }
}

/// What an instance that leaves out a method its trait declares is refused with, where it does.
pub open spec fn spec_every_one(declaration: InstanceDeclaration, declared: Seq<String>) -> Result<
    (),
    ResolveError,
> {
    match first_where(declared, unwritten(written_names(declaration.methods@))) {
        None => Ok(()),
        Some(k) => Err(
            ResolveError {
                kind: ResolveErrorKind::MethodMissing { of: declaration.trait_name.text, method: declared[k] },
                span: declaration.trait_name.span,
            },
        ),
    }
}

/// An instance: the trait it is for, the type it is for, its claim, that it writes each method
/// its trait declares once, and then each method.
pub open spec fn spec_instance(w: Walk, declaration: InstanceDeclaration) -> Step {
    match spec_trait_named(w, declaration.trait_name) {
        Ok((named, declared)) => match spec_named_type(named, declaration.for_type) {
            Ok(typed) => match spec_claimed(typed, declaration.trait_name, declaration.for_type) {
                Ok(claimed) => match spec_names_once(declaration, declared) {
                    Ok(()) => match spec_every_one(declaration, declared) {
                        Ok(()) => spec_functions(claimed, declaration.methods@, 0),
                        Err(error) => Err(error),
                    },
                    Err(error) => Err(error),
                },
                Err(error) => Err(error),
            },
            Err(error) => Err(error),
        },
        Err(error) => Err(error),
    }
}

/// Each trait a derive names from the one at `i` on: a trait, one a type derives, and claimed.
pub open spec fn spec_derived(w: Walk, traits: Seq<Name>, for_type: Name, i: int) -> Step
    decreases traits.len() - i,
{
    if 0 <= i < traits.len() {
        match spec_trait_named(w, traits[i]) {
            Ok((named, _)) => if !derivable_names().contains(traits[i].text@) {
                Err(ResolveError { kind: ResolveErrorKind::NotDerivable(traits[i].text), span: traits[i].span })
            } else {
                match spec_claimed(named, traits[i], for_type) {
                    Ok(after) => spec_derived(after, traits, for_type, i + 1),
                    Err(error) => Err(error),
                }
            },
            Err(error) => Err(error),
        }
    } else {
        Ok(w)
    }
}

/// A derive: the type it is for, which this module has to declare, and each trait it names.
pub open spec fn spec_derive(w: Walk, declaration: DeriveDeclaration) -> Step {
    match spec_named_type(w, declaration.for_type) {
        Ok(typed) => if spec_look_up(w.types, declaration.for_type.text@) matches Some(found)
            && found.origin is Declared {
            spec_derived(typed, declaration.traits@, declaration.for_type, 0)
        } else {
            Err(
                ResolveError {
                    kind: ResolveErrorKind::NotDeclaredHere(declaration.for_type.text),
                    span: declaration.for_type.span,
                },
            )
        },
        Err(error) => Err(error),
    }
}

/// What one item's body resolves to, once every name the module declares is in scope.
pub open spec fn spec_define(w: Walk, item: Item) -> Step {
    match item {
        Item::Import(_) => Ok(w),
        Item::Type(declaration) => spec_type_declaration(w, declaration),
        Item::Trait(declaration) => spec_trait_declaration(w, declaration),
        Item::Instance(declaration) => spec_instance(w, declaration),
        Item::Derive(declaration) => spec_derive(w, declaration),
        Item::Function(function) => spec_function(w, function),
    }
}

/// What a module is resolved against: the prelude's types and traits, its constructors,
/// functions and methods, the instances it already has, and its traits with their methods.
pub open spec fn spec_start(prelude: Program) -> Walk {
    let items = prelude.items@;
    Walk {
        types: seq![
            prelude_layer(
                seq![
                    (held_type_names() + type_names(declared_types(items)), DefinitionKind::Type),
                    (trait_names_of(declared_traits(items)), DefinitionKind::Trait),
                ],
            ),
        ],
        values: seq![
            prelude_layer(
                seq![
                    (constructor_texts(declared_types(items)), DefinitionKind::Constructor),
                    (function_names(items) + supplied_names(), DefinitionKind::Function),
                    (all_method_texts(declared_traits(items)), DefinitionKind::TraitMethod),
                ],
            ),
        ],
        found: Map::empty(),
        claims: instance_names(items),
        declared: Seq::empty(),
        supplied: declared_traits(items).map_values(
            |declaration: TraitDeclaration| (declaration.name.text@, method_strings(declaration.methods@)),
        ),
    }
}

/// What the prelude itself is resolved against: the types the JVM holds, and `todo` with the
/// functions the compiler holds for it.
pub open spec fn prelude_start() -> Walk {
    Walk {
        types: seq![prelude_layer(seq![(held_type_names(), DefinitionKind::Type)])],
        values: seq![
            prelude_layer(
                seq![(supplied_names() + held_function_names(), DefinitionKind::Function)],
            ),
        ],
        found: Map::empty(),
        claims: Seq::empty(),
        declared: Seq::empty(),
        supplied: Seq::empty(),
    }
}

/// What each of `items` from the one at `i` on declares.
pub open spec fn spec_declares(w: Walk, items: Seq<Item>, i: int) -> Step
    decreases items.len() - i,
{
    if 0 <= i < items.len() {
        match spec_declare(w, items[i]) {
            Ok(after) => spec_declares(after, items, i + 1),
            Err(error) => Err(error),
        }
    } else {
        Ok(w)
    }
}

/// What the body of each of `items` from the one at `i` on resolves to.
pub open spec fn spec_defines(w: Walk, items: Seq<Item>, i: int) -> Step
    decreases items.len() - i,
{
    if 0 <= i < items.len() {
        match spec_define(w, items[i]) {
            Ok(after) => spec_defines(after, items, i + 1),
            Err(error) => Err(error),
        }
    } else {
        Ok(w)
    }
}

/// A module: a layer of its own in each scope, every name it declares in it, and then the body of
/// each item in the order it is written.
pub open spec fn spec_module(w: Walk, program: Program) -> Step {
    match spec_declares(enter_values(enter_types(w)), program.items@, 0) {
        Ok(declared) => spec_defines(declared, program.items@, 0),
        Err(error) => Err(error),
    }
}

/// Whether `error` says that the declaration at `pair.0` is written above the one at `pair.1`,
/// which uses it, pointing at the name of the first.
pub open spec fn written_above(error: ResolveError, declared: Seq<DeclaredView>, pair: (int, int)) -> bool {
    &&& error.span == declared[pair.0].0.span
    &&& error.kind matches ResolveErrorKind::WrittenAbove { declared: above, used_by }
    &&& above@ == declared[pair.0].1
    &&& used_by@ == declared[pair.1].1
}

/// Whether `resolved` is what resolving `program`, the module called `module`, from what `start`
/// holds comes to: the first name that names nothing, is declared twice, hides a name in scope,
/// or is refused where it is written; else the first declaration written above one that uses it;
/// else the program with the definition each name was pointed at.
pub open spec fn resolves_as(
    resolved: Result<ResolvedProgram, ResolveError>,
    program: Program,
    module: Seq<char>,
    start: Walk,
) -> bool {
    match spec_module(start, program) {
        Err(error) => resolved == Err::<ResolvedProgram, ResolveError>(error),
        Ok(walked) => match spec_out_of_order(declarations_of(program.items@), walked.found) {
            Some(pair) => resolved matches Err(error) && written_above(
                error,
                declarations_of(program.items@),
                pair,
            ),
            None => resolved matches Ok(found) && found.spec_program() == program && found.spec_module()
                == module && found.spec_definitions() == walked.found,
        },
    }
}

} // verus!
