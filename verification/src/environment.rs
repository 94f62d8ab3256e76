//! What a module declares, gathered before any body is inferred.
use vstd::prelude::*;

use crate::ast::{Called, DeriveDeclaration, Function, InstanceDeclaration, Item, Name, Parameter, Path, Program};
use crate::ast::{RecordField, Signature, Span, TraitDeclaration, TypeDeclaration, TypeDefinition};
use crate::ast::{TypeParameter as WrittenParameter, TypeRef, TypeRefKind, Variant, VariantPayload};
use crate::ast::{ExternDeclaration, Gives, Reaches};
use crate::boundary::{builds_a_class, called_as, class, crosses, foreign_view, is_java_name};
use crate::boundary::{reaches_a_class, spec_carries, spec_given_back, spec_is_a_reference, stated_by};
use crate::boundary::{widens, Crossing};
use crate::bounds::{spec_whole_number, stated, writes_method, Bounds};
use crate::definition::{Definition, DefinitionKind, Namespace, Origin};
use crate::derive::{derives_declared, hold_what_they_need, spec_derives_checked};
use crate::filed::Filed;
use crate::prelude::{held_type_table, held_types, HIGHEST, INTEGER_LITERAL, LOWEST};
use crate::reaching_java::ReachingJava;
use crate::resolve::program::ResolvedProgram;
use crate::scheme::{replaced, required_view, stand_in, stand_ins, Quantified, Required, Scheme};
use crate::table::Table;
use crate::text::{copied_strings, same_text, texts};
use crate::type_error::{Count, TypeError, TypeErrorKind};
use crate::types::{lemma_views_of, plain, views_of, Type, TypeParameter, TypeVar, TypeView, INT, STRING};

pub mod key;

use key::{parameter_of, quantified, spec_key_of, written_over, written_stand_in, Key, KeyView};

verus! {

/// How a declaration of the source being read is filed.
///
/// A module's declarations are known by where they are written, which is unique within the one
/// file being compiled. The prelude is a second file, whose places would collide with that one,
/// and a module reaches a prelude name by spelling in any case, so it is filed by name.
#[derive(Clone, Copy, Debug, PartialEq, Eq, Structural)]
pub enum Keyed {
    WhereWritten,
    ByName,
}

/// The key the declaration `name` is the name of, in a source filed as `keyed` says.
pub open spec fn spec_declared_at(keyed: Keyed, name: Name) -> KeyView {
    match keyed {
        Keyed::WhereWritten => KeyView::Declared(name.span),
        Keyed::ByName => KeyView::Prelude(name.text@),
    }
}

/// The key a use of `name` reaches, which `definition` says where to find.
pub open spec fn spec_reached_key(keyed: Keyed, definition: Definition, name: Name) -> KeyView {
    match keyed {
        Keyed::WhereWritten => spec_key_of(definition, name.text@),
        Keyed::ByName => KeyView::Prelude(name.text@),
    }
}

/// What reading a written type depends on: how names are filed, how many arguments each
/// declared type takes, and what each name means.
pub struct Reading {
    pub keyed: Keyed,
    pub arities: Map<KeyView, usize>,
    pub definitions: Map<(Namespace, Span), Definition>,
}

/// Why a written type could not be read.
pub enum Misread {
    /// A type written with the wrong number of arguments.
    Count { name: Seq<char>, takes: nat, given: nat, at: Span },
    /// A type reached through a module that declares none of that name.
    NotInModule { module: Seq<char>, name: Seq<char>, at: Span },
    /// A parameter of a signature that states no type.
    Untyped { name: Seq<char>, at: Span },
}

/// Whether `error` is the refusal `misread` says.
pub open spec fn refused_as(error: TypeError, misread: Misread) -> bool {
    match misread {
        Misread::Count { name, takes, given, at } => error.spec_kind() matches TypeErrorKind::WrongTypeArgumentCount(
            count,
        ) && count.name@ == name && count.takes == takes && count.given == given
            && error.spec_span() == at,
        Misread::NotInModule { module, name, at } => error.spec_kind() matches TypeErrorKind::NotInModule {
            module: reached,
            name: named,
        } && reached@ == module && named@ == name && error.spec_span() == at,
        Misread::Untyped { name, at } => error.spec_kind() matches TypeErrorKind::SignatureWithoutType(
            named,
        ) && named@ == name && error.spec_span() == at,
    }
}

/// How a type reached through `module` is written: `demo.User`.
pub open spec fn spec_through(module: Name, path: Path) -> Seq<char> {
    module.text@ + "."@ + path.name.text@
}

/// Where a type reached through `module` is written, from the module to the end of the name.
pub open spec fn spec_through_span(module: Name, path: Path) -> Span {
    Span { start: module.span.start, end: path.name.span.end }
}

/// How many arguments the type filed under `key` takes, which is none where nothing says.
pub open spec fn spec_takes(arities: Map<KeyView, usize>, key: KeyView) -> nat {
    if arities.contains_key(key) {
        arities[key] as nat
    } else {
        0
    }
}

/// `written` as a type, with each name it holds pointed at what it was resolved to.
pub open spec fn spec_read(reading: Reading, written: TypeRef) -> Result<TypeView, Misread>
    decreases written, 1int,
{
    match written.kind {
        TypeRefKind::Unit => Ok(TypeView::Unit),
        TypeRefKind::Named { path, arguments } => match path.module {
            Some(module) => match spec_read_each(reading, arguments@, arguments@.len() as int) {
                Err(misread) => Err(misread),
                Ok(read) => {
                    let through = spec_through(module, path);
                    let at = spec_through_span(module, path);
                    if !reading.arities.contains_key(KeyView::Reached(through)) {
                        Err(
                            Misread::NotInModule {
                                module: module.text@,
                                name: path.name.text@,
                                at,
                            },
                        )
                    } else if reading.arities[KeyView::Reached(through)] != read.len() {
                        Err(
                            Misread::Count {
                                name: through,
                                takes: reading.arities[KeyView::Reached(through)] as nat,
                                given: read.len(),
                                at,
                            },
                        )
                    } else {
                        Ok(TypeView::Named(through, read))
                    }
                },
            },
            None => {
                let name = path.name;
                let definition = reading.definitions[(Namespace::Type, name.span)];
                if definition.kind == DefinitionKind::TypeParameter {
                    if arguments@.len() != 0 {
                        Err(
                            Misread::Count {
                                name: name.text@,
                                takes: 0,
                                given: arguments@.len(),
                                at: name.span,
                            },
                        )
                    } else {
                        Ok(TypeView::Parameter(name.text@, definition.origin))
                    }
                } else {
                    let takes = spec_takes(
                        reading.arities,
                        spec_reached_key(reading.keyed, definition, name),
                    );
                    if takes != arguments@.len() {
                        Err(
                            Misread::Count {
                                name: name.text@,
                                takes,
                                given: arguments@.len(),
                                at: name.span,
                            },
                        )
                    } else {
                        match spec_read_each(reading, arguments@, arguments@.len() as int) {
                            Err(misread) => Err(misread),
                            Ok(read) => Ok(TypeView::Named(name.text@, read)),
                        }
                    }
                }
            },
        },
    }
}

/// The first `n` of `written` as types, in order, or the first that could not be read.
pub open spec fn spec_read_each(reading: Reading, written: Seq<TypeRef>, n: int) -> Result<
    Seq<TypeView>,
    Misread,
>
    decreases written, n,
{
    if n <= 0 || n > written.len() {
        Ok(Seq::empty())
    } else {
        match spec_read_each(reading, written, n - 1) {
            Err(misread) => Err(misread),
            Ok(read) => match spec_read(reading, written[n - 1]) {
                Err(misread) => Err(misread),
                Ok(one) => Ok(read.push(one)),
            },
        }
    }
}

/// Whether every type `written` names in this module has a definition, which name resolution
/// gives each one it reads.
pub open spec fn types_defined(definitions: Map<(Namespace, Span), Definition>, written: TypeRef) -> bool
    decreases written, 1int,
{
    match written.kind {
        TypeRefKind::Unit => true,
        TypeRefKind::Named { path, arguments } => (path.module is None ==> definitions.contains_key(
            (Namespace::Type, path.name.span),
        )) && each_defined(definitions, arguments@, arguments@.len() as int),
    }
}

/// Whether every type the first `n` of `written` name has a definition.
pub open spec fn each_defined(
    definitions: Map<(Namespace, Span), Definition>,
    written: Seq<TypeRef>,
    n: int,
) -> bool
    decreases written, n,
{
    if n <= 0 || n > written.len() {
        true
    } else {
        each_defined(definitions, written, n - 1) && types_defined(definitions, written[n - 1])
    }
}

/// `each_defined` holds of a prefix of what it holds of.
pub proof fn lemma_each_defined(
    definitions: Map<(Namespace, Span), Definition>,
    written: Seq<TypeRef>,
    n: int,
    k: int,
)
    requires
        0 <= k < n <= written.len(),
        each_defined(definitions, written, n),
    ensures
        each_defined(definitions, written, k + 1),
        types_defined(definitions, written[k]),
    decreases n - k,
{
    if k + 1 < n {
        lemma_each_defined(definitions, written, n - 1, k);
    }
}

/// The types a record's fields are written as, in order.
pub open spec fn field_types(fields: Seq<RecordField>) -> Seq<TypeRef> {
    fields.map_values(|field: RecordField| field.type_ref)
}

/// The names of a record's fields, in order.
pub open spec fn field_names(fields: Seq<RecordField>) -> Seq<Seq<char>> {
    fields.map_values(|field: RecordField| field.name.text@)
}

/// The types a variant carries, as they are written.
pub open spec fn payload_types(payload: VariantPayload) -> Seq<TypeRef> {
    match payload {
        VariantPayload::Bare => Seq::empty(),
        VariantPayload::Tuple(written) => written@,
        VariantPayload::Record(fields) => field_types(fields@),
    }
}

/// The labels a variant is built with, which only a variant written as a record has.
pub open spec fn payload_labels(payload: VariantPayload) -> Seq<Seq<char>> {
    match payload {
        VariantPayload::Record(fields) => field_names(fields@),
        _ => Seq::empty(),
    }
}

/// The stand-ins a type declaration is written over.
pub open spec fn declared_over(declaration: TypeDeclaration) -> Seq<TypeView> {
    declaration.parameters@.map_values(|name: Name| written_stand_in(name))
}

/// The type a declaration declares, over its own parameters.
pub open spec fn declared_type(declaration: TypeDeclaration) -> TypeView {
    TypeView::Named(declaration.name.text@, declared_over(declaration))
}

/// What a constructor is: a function from what it carries to the type it builds, or that type
/// itself where it carries nothing.
pub open spec fn constructor_scheme(over: Seq<TypeView>, carries: Seq<TypeView>, declared: TypeView) -> SchemeView {
    SchemeView {
        quantified: over,
        body: if carries.len() == 0 {
            declared
        } else {
            TypeView::Function(carries, Box::new(declared))
        },
        required: Seq::empty(),
    }
}

/// What the first `n` variants carry, each read in order, or the first that could not be read.
pub open spec fn spec_read_variants(reading: Reading, variants: Seq<Variant>, n: int) -> Result<
    Seq<Seq<TypeView>>,
    Misread,
>
    decreases n,
{
    if n <= 0 || n > variants.len() {
        Ok(Seq::empty())
    } else {
        match spec_read_variants(reading, variants, n - 1) {
            Err(misread) => Err(misread),
            Ok(carried) => {
                let written = payload_types(variants[n - 1].payload);
                match spec_read_each(reading, written, written.len() as int) {
                    Err(misread) => Err(misread),
                    Ok(one) => Ok(carried.push(one)),
                }
            },
        }
    }
}

/// The types of names once the first `n` variants are filed, each under where it is declared.
pub open spec fn values_with_variants(
    values: Map<KeyView, SchemeView>,
    keyed: Keyed,
    variants: Seq<Variant>,
    carried: Seq<Seq<TypeView>>,
    over: Seq<TypeView>,
    declared: TypeView,
    n: int,
) -> Map<KeyView, SchemeView>
    decreases n,
{
    if n <= 0 {
        values
    } else {
        values_with_variants(values, keyed, variants, carried, over, declared, n - 1).insert(
            spec_declared_at(keyed, variants[n - 1].name),
            constructor_scheme(over, carried[n - 1], declared),
        )
    }
}

/// The labels of constructors once the first `n` variants are filed.
pub open spec fn labels_with_variants(
    labels: Map<KeyView, Seq<Seq<char>>>,
    keyed: Keyed,
    variants: Seq<Variant>,
    n: int,
) -> Map<KeyView, Seq<Seq<char>>>
    decreases n,
{
    if n <= 0 {
        labels
    } else {
        labels_with_variants(labels, keyed, variants, n - 1).insert(
            spec_declared_at(keyed, variants[n - 1].name),
            payload_labels(variants[n - 1].payload),
        )
    }
}

/// Whether every type a declaration holds names what name resolution gave a definition.
pub open spec fn declaration_defined(
    definitions: Map<(Namespace, Span), Definition>,
    declaration: TypeDeclaration,
) -> bool {
    match declaration.definition {
        TypeDefinition::Record(fields) => each_defined(
            definitions,
            field_types(fields@),
            fields@.len() as int,
        ),
        TypeDefinition::Variants(variants) => forall|i: int|
            0 <= i < variants@.len() ==> each_defined(
                definitions,
                payload_types((#[trigger] variants@[i]).payload),
                payload_types(variants@[i].payload).len() as int,
            ),
        TypeDefinition::Foreign { .. } => true,
    }
}

/// How many of the first `n` parameters leave their type out.
pub open spec fn left_out(parameters: Seq<Parameter>, n: int) -> nat
    decreases n,
{
    if n <= 0 {
        0
    } else {
        left_out(parameters, n - 1) + if parameters[n - 1].type_ref is None {
            1nat
        } else {
            0nat
        }
    }
}

/// The variable made for the `k`-th type a declaration leaves out, the first being `made`.
pub open spec fn made_var(made: nat, k: nat) -> TypeView {
    TypeView::Var(TypeVar((made + k) as u32))
}

/// The types of the first `n` parameters: each one read, or a variable of its own where it is
/// left out, numbered from `made` in the order they are left out.
pub open spec fn spec_read_parameters(
    reading: Reading,
    parameters: Seq<Parameter>,
    n: int,
    made: nat,
) -> Result<Seq<TypeView>, Misread>
    decreases n,
{
    if n <= 0 {
        Ok(Seq::empty())
    } else {
        match spec_read_parameters(reading, parameters, n - 1, made) {
            Err(misread) => Err(misread),
            Ok(read) => match parameters[n - 1].type_ref {
                Some(written) => match spec_read(reading, written) {
                    Err(misread) => Err(misread),
                    Ok(one) => Ok(read.push(one)),
                },
                None => Ok(read.push(made_var(made, left_out(parameters, n - 1)))),
            },
        }
    }
}

/// What a function gives back: the type written, or a variable of its own, numbered `made`.
pub open spec fn spec_read_result(reading: Reading, result: Option<TypeRef>, made: nat) -> Result<
    TypeView,
    Misread,
> {
    match result {
        Some(written) => spec_read(reading, written),
        None => Ok(made_var(made, 0)),
    }
}

/// What the first `n` type parameters are constrained by: each trait, at the type it is asked of.
pub open spec fn spec_read_constraints(
    reading: Reading,
    parameters: Seq<WrittenParameter>,
    n: int,
) -> Result<Seq<(Seq<char>, TypeView)>, Misread>
    decreases n,
{
    if n <= 0 {
        Ok(Seq::empty())
    } else {
        match spec_read_constraints(reading, parameters, n - 1) {
            Err(misread) => Err(misread),
            Ok(read) => match parameters[n - 1].constraint {
                None => Ok(read),
                Some(constraint) => match spec_read(reading, constraint.argument) {
                    Err(misread) => Err(misread),
                    Ok(at) => Ok(read.push((constraint.name.text@, at))),
                },
            },
        }
    }
}

/// The stand-ins a function is written over.
pub open spec fn function_over(function: Function) -> Seq<TypeView> {
    function.type_parameters@.map_values(
        |parameter: WrittenParameter| written_stand_in(parameter.name),
    )
}

/// What a function's scheme is, once its signature is read: over its type parameters, from what
/// it takes to what it gives, asking what its constraints ask.
pub open spec fn spec_declared_function(reading: Reading, function: Function, made: nat) -> Result<
    SchemeView,
    Misread,
> {
    let parameters = function.parameters@;
    match spec_read_parameters(reading, parameters, parameters.len() as int, made) {
        Err(misread) => Err(misread),
        Ok(taken) => match spec_read_result(
            reading,
            function.result,
            made + left_out(parameters, parameters.len() as int),
        ) {
            Err(misread) => Err(misread),
            Ok(gives) => match spec_read_constraints(
                reading,
                function.type_parameters@,
                function.type_parameters@.len() as int,
            ) {
                Err(misread) => Err(misread),
                Ok(required) => Ok(
                    SchemeView {
                        quantified: function_over(function),
                        body: TypeView::Function(taken, Box::new(gives)),
                        required,
                    },
                ),
            },
        },
    }
}

/// How many variables declaring `function` makes, which is one for each type it leaves out.
pub open spec fn function_makes(function: Function) -> nat {
    left_out(function.parameters@, function.parameters@.len() as int) + if function.result is None {
        1nat
    } else {
        0nat
    }
}

/// Whether every type a function's signature writes names what has a definition.
pub open spec fn function_defined(definitions: Map<(Namespace, Span), Definition>, function: Function) -> bool {
    &&& forall|i: int|
        0 <= i < function.parameters@.len() ==> ((#[trigger] function.parameters@[i]).type_ref matches Some(
            written,
        ) ==> types_defined(definitions, written))
    &&& (function.result matches Some(written) ==> types_defined(definitions, written))
    &&& forall|i: int|
        0 <= i < function.type_parameters@.len() ==> ((
        #[trigger] function.type_parameters@[i]).constraint matches Some(constraint)
            ==> types_defined(definitions, constraint.argument))
}

/// The types the first `n` parameters of a signature take, each of which must be written.
pub open spec fn spec_read_signature_parameters(reading: Reading, parameters: Seq<Parameter>, n: int) -> Result<
    Seq<TypeView>,
    Misread,
>
    decreases n,
{
    if n <= 0 {
        Ok(Seq::empty())
    } else {
        match spec_read_signature_parameters(reading, parameters, n - 1) {
            Err(misread) => Err(misread),
            Ok(read) => match parameters[n - 1].type_ref {
                None => Err(
                    Misread::Untyped {
                        name: parameters[n - 1].name.text@,
                        at: parameters[n - 1].name.span,
                    },
                ),
                Some(written) => match spec_read(reading, written) {
                    Err(misread) => Err(misread),
                    Ok(one) => Ok(read.push(one)),
                },
            },
        }
    }
}

/// The type of one method a trait declares: what it takes, to what it gives, `()` where the
/// signature writes nothing.
pub open spec fn spec_signature(reading: Reading, method: Signature) -> Result<TypeView, Misread> {
    match spec_read_signature_parameters(
        reading,
        method.parameters@,
        method.parameters@.len() as int,
    ) {
        Err(misread) => Err(misread),
        Ok(taken) => match method.result {
            None => Ok(TypeView::Function(taken, Box::new(TypeView::Unit))),
            Some(written) => match spec_read(reading, written) {
                Err(misread) => Err(misread),
                Ok(gives) => Ok(TypeView::Function(taken, Box::new(gives))),
            },
        },
    }
}

/// The types of the first `n` methods of a trait, or the first that could not be read.
pub open spec fn spec_read_methods(reading: Reading, methods: Seq<Signature>, n: int) -> Result<
    Seq<TypeView>,
    Misread,
>
    decreases n,
{
    if n <= 0 {
        Ok(Seq::empty())
    } else {
        match spec_read_methods(reading, methods, n - 1) {
            Err(misread) => Err(misread),
            Ok(read) => match spec_signature(reading, methods[n - 1]) {
                Err(misread) => Err(misread),
                Ok(one) => Ok(read.push(one)),
            },
        }
    }
}

/// The scheme of a trait's method: over the trait's parameter, asking the trait of it.
pub open spec fn method_scheme(parameter: TypeView, trait_name: Seq<char>, signature: TypeView) -> SchemeView {
    SchemeView {
        quantified: seq![parameter],
        body: signature,
        required: seq![(trait_name, parameter)],
    }
}

/// The types of names once the first `n` methods of a trait are filed.
pub open spec fn values_with_methods(
    values: Map<KeyView, SchemeView>,
    keyed: Keyed,
    methods: Seq<Signature>,
    signatures: Seq<TypeView>,
    parameter: TypeView,
    trait_name: Seq<char>,
    n: int,
) -> Map<KeyView, SchemeView>
    decreases n,
{
    if n <= 0 {
        values
    } else {
        values_with_methods(values, keyed, methods, signatures, parameter, trait_name, n - 1).insert(
            spec_declared_at(keyed, methods[n - 1].name),
            method_scheme(parameter, trait_name, signatures[n - 1]),
        )
    }
}

/// The stand-ins of trait methods once the first `n` methods of a trait are filed.
pub open spec fn methods_with(
    stand_ins: Map<KeyView, TypeView>,
    keyed: Keyed,
    methods: Seq<Signature>,
    parameter: TypeView,
    n: int,
) -> Map<KeyView, TypeView>
    decreases n,
{
    if n <= 0 {
        stand_ins
    } else {
        methods_with(stand_ins, keyed, methods, parameter, n - 1).insert(
            spec_declared_at(keyed, methods[n - 1].name),
            parameter,
        )
    }
}

/// Where each trait method is declared, once the first `n` methods of a trait are filed.
pub open spec fn declares_with(
    declares: Map<(Seq<char>, Seq<char>), KeyView>,
    keyed: Keyed,
    trait_name: Seq<char>,
    methods: Seq<Signature>,
    n: int,
) -> Map<(Seq<char>, Seq<char>), KeyView>
    decreases n,
{
    if n <= 0 {
        declares
    } else {
        declares_with(declares, keyed, trait_name, methods, n - 1).insert(
            (trait_name, methods[n - 1].name.text@),
            spec_declared_at(keyed, methods[n - 1].name),
        )
    }
}

/// Whether every type a trait's methods write names what has a definition.
pub open spec fn trait_defined(definitions: Map<(Namespace, Span), Definition>, declaration: TraitDeclaration) -> bool {
    &&& forall|i: int, j: int|
        0 <= i < declaration.methods@.len() && 0 <= j < declaration.methods@[i].parameters@.len()
            ==> ((#[trigger] declaration.methods@[i].parameters@[j]).type_ref matches Some(written)
            ==> types_defined(definitions, written))
    &&& forall|i: int|
        0 <= i < declaration.methods@.len() ==> ((#[trigger] declaration.methods@[i]).result matches Some(
            written,
        ) ==> types_defined(definitions, written))
}

/// How many arguments the type an instance or a derive names takes.
pub open spec fn spec_for_type_takes(
    environment: EnvironmentView,
    definitions: Map<(Namespace, Span), Definition>,
    for_type: Name,
) -> nat {
    spec_takes(
        environment.arities,
        spec_reached_key(environment.keyed, definitions[(Namespace::Type, for_type.span)], for_type),
    )
}

/// What noting an instance files: that it exists, and what an `IntegerLiteral` says it holds; or
/// the message a bound that is no whole number is refused with.
pub open spec fn spec_noted(environment: EnvironmentView, declaration: InstanceDeclaration) -> Result<
    EnvironmentView,
    Seq<char>,
> {
    let of = declaration.trait_name.text@;
    let for_type = declaration.for_type.text@;
    if of == INTEGER_LITERAL@ {
        match (spec_whole_number(declaration, LOWEST@), spec_whole_number(declaration, HIGHEST@)) {
            (Ok(lowest), Ok(highest)) => Ok(
                EnvironmentView {
                    holds: environment.holds.insert(for_type, Bounds { lowest, highest }),
                    instances: environment.instances.insert((of, for_type)),
                    ..environment
                },
            ),
            (Err(kind), _) => Err(kind.spec_message()),
            (Ok(_), Err(kind)) => Err(kind.spec_message()),
        }
    } else {
        Ok(EnvironmentView { instances: environment.instances.insert((of, for_type)), ..environment })
    }
}

/// The instances once the first `n` traits a derive names are filed for its type.
pub open spec fn derived_instances(
    instances: Set<(Seq<char>, Seq<char>)>,
    traits: Seq<Name>,
    for_type: Seq<char>,
    n: int,
) -> Set<(Seq<char>, Seq<char>)>
    decreases n,
{
    if n <= 0 {
        instances
    } else {
        derived_instances(instances, traits, for_type, n - 1).insert((traits[n - 1].text@, for_type))
    }
}

/// The type the trait `of` gives its method `method` at `given`, when it declares one.
pub open spec fn spec_method_at(
    environment: EnvironmentView,
    of: Seq<char>,
    method: Seq<char>,
    given: TypeView,
) -> Option<TypeView> {
    if environment.declares.contains_key((of, method)) && environment.values.contains_key(
        environment.declares[(of, method)],
    ) && environment.methods.contains_key(environment.declares[(of, method)]) {
        let key = environment.declares[(of, method)];
        Some(replaced(environment.values[key].body, seq![(environment.methods[key], given)]))
    } else {
        None
    }
}

/// What declaring the first `n` methods of an instance files, with how many variables have been
/// made once they are: each method's type, and what its trait says it must be.
pub open spec fn spec_declare_methods(
    reading: Reading,
    environment: EnvironmentView,
    methods: Seq<Function>,
    of: Seq<char>,
    given: TypeView,
    made: nat,
    n: int,
) -> Result<(EnvironmentView, nat), Misread>
    decreases n,
{
    if n <= 0 {
        Ok((environment, made))
    } else {
        match spec_declare_methods(reading, environment, methods, of, given, made, n - 1) {
            Err(misread) => Err(misread),
            Ok((before, counted)) => match spec_declared_function(reading, methods[n - 1], counted) {
                Err(misread) => Err(misread),
                Ok(scheme) => {
                    let at = spec_declared_at(before.keyed, methods[n - 1].name);
                    let bound = EnvironmentView { values: before.values.insert(at, scheme), ..before };
                    let after = match spec_method_at(bound, of, methods[n - 1].name.text@, given) {
                        Some(written) => EnvironmentView {
                            written_as: bound.written_as.insert(at, written),
                            ..bound
                        },
                        None => bound,
                    };
                    Ok((after, counted + function_makes(methods[n - 1])))
                },
            },
        }
    }
}

/// The most variables declaring the first `n` methods can make.
pub open spec fn methods_budget(methods: Seq<Function>, n: int) -> nat
    decreases n,
{
    if n <= 0 {
        0
    } else {
        methods_budget(methods, n - 1) + methods[n - 1].parameters@.len() + 1
    }
}

/// Why a declaration was refused.
pub enum Refusal {
    /// A type it writes could not be read.
    Read(Misread),
    /// The class an `extern type` names is no Java name.
    NotAJavaName { text: Seq<char>, at: Span },
    /// A bound of an `IntegerLiteral` instance is no whole number; the message says which.
    Unbounded(Seq<char>),
    /// An `extern` signature names a type no Java member carries where it is written.
    Crosses { written: TypeView, crossing: Crossing, at: Span },
    /// An `extern` whose kind reaches a class names none in its signature.
    ReachesNoClass { reaches: Seq<char>, at: Span },
    /// An `extern new` gives back what an `extern type` names an interface.
    BuildsAnInterface { built: TypeView, at: Span },
    /// An `extern` says its member gives an `int`, and gives back no `Int`.
    WidensNoInt { written: TypeView, at: Span },
    /// A derive names a type an `extern type` declares.
    DerivesAForeignType { name: Seq<char>, at: Span },
    /// A type deriving a trait holds a value of a type that has no instance of it.
    HeldHasNoInstance { deriving: Seq<char>, held: TypeView, held_as: Seq<char>, at: Span },
}

/// Whether `error` is the refusal `refusal` says.
pub open spec fn refused_for(error: TypeError, refusal: Refusal) -> bool {
    match refusal {
        Refusal::Read(misread) => refused_as(error, misread),
        Refusal::NotAJavaName { text, at } => error.spec_kind() matches TypeErrorKind::Java(
            ReachingJava::NotAJavaName(written),
        ) && written@ == text && error.spec_span() == at,
        Refusal::Unbounded(message) => error.spec_kind().spec_message() == message,
        Refusal::Crosses { written, crossing, at } => error.spec_kind() matches TypeErrorKind::Java(
            ReachingJava::DoesNotCross { written: found, crossing: placed },
        ) && found@ == written && placed == crossing && error.spec_span() == at,
        Refusal::ReachesNoClass { reaches, at } => error.spec_kind() matches TypeErrorKind::Java(
            ReachingJava::ReachesNoClass(written),
        ) && written@ == reaches && error.spec_span() == at,
        Refusal::BuildsAnInterface { built, at } => error.spec_kind() matches TypeErrorKind::Java(
            ReachingJava::BuildsAnInterface(found),
        ) && found@ == built && error.spec_span() == at,
        Refusal::WidensNoInt { written, at } => error.spec_kind() matches TypeErrorKind::Java(
            ReachingJava::WidensNoInt { width, written: found },
        ) && width@ == "int"@ && found@ == written && error.spec_span() == at,
        Refusal::DerivesAForeignType { name, at } => error.spec_kind() matches TypeErrorKind::Java(
            ReachingJava::DerivesAForeignType(named),
        ) && named@ == name && error.spec_span() == at,
        Refusal::HeldHasNoInstance { deriving, held, held_as, at } => error.spec_kind() matches TypeErrorKind::HeldTypeHasNoInstance {
            deriving: found_deriving,
            held: found_held,
            held_as: found_as,
        } && found_deriving@ == deriving && found_held@ == held && found_as@ == held_as
            && error.spec_span() == at,
    }
}

/// What declaring a type files: the type it declares, and each constructor it is built with.
pub open spec fn spec_declare_type(
    reading: Reading,
    environment: EnvironmentView,
    declaration: TypeDeclaration,
) -> Result<EnvironmentView, Refusal> {
    let over = declared_over(declaration);
    let declared_as = SchemeView { quantified: over, body: declared_type(declaration), required: Seq::empty() };
    let at = spec_declared_at(environment.keyed, declaration.name);
    let declared = environment.declared.insert(declaration.name.text@, declared_as);
    match declaration.definition {
        TypeDefinition::Foreign { class, .. } => if is_java_name(class.text@, 1, false) {
            Ok(EnvironmentView { declared, ..environment })
        } else {
            Err(Refusal::NotAJavaName { text: class.text@, at: class.span })
        },
        TypeDefinition::Record(fields) => match spec_read_each(
            reading,
            field_types(fields@),
            fields@.len() as int,
        ) {
            Ok(carried) => Ok(
                EnvironmentView {
                    declared,
                    records: environment.records.insert(declaration.name.text@, at),
                    labels: environment.labels.insert(at, field_names(fields@)),
                    values: environment.values.insert(
                        at,
                        constructor_scheme(over, carried, declared_type(declaration)),
                    ),
                    ..environment
                },
            ),
            Err(misread) => Err(Refusal::Read(misread)),
        },
        TypeDefinition::Variants(variants) => match spec_read_variants(
            reading,
            variants@,
            variants@.len() as int,
        ) {
            Ok(carried) => Ok(
                EnvironmentView {
                    declared,
                    labels: labels_with_variants(
                        environment.labels,
                        environment.keyed,
                        variants@,
                        variants@.len() as int,
                    ),
                    values: values_with_variants(
                        environment.values,
                        environment.keyed,
                        variants@,
                        carried,
                        over,
                        declared_type(declaration),
                        variants@.len() as int,
                    ),
                    ..environment
                },
            ),
            Err(misread) => Err(Refusal::Read(misread)),
        },
    }
}

/// What declaring a function files, and how many variables have been made once it is.
pub open spec fn spec_declare_function(
    reading: Reading,
    environment: EnvironmentView,
    function: Function,
    made: nat,
) -> Result<(EnvironmentView, nat), Refusal> {
    match spec_declared_function(reading, function, made) {
        Ok(scheme) => Ok(
            (
                EnvironmentView {
                    values: environment.values.insert(
                        spec_declared_at(environment.keyed, function.name),
                        scheme,
                    ),
                    ..environment
                },
                made + function_makes(function),
            ),
        ),
        Err(misread) => Err(Refusal::Read(misread)),
    }
}

/// What declaring a trait files: each method's type, its stand-in, and where it is declared.
pub open spec fn spec_declare_trait(
    reading: Reading,
    environment: EnvironmentView,
    declaration: TraitDeclaration,
) -> Result<EnvironmentView, Refusal> {
    let parameter = written_stand_in(declaration.parameter);
    let methods = declaration.methods@;
    match spec_read_methods(reading, methods, methods.len() as int) {
        Ok(signatures) => Ok(
            EnvironmentView {
                values: values_with_methods(
                    environment.values,
                    environment.keyed,
                    methods,
                    signatures,
                    parameter,
                    declaration.name.text@,
                    methods.len() as int,
                ),
                methods: methods_with(environment.methods, environment.keyed, methods, parameter, methods.len() as int),
                declares: declares_with(
                    environment.declares,
                    environment.keyed,
                    declaration.name.text@,
                    methods,
                    methods.len() as int,
                ),
                ..environment
            },
        ),
        Err(misread) => Err(Refusal::Read(misread)),
    }
}

/// The refusal of an instance or a derive whose type takes arguments, when it does.
pub open spec fn spec_whole_type(
    environment: EnvironmentView,
    definitions: Map<(Namespace, Span), Definition>,
    for_type: Name,
) -> Option<Refusal> {
    let takes = spec_for_type_takes(environment, definitions, for_type);
    if takes != 0 {
        Some(Refusal::Read(Misread::Count { name: for_type.text@, takes, given: 0, at: for_type.span }))
    } else {
        None
    }
}

/// What noting an instance files, once its type is known to take no arguments.
pub open spec fn spec_note_instance(
    definitions: Map<(Namespace, Span), Definition>,
    environment: EnvironmentView,
    declaration: InstanceDeclaration,
) -> Result<EnvironmentView, Refusal> {
    match spec_whole_type(environment, definitions, declaration.for_type) {
        Some(refusal) => Err(refusal),
        None => match spec_noted(environment, declaration) {
            Ok(noted) => Ok(noted),
            Err(message) => Err(Refusal::Unbounded(message)),
        },
    }
}

/// What declaring a derive files: an instance of each trait it names, for its type.
pub open spec fn spec_declare_derive(
    definitions: Map<(Namespace, Span), Definition>,
    environment: EnvironmentView,
    declaration: DeriveDeclaration,
) -> Result<EnvironmentView, Refusal> {
    match spec_whole_type(environment, definitions, declaration.for_type) {
        Some(refusal) => Err(refusal),
        None => Ok(
            EnvironmentView {
                instances: derived_instances(
                    environment.instances,
                    declaration.traits@,
                    declaration.for_type.text@,
                    declaration.traits@.len() as int,
                ),
                ..environment
            },
        ),
    }
}

/// What declaring an instance files, and how many variables have been made once it is.
pub open spec fn spec_declare_instance(
    reading: Reading,
    definitions: Map<(Namespace, Span), Definition>,
    environment: EnvironmentView,
    declaration: InstanceDeclaration,
    made: nat,
) -> Result<(EnvironmentView, nat), Refusal> {
    match spec_note_instance(definitions, environment, declaration) {
        Err(refusal) => Err(refusal),
        Ok(noted) => match spec_declare_methods(
            reading,
            noted,
            declaration.methods@,
            declaration.trait_name.text@,
            plain(declaration.for_type.text@),
            made,
            declaration.methods@.len() as int,
        ) {
            Ok(declared) => Ok(declared),
            Err(misread) => Err(Refusal::Read(misread)),
        },
    }
}

/// What declaring one item files, and how many variables have been made once it is.
#[verifier::opaque]
pub open spec fn spec_declare_item(
    reading: Reading,
    definitions: Map<(Namespace, Span), Definition>,
    environment: EnvironmentView,
    item: Item,
    made: nat,
) -> Result<(EnvironmentView, nat), Refusal> {
    match item {
        Item::Import(import) => Ok(
            (
                EnvironmentView {
                    values: environment.values.insert(
                        spec_declared_at(environment.keyed, import.module),
                        SchemeView {
                            quantified: Seq::empty(),
                            body: TypeView::Module(import.module.text@),
                            required: Seq::empty(),
                        },
                    ),
                    ..environment
                },
                made,
            ),
        ),
        Item::Type(declaration) => match spec_declare_type(reading, environment, declaration) {
            Ok(after) => Ok((after, made)),
            Err(refusal) => Err(refusal),
        },
        Item::Trait(_) => Ok((environment, made)),
        Item::Instance(declaration) => spec_declare_instance(
            reading,
            definitions,
            environment,
            declaration,
            made,
        ),
        Item::Derive(declaration) => match spec_declare_derive(definitions, environment, declaration) {
            Ok(after) => Ok((after, made)),
            Err(refusal) => Err(refusal),
        },
        Item::Function(function) => spec_declare_function(reading, environment, function, made),
    }
}

/// What declaring the first `n` items files, in order, or the first refusal.
pub open spec fn spec_declare_items(
    reading: Reading,
    definitions: Map<(Namespace, Span), Definition>,
    environment: EnvironmentView,
    items: Seq<Item>,
    made: nat,
    n: int,
) -> Result<(EnvironmentView, nat), Refusal>
    decreases n,
{
    if n <= 0 {
        Ok((environment, made))
    } else {
        match spec_declare_items(reading, definitions, environment, items, made, n - 1) {
            Err(refusal) => Err(refusal),
            Ok((before, counted)) => spec_declare_item(reading, definitions, before, items[n - 1], counted),
        }
    }
}

/// What declaring the traits among the first `n` items files, in order, or the first refusal.
pub open spec fn spec_declare_traits(
    reading: Reading,
    environment: EnvironmentView,
    items: Seq<Item>,
    n: int,
) -> Result<EnvironmentView, Refusal>
    decreases n,
{
    if n <= 0 {
        Ok(environment)
    } else {
        match spec_declare_traits(reading, environment, items, n - 1) {
            Err(refusal) => Err(refusal),
            Ok(before) => match items[n - 1] {
                Item::Trait(declaration) => spec_declare_trait(reading, before, declaration),
                _ => Ok(before),
            },
        }
    }
}

/// How many arguments each type among the first `n` items takes, and how each extern type
/// among them is called, filed over `environment`.
pub open spec fn spec_note_types(environment: EnvironmentView, items: Seq<Item>, n: int) -> EnvironmentView
    decreases n,
{
    if n <= 0 {
        environment
    } else {
        let before = spec_note_types(environment, items, n - 1);
        match items[n - 1] {
            Item::Type(declaration) => {
                let counted = EnvironmentView {
                    arities: before.arities.insert(
                        spec_declared_at(before.keyed, declaration.name),
                        declaration.parameters@.len() as usize,
                    ),
                    ..before
                };
                match declaration.definition {
                    TypeDefinition::Foreign { called, .. } => EnvironmentView {
                        foreign: seq![(declaration.name.text@, called)] + counted.foreign,
                        ..counted
                    },
                    _ => counted,
                }
            },
            _ => before,
        }
    }
}

/// Whether every type an item writes names what has a definition, and whatever else declaring
/// it reads is there.
pub open spec fn item_defined(definitions: Map<(Namespace, Span), Definition>, item: Item) -> bool {
    match item {
        Item::Import(_) => true,
        Item::Type(declaration) => declaration_defined(definitions, declaration),
        Item::Trait(declaration) => trait_defined(definitions, declaration),
        Item::Instance(declaration) => {
            &&& definitions.contains_key((Namespace::Type, declaration.for_type.span))
            &&& declaration.trait_name.text@ == INTEGER_LITERAL@ ==> writes_method(declaration, LOWEST@)
                && writes_method(declaration, HIGHEST@)
            &&& forall|i: int|
                0 <= i < declaration.methods@.len() ==> function_defined(
                    definitions,
                    #[trigger] declaration.methods@[i],
                )
        },
        Item::Derive(declaration) => definitions.contains_key((Namespace::Type, declaration.for_type.span)),
        Item::Function(function) => function_defined(definitions, function),
    }
}

/// The most variables declaring one item can make.
pub open spec fn item_budget(item: Item) -> nat {
    match item {
        Item::Instance(declaration) => methods_budget(declaration.methods@, declaration.methods@.len() as int),
        Item::Function(function) => function.parameters@.len() + 1,
        _ => 0,
    }
}

/// The most variables declaring the first `n` items can make.
pub open spec fn items_budget(items: Seq<Item>, n: int) -> nat
    decreases n,
{
    if n <= 0 {
        0
    } else {
        items_budget(items, n - 1) + item_budget(items[n - 1])
    }
}

/// Whether every item of `program` can be declared, as far as what it reads goes.
pub open spec fn program_defined(definitions: Map<(Namespace, Span), Definition>, program: Program) -> bool {
    forall|i: int| 0 <= i < program.items@.len() ==> item_defined(definitions, #[trigger] program.items@[i])
}

/// What a module's declarations file over `environment`, whose types are already counted: each
/// trait, then every item in order, and then what each derive needs.
pub open spec fn spec_declare_module(
    definitions: Map<(Namespace, Span), Definition>,
    environment: EnvironmentView,
    program: Program,
    made: nat,
) -> Result<(EnvironmentView, nat), Refusal> {
    let items = program.items@;
    let reading = environment_reading(environment, definitions);
    match spec_declare_traits(reading, environment, items, items.len() as int) {
        Err(refusal) => Err(refusal),
        Ok(traits) => match spec_declare_items(reading, definitions, traits, items, made, items.len() as int) {
            Err(refusal) => Err(refusal),
            Ok((declared, counted)) => match spec_derives_checked(
                environment_reading(declared, definitions),
                declared,
                program,
                items.len() as int,
            ) {
                Some(refusal) => Err(refusal),
                None => Ok((declared, counted)),
            },
        },
    }
}

/// What a module declares, over what `prelude` already holds: how many arguments each type
/// takes, then each trait, then every item in order, and then what each derive needs.
pub open spec fn spec_environment_of(
    prelude: EnvironmentView,
    definitions: Map<(Namespace, Span), Definition>,
    program: Program,
    made: nat,
) -> Result<(EnvironmentView, nat), Refusal> {
    spec_declare_module(
        definitions,
        spec_note_types(prelude, program.items@, program.items@.len() as int),
        program,
        made,
    )
}

/// What declaring the prelude's reachable items among the first `n` files: every type, every
/// function, and that each instance and derive exists; a trait is declared ahead of them.
pub open spec fn spec_declare_reachable(
    reading: Reading,
    definitions: Map<(Namespace, Span), Definition>,
    environment: EnvironmentView,
    items: Seq<Item>,
    made: nat,
    n: int,
) -> Result<(EnvironmentView, nat), Refusal>
    decreases n,
{
    if n <= 0 {
        Ok((environment, made))
    } else {
        match spec_declare_reachable(reading, definitions, environment, items, made, n - 1) {
            Err(refusal) => Err(refusal),
            Ok((before, counted)) => match items[n - 1] {
                Item::Type(declaration) => match spec_declare_type(reading, before, declaration) {
                    Ok(after) => Ok((after, counted)),
                    Err(refusal) => Err(refusal),
                },
                Item::Function(function) => spec_declare_function(reading, before, function, counted),
                Item::Instance(declaration) => match spec_note_instance(definitions, before, declaration) {
                    Ok(after) => Ok((after, counted)),
                    Err(refusal) => Err(refusal),
                },
                Item::Derive(declaration) => match spec_declare_derive(definitions, before, declaration) {
                    Ok(after) => Ok((after, counted)),
                    Err(refusal) => Err(refusal),
                },
                _ => Ok((before, counted)),
            },
        }
    }
}

/// The type of `todo(reason)`: from a `String` to whatever type the place it is written wants.
pub open spec fn todo_scheme() -> SchemeView {
    let value = TypeView::Parameter("T"@, Origin::Prelude);
    SchemeView {
        quantified: seq![value],
        body: TypeView::Function(seq![plain(STRING@)], Box::new(value)),
        required: Seq::empty(),
    }
}

/// The types the JVM holds, each filed by name with how many arguments it takes, over `arities`.
pub open spec fn held_arities(arities: Map<KeyView, usize>, held: Seq<(Seq<char>, usize)>, n: int) -> Map<
    KeyView,
    usize,
>
    decreases n,
{
    if n <= 0 {
        arities
    } else {
        held_arities(arities, held, n - 1).insert(KeyView::Prelude(held[n - 1].0), held[n - 1].1)
    }
}

/// What the prelude declares, filed by name: the types the JVM holds, `todo`, what each type
/// takes, each trait, and then every reachable item.
pub open spec fn spec_prelude_declared(
    definitions: Map<(Namespace, Span), Definition>,
    program: Program,
) -> Result<EnvironmentView, Refusal> {
    let items = program.items@;
    let start = EnvironmentView {
        keyed: Keyed::ByName,
        values: Map::empty().insert(KeyView::Prelude("todo"@), todo_scheme()),
        labels: Map::empty(),
        records: Map::empty(),
        arities: held_arities(Map::empty(), held_type_table(), held_type_table().len() as int),
        methods: Map::empty(),
        instances: Set::empty(),
        holds: Map::empty(),
        written_as: Map::empty(),
        declares: Map::empty(),
        declared: Map::empty(),
        foreign: Seq::empty(),
    };
    let noted = spec_note_types(start, items, items.len() as int);
    let reading = Reading { keyed: noted.keyed, arities: noted.arities, definitions };
    match spec_declare_traits(reading, noted, items, items.len() as int) {
        Err(refusal) => Err(refusal),
        Ok(traits) => match spec_declare_reachable(reading, definitions, traits, items, 0, items.len() as int) {
            Err(refusal) => Err(refusal),
            Ok((declared, _)) => Ok(EnvironmentView { keyed: Keyed::WhereWritten, ..declared }),
        },
    }
}

/// The most variables declaring the prelude's reachable functions among the first `n` items
/// can make.
pub open spec fn reachable_budget(items: Seq<Item>, n: int) -> nat
    decreases n,
{
    if n <= 0 {
        0
    } else {
        reachable_budget(items, n - 1) + match items[n - 1] {
            Item::Function(function) => function.parameters@.len() + 1,
            _ => 0nat,
        }
    }
}

/// Where the result of what an `extern` reaches is written, which a `field` alone holds.
pub open spec fn crossing_of(reaches: Reaches) -> Crossing {
    if reaches is Field {
        Crossing::Held
    } else {
        Crossing::GivenBack
    }
}

/// The types the first `n` parameters of an `extern` take: each written out, and each one a
/// Java member takes.
pub open spec fn spec_read_extern_parameters(
    reading: Reading,
    foreign: Seq<(Seq<char>, Called)>,
    parameters: Seq<Parameter>,
    n: int,
) -> Result<Seq<TypeView>, Refusal>
    decreases n,
{
    if n <= 0 {
        Ok(Seq::empty())
    } else {
        match spec_read_extern_parameters(reading, foreign, parameters, n - 1) {
            Err(refusal) => Err(refusal),
            Ok(read) => match parameters[n - 1].type_ref {
                None => Err(
                    Refusal::Read(
                        Misread::Untyped {
                            name: parameters[n - 1].name.text@,
                            at: parameters[n - 1].name.span,
                        },
                    ),
                ),
                Some(written) => match spec_read(reading, written) {
                    Err(misread) => Err(Refusal::Read(misread)),
                    Ok(held) => if spec_carries(Crossing::Taken, foreign, held) {
                        Ok(read.push(held))
                    } else {
                        Err(Refusal::Crosses { written: held, crossing: Crossing::Taken, at: written.span })
                    },
                },
            },
        }
    }
}

/// Whether the class an `extern` reaches is one its signature names.
pub open spec fn reaches_its_class(
    declaration: ExternDeclaration,
    taken: Seq<TypeView>,
    result: TypeView,
    foreign: Seq<(Seq<char>, Called)>,
) -> bool {
    match declaration.reaches {
        Reaches::Method(_) => taken.len() > 0 && spec_is_a_reference(taken[0], foreign),
        Reaches::New => spec_is_a_reference(spec_given_back(result), foreign),
        _ => true,
    }
}

/// Where an `extern` that reaches no class is refused.
pub open spec fn no_class_at(declaration: ExternDeclaration) -> Span {
    match declaration.reaches {
        Reaches::New => declaration.result.span,
        _ => if declaration.parameters@.len() > 0 {
            declaration.parameters@[0].span
        } else {
            declaration.span
        },
    }
}

/// Whether an `extern new` gives back what an `extern type` names an interface.
pub open spec fn builds_an_interface(
    declaration: ExternDeclaration,
    result: TypeView,
    foreign: Seq<(Seq<char>, Called)>,
) -> bool {
    declaration.reaches is New && (spec_given_back(result) matches TypeView::Named(name, _) && called_as(
        foreign,
        name,
    ) == Some(Called::AsAnInterface))
}

/// The Java name an `extern` states, refused where it is not one its kind names.
pub open spec fn misnamed_member(declaration: ExternDeclaration) -> Option<Refusal> {
    match declaration.reaches {
        Reaches::Field(named) | Reaches::Static(named) => if is_java_name(named.text@, 2, false) {
            None
        } else {
            Some(Refusal::NotAJavaName { text: named.text@, at: named.span })
        },
        Reaches::Method(named) => if is_java_name(named.text@, 1, true) {
            None
        } else {
            Some(Refusal::NotAJavaName { text: named.text@, at: named.span })
        },
        Reaches::New => None,
    }
}

/// What declaring an `extern` files: its signature, every part of it written out and each one a
/// Java member carries, held to the boundary's rules in turn.
pub open spec fn spec_declare_extern(
    reading: Reading,
    environment: EnvironmentView,
    declaration: ExternDeclaration,
) -> Result<EnvironmentView, Refusal> {
    let foreign = environment.foreign;
    match spec_read_extern_parameters(
        reading,
        foreign,
        declaration.parameters@,
        declaration.parameters@.len() as int,
    ) {
        Err(refusal) => Err(refusal),
        Ok(taken) => match spec_read(reading, declaration.result) {
            Err(misread) => Err(Refusal::Read(misread)),
            Ok(result) => {
                let crossing = crossing_of(declaration.reaches);
                if !spec_carries(crossing, foreign, result) {
                    Err(Refusal::Crosses { written: result, crossing, at: declaration.result.span })
                } else if !reaches_its_class(declaration, taken, result, foreign) {
                    Err(
                        Refusal::ReachesNoClass {
                            reaches: declaration.reaches.spec_written(),
                            at: no_class_at(declaration),
                        },
                    )
                } else if builds_an_interface(declaration, result, foreign) {
                    Err(
                        Refusal::BuildsAnInterface {
                            built: spec_given_back(result),
                            at: declaration.result.span,
                        },
                    )
                } else if !(declaration.gives == Gives::WhatTheResultIs || spec_given_back(result)
                    == plain(INT@)) {
                    Err(
                        Refusal::WidensNoInt {
                            written: spec_given_back(result),
                            at: declaration.result.span,
                        },
                    )
                } else {
                    match misnamed_member(declaration) {
                        Some(refusal) => Err(refusal),
                        None => Ok(
                            EnvironmentView {
                                values: environment.values.insert(
                                    spec_declared_at(environment.keyed, declaration.name),
                                    SchemeView {
                                        quantified: Seq::empty(),
                                        body: TypeView::Function(taken, Box::new(result)),
                                        required: Seq::empty(),
                                    },
                                ),
                                ..environment
                            },
                        ),
                    }
                }
            },
        },
    }
}

/// A scheme as the specifications read it: its stand-ins, its body, and what a use asks for.
pub struct SchemeView {
    pub quantified: Seq<TypeView>,
    pub body: TypeView,
    pub required: Seq<(Seq<char>, TypeView)>,
}

/// What `scheme` is, as the specifications read it.
pub open spec fn scheme_view(scheme: Scheme) -> SchemeView {
    SchemeView {
        quantified: stand_ins(scheme.quantified@),
        body: scheme.body@,
        required: required_view(scheme.required@),
    }
}

/// Every name that has a type, and the shape of every type that has fields.
///
/// A name is known by where it was defined rather than by how it is spelled, which is what lets
/// one flat table hold the whole module: name resolution has already ruled out two definitions
/// sharing a name and a binding hiding one.
pub struct Environment {
    /// How a declaration of the source being read is filed, which the prelude differs in.
    keyed: Keyed,
    values: Filed<Key, Scheme>,
    labels: Filed<Key, Vec<String>>,
    records: Filed<String, Key>,
    arities: Filed<Key, usize>,
    /// The stand-in each trait method's scheme is written over, which is its trait's parameter.
    methods: Filed<Key, Quantified>,
    /// Every trait that has an instance for a type, by the two names that say so.
    instances: Filed<(String, String), ()>,
    /// What each type's instance of `IntegerLiteral` says it holds, by the name of that type.
    holds: Filed<String, Bounds>,
    /// What each instance's method must be, which is its trait's method at the instance's type.
    written_as: Filed<Key, Type>,
    /// Where each method of each trait is declared, which is what an instance is read against.
    declares: Filed<(String, String), Key>,
    /// The type each declaration declares, over its own parameters, by the name it declares it.
    declared: Filed<String, Scheme>,
    /// How each extern type is called, by the Lumen name an `extern type` gives it, the latest
    /// first.
    foreign: Vec<(String, Called)>,
}

/// What an environment holds, as the specifications read it.
pub struct EnvironmentView {
    /// How a declaration of the source being read is filed.
    pub keyed: Keyed,
    /// The type of each name that has one.
    pub values: Map<KeyView, SchemeView>,
    /// The labels each constructor takes, in order.
    pub labels: Map<KeyView, Seq<Seq<char>>>,
    /// The constructor of each record type, by the name of the type.
    pub records: Map<Seq<char>, KeyView>,
    /// How many arguments each declared type takes.
    pub arities: Map<KeyView, usize>,
    /// The stand-in each trait method is written over.
    pub methods: Map<KeyView, TypeView>,
    /// Each trait and type with an instance between them.
    pub instances: Set<(Seq<char>, Seq<char>)>,
    /// What each type's instance of `IntegerLiteral` says it holds.
    pub holds: Map<Seq<char>, Bounds>,
    /// What each instance method must be.
    pub written_as: Map<KeyView, TypeView>,
    /// Where each method of each trait is declared.
    pub declares: Map<(Seq<char>, Seq<char>), KeyView>,
    /// The type each declaration declares, over its own parameters.
    pub declared: Map<Seq<char>, SchemeView>,
    /// How each extern type is called, the latest filing first.
    pub foreign: Seq<(Seq<char>, Called)>,
}

impl View for Environment {
    type V = EnvironmentView;

    closed spec fn view(&self) -> EnvironmentView {
        EnvironmentView {
            keyed: self.keyed,
            values: self.values.filed().map_values(|scheme: Scheme| scheme_view(scheme)),
            labels: self.labels.filed().map_values(|labels: Vec<String>| texts(labels@)),
            records: self.records.filed().map_values(|key: Key| key@),
            arities: self.arities.filed(),
            methods: self.methods.filed().map_values(|one: Quantified| stand_in(one)),
            instances: self.instances.filed().dom(),
            holds: self.holds.filed(),
            written_as: self.written_as.filed().map_values(|t: Type| t@),
            declares: self.declares.filed().map_values(|key: Key| key@),
            declared: self.declared.filed().map_values(|scheme: Scheme| scheme_view(scheme)),
            foreign: foreign_view(self.foreign@),
        }
    }
}

impl Environment {
    /// Takes back the type of the name defined at `key`, which then has none.
    pub fn unbind(&mut self, key: &Key) -> (unbound: Option<Scheme>)
        ensures
            final(self)@ == (EnvironmentView { values: old(self)@.values.remove(key@), ..old(self)@ }),
            match unbound {
                Some(scheme) => old(self)@.values.contains_key(key@) && scheme_view(scheme) == old(self)@.values[key@],
                None => !old(self)@.values.contains_key(key@),
            },
    {
        let unbound = self.values.remove(key);
        assert(self@.values =~= old(self)@.values.remove(key@));
        unbound
    }

    /// Gives the name defined at `key` the type `scheme`.
    pub fn bind(&mut self, key: Key, scheme: Scheme)
        ensures
            final(self)@ == (EnvironmentView {
                values: old(self)@.values.insert(key@, scheme_view(scheme)),
                ..old(self)@
            }),
    {
        let ghost viewed = scheme_view(scheme);
        let ghost at = key@;
        self.values.file(key, scheme);
        assert(self@.values =~= old(self)@.values.insert(at, viewed));
    }

    /// Files the labels the constructor defined at `key` takes.
    fn file_labels(&mut self, key: Key, labels: Vec<String>)
        ensures
            final(self)@ == (EnvironmentView {
                labels: old(self)@.labels.insert(key@, texts(labels@)),
                ..old(self)@
            }),
    {
        let ghost viewed = texts(labels@);
        let ghost at = key@;
        self.labels.file(key, labels);
        assert(self@.labels =~= old(self)@.labels.insert(at, viewed));
    }

    /// Files the constructor of the record type called `name`.
    fn file_record(&mut self, name: String, key: Key)
        ensures
            final(self)@ == (EnvironmentView {
                records: old(self)@.records.insert(name@, key@),
                ..old(self)@
            }),
    {
        let ghost viewed = key@;
        let ghost at = name@;
        self.records.file(name, key);
        assert(self@.records =~= old(self)@.records.insert(at, viewed));
    }

    /// Files how many arguments the type declared at `key` takes.
    fn file_arity(&mut self, key: Key, takes: usize)
        ensures
            final(self)@ == (EnvironmentView {
                arities: old(self)@.arities.insert(key@, takes),
                ..old(self)@
            }),
    {
        self.arities.file(key, takes);
    }

    /// Files the stand-in the trait method declared at `key` is written over.
    fn file_method(&mut self, key: Key, parameter: Quantified)
        ensures
            final(self)@ == (EnvironmentView {
                methods: old(self)@.methods.insert(key@, stand_in(parameter)),
                ..old(self)@
            }),
    {
        let ghost viewed = stand_in(parameter);
        let ghost at = key@;
        self.methods.file(key, parameter);
        assert(self@.methods =~= old(self)@.methods.insert(at, viewed));
    }

    /// Files that the trait called `of` has an instance for the type called `for_type`.
    fn file_instance(&mut self, of: String, for_type: String)
        ensures
            final(self)@ == (EnvironmentView {
                instances: old(self)@.instances.insert((of@, for_type@)),
                ..old(self)@
            }),
    {
        let ghost at = (of@, for_type@);
        self.instances.file((of, for_type), ());
        assert(self@.instances =~= old(self)@.instances.insert(at));
    }

    /// Files what the type called `for_type` holds.
    fn file_holds(&mut self, for_type: String, bounds: Bounds)
        ensures
            final(self)@ == (EnvironmentView {
                holds: old(self)@.holds.insert(for_type@, bounds),
                ..old(self)@
            }),
    {
        self.holds.file(for_type, bounds);
    }

    /// Files what the instance method declared at `key` must be.
    fn file_written_as(&mut self, key: Key, written: Type)
        ensures
            final(self)@ == (EnvironmentView {
                written_as: old(self)@.written_as.insert(key@, written@),
                ..old(self)@
            }),
    {
        let ghost viewed = written@;
        let ghost at = key@;
        self.written_as.file(key, written);
        assert(self@.written_as =~= old(self)@.written_as.insert(at, viewed));
    }

    /// Files where the method `method` of the trait `of` is declared.
    fn file_declares(&mut self, of: String, method: String, key: Key)
        ensures
            final(self)@ == (EnvironmentView {
                declares: old(self)@.declares.insert((of@, method@), key@),
                ..old(self)@
            }),
    {
        let ghost viewed = key@;
        let ghost at = (of@, method@);
        self.declares.file((of, method), key);
        assert(self@.declares =~= old(self)@.declares.insert(at, viewed));
    }

    /// Files the type the declaration called `name` declares.
    fn file_declared(&mut self, name: String, scheme: Scheme)
        ensures
            final(self)@ == (EnvironmentView {
                declared: old(self)@.declared.insert(name@, scheme_view(scheme)),
                ..old(self)@
            }),
    {
        let ghost viewed = scheme_view(scheme);
        let ghost at = name@;
        self.declared.file(name, scheme);
        assert(self@.declared =~= old(self)@.declared.insert(at, viewed));
    }

    /// Files how the extern type called `name` is called, ahead of any earlier filing of it.
    fn file_foreign(&mut self, name: String, called: Called)
        ensures
            final(self)@ == (EnvironmentView {
                foreign: seq![(name@, called)] + old(self)@.foreign,
                ..old(self)@
            }),
    {
        let ghost at = name@;
        self.foreign.insert(0, (name, called));
        assert(self@.foreign =~= seq![(at, called)] + old(self)@.foreign);
    }

    /// What reading a written type in `resolved` depends on here.
    pub open spec fn reading(&self, resolved: ResolvedProgram) -> Reading {
        Reading {
            keyed: self@.keyed,
            arities: self@.arities,
            definitions: resolved.spec_definitions(),
        }
    }

    /// An environment that holds nothing, filing a source as `keyed` says.
    pub fn empty(keyed: Keyed) -> (environment: Environment)
        ensures
            environment@ == (EnvironmentView {
                keyed,
                values: Map::empty(),
                labels: Map::empty(),
                records: Map::empty(),
                arities: Map::empty(),
                methods: Map::empty(),
                instances: Set::empty(),
                holds: Map::empty(),
                written_as: Map::empty(),
                declares: Map::empty(),
                declared: Map::empty(),
                foreign: Seq::empty(),
            }),
    {
        let environment = Environment {
            keyed,
            values: Filed::new(),
            labels: Filed::new(),
            records: Filed::new(),
            arities: Filed::new(),
            methods: Filed::new(),
            instances: Filed::new(),
            holds: Filed::new(),
            written_as: Filed::new(),
            declares: Filed::new(),
            declared: Filed::new(),
            foreign: Vec::new(),
        };
        assert(environment@.values =~= Map::<KeyView, SchemeView>::empty());
        assert(environment@.labels =~= Map::<KeyView, Seq<Seq<char>>>::empty());
        assert(environment@.records =~= Map::<Seq<char>, KeyView>::empty());
        assert(environment@.methods =~= Map::<KeyView, TypeView>::empty());
        assert(environment@.instances =~= Set::<(Seq<char>, Seq<char>)>::empty());
        assert(environment@.written_as =~= Map::<KeyView, TypeView>::empty());
        assert(environment@.declares =~= Map::<(Seq<char>, Seq<char>), KeyView>::empty());
        assert(environment@.declared =~= Map::<Seq<char>, SchemeView>::empty());
        assert(environment@.foreign =~= Seq::<(Seq<char>, Called)>::empty());
        environment
    }

    /// The key the declaration `name` is the name of, in the source being read.
    pub fn declared_at(&self, name: &Name) -> (key: Key)
        ensures
            key@ == spec_declared_at(self@.keyed, *name),
    {
        match self.keyed {
            Keyed::WhereWritten => Key::at(name),
            Keyed::ByName => Key::prelude(name.text.as_str()),
        }
    }

    /// The key a use of `name` reaches, which `definition` says where to find.
    pub fn key_of(&self, definition: Definition, name: &Name) -> (key: Key)
        ensures
            key@ == spec_reached_key(self@.keyed, definition, *name),
    {
        match self.keyed {
            Keyed::WhereWritten => Key::of(definition, name),
            Keyed::ByName => Key::prelude(name.text.as_str()),
        }
    }

    /// How many arguments the type filed under `key` takes, which is none where nothing says.
    fn takes(&self, key: &Key) -> (takes: usize)
        ensures
            takes == spec_takes(self@.arities, key@),
    {
        match self.arities.get(key) {
            Some(takes) => *takes,
            None => 0,
        }
    }

    /// A use of `name` takes what its declaration takes, or is refused with both counts.
    pub fn counted(name: &Name, takes: usize, given: usize) -> (checked: Result<(), TypeError>)
        ensures
            checked is Ok <==> takes == given,
            checked matches Err(error) ==> refused_as(
                error,
                Misread::Count { name: name.text@, takes: takes as nat, given: given as nat, at: name.span },
            ),
    {
        if takes == given {
            return Ok(());
        }
        let count = Count { name: name.text.clone(), takes, given };
        Err(TypeError::at(name.span, TypeErrorKind::WrongTypeArgumentCount(count)))
    }

    /// `written` as a type, with each name it holds pointed at what it was resolved to.
    pub fn written(&self, resolved: &ResolvedProgram, written: &TypeRef) -> (read: Result<
        Type,
        TypeError,
    >)
        requires
            types_defined(resolved.spec_definitions(), *written),
        ensures
            match spec_read(self.reading(*resolved), *written) {
                Ok(view) => read matches Ok(found) && found@ == view,
                Err(misread) => read matches Err(error) && refused_as(error, misread),
            },
        decreases written, 1int,
    {
        match &written.kind {
            TypeRefKind::Unit => Ok(Type::Unit),
            TypeRefKind::Named { path, arguments } => {
                match &path.module {
                    Some(module) => {
                        let read = match self.each(resolved, arguments) {
                            Ok(read) => read,
                            Err(error) => return Err(error),
                        };
                        proof {
                            lemma_views_of(read@);
                        }
                        self.reached(module, path, read)
                    },
                    None => {
                        let name = &path.name;
                        let definition = match resolved.definition(Namespace::Type, name) {
                            Some(definition) => definition,
                            None => {
                                proof {
                                    assert(false);
                                }
                                return Ok(Type::Unit);
                            },
                        };
                        if definition.kind == DefinitionKind::TypeParameter {
                            if let Err(error) = Self::counted(name, 0, arguments.len()) {
                                return Err(error);
                            }
                            return Ok(Type::Parameter(parameter_of(definition, name)));
                        }
                        let key = self.key_of(definition, name);
                        if let Err(error) = Self::counted(name, self.takes(&key), arguments.len()) {
                            return Err(error);
                        }
                        let read = match self.each(resolved, arguments) {
                            Ok(read) => read,
                            Err(error) => return Err(error),
                        };
                        proof {
                            lemma_views_of(read@);
                        }
                        Ok(Type::Named { name: name.text.clone(), arguments: read })
                    },
                }
            },
        }
    }

    /// Each field of a record: the labels it is built with and the types it carries, in order.
    fn read_fields(&self, resolved: &ResolvedProgram, fields: &Vec<RecordField>) -> (read: Result<
        (Vec<String>, Vec<Type>),
        TypeError,
    >)
        requires
            each_defined(resolved.spec_definitions(), field_types(fields@), fields@.len() as int),
        ensures
            match spec_read_each(self.reading(*resolved), field_types(fields@), fields@.len() as int) {
                Ok(views) => read matches Ok((labels, carries)) && views_of(carries@) == views
                    && texts(labels@) == field_names(fields@),
                Err(misread) => read matches Err(error) && refused_as(error, misread),
            },
    {
        let ghost written = field_types(fields@);
        let mut labels: Vec<String> = Vec::new();
        let mut carries: Vec<Type> = Vec::new();
        let mut i: usize = 0;
        while i < fields.len()
            invariant
                i <= fields@.len(),
                written == field_types(fields@),
                written.len() == fields@.len(),
                each_defined(resolved.spec_definitions(), written, written.len() as int),
                spec_read_each(self.reading(*resolved), written, i as int) matches Ok(views)
                    && views_of(carries@) == views,
                labels@.len() == i,
                forall|j: int| 0 <= j < i ==> (#[trigger] labels@[j])@ == fields@[j].name.text@,
            decreases fields.len() - i,
        {
            proof {
                lemma_each_defined(resolved.spec_definitions(), written, written.len() as int, i as int);
                lemma_views_of(carries@);
                assert(written[i as int] == fields@[i as int].type_ref);
            }
            let one = match self.written(resolved, &fields[i].type_ref) {
                Ok(one) => one,
                Err(error) => {
                    proof {
                        lemma_read_each_stops(self.reading(*resolved), written, i as int);
                    }
                    return Err(error);
                },
            };
            carries.push(one);
            labels.push(fields[i].name.text.clone());
            proof {
                lemma_views_of(carries@);
                assert(views_of(carries@) =~= views_of(carries@.drop_last()).push(one@)) by {
                    lemma_views_of(carries@.drop_last());
                }
            }
            i = i + 1;
        }
        assert(texts(labels@) =~= field_names(fields@));
        Ok((labels, carries))
    }

    /// What one variant carries and the labels it is built with.
    fn read_variant(&self, resolved: &ResolvedProgram, variant: &Variant) -> (read: Result<
        (Vec<String>, Vec<Type>),
        TypeError,
    >)
        requires
            each_defined(
                resolved.spec_definitions(),
                payload_types(variant.payload),
                payload_types(variant.payload).len() as int,
            ),
        ensures
            match spec_read_each(
                self.reading(*resolved),
                payload_types(variant.payload),
                payload_types(variant.payload).len() as int,
            ) {
                Ok(views) => read matches Ok((labels, carries)) && views_of(carries@) == views
                    && texts(labels@) == payload_labels(variant.payload),
                Err(misread) => read matches Err(error) && refused_as(error, misread),
            },
    {
        match &variant.payload {
            VariantPayload::Bare => {
                let labels: Vec<String> = Vec::new();
                let carries: Vec<Type> = Vec::new();
                assert(views_of(carries@) =~= Seq::<TypeView>::empty());
                assert(texts(labels@) =~= Seq::<Seq<char>>::empty());
                Ok((labels, carries))
            },
            VariantPayload::Tuple(written) => {
                let carries = match self.each(resolved, written) {
                    Ok(carries) => carries,
                    Err(error) => return Err(error),
                };
                let labels: Vec<String> = Vec::new();
                assert(texts(labels@) =~= Seq::<Seq<char>>::empty());
                Ok((labels, carries))
            },
            VariantPayload::Record(fields) => self.read_fields(resolved, fields),
        }
    }

    /// Files one constructor: the labels it is built with, and its type over `over`.
    fn build_with(&mut self, key: Key, labels: Vec<String>, carries: Vec<Type>, over: &Vec<Quantified>, declared: &Type)
        ensures
            final(self)@ == (EnvironmentView {
                labels: old(self)@.labels.insert(key@, texts(labels@)),
                values: old(self)@.values.insert(
                    key@,
                    constructor_scheme(stand_ins(over@), views_of(carries@), declared@),
                ),
                ..old(self)@
            }),
    {
        let body = if carries.len() == 0 {
            declared.copied()
        } else {
            Type::function(carries, declared.copied())
        };
        let scheme = Scheme::over(copied_over(over), body);
        let filed_at = key.copied();
        self.file_labels(key, labels);
        self.bind(filed_at, scheme);
        proof {
            lemma_views_of(carries@);
            assert(required_view(scheme.required@) =~= Seq::<(Seq<char>, TypeView)>::empty());
            assert(scheme_view(scheme) == constructor_scheme(stand_ins(over@), views_of(carries@), declared@));
        }
    }

    /// A type declaration gives a type to each of the values its variants are built with.
    pub fn declare_type(&mut self, resolved: &ResolvedProgram, declaration: &TypeDeclaration) -> (declared:
        Result<(), TypeError>)
        requires
            declaration_defined(resolved.spec_definitions(), *declaration),
        ensures
            match spec_declare_type(old(self).reading(*resolved), old(self)@, *declaration) {
                Ok(after) => declared is Ok && final(self)@ == after,
                Err(refusal) => declared matches Err(error) && refused_for(error, refusal),
            },
    {
        let over = quantified(&declaration.parameters);
        let declared = written_declared(declaration);
        let scheme = Scheme::over(copied_over(&over), declared.copied());
        proof {
            assert(required_view(scheme.required@) =~= Seq::<(Seq<char>, TypeView)>::empty());
            assert(scheme_view(scheme) == SchemeView {
                quantified: declared_over(*declaration),
                body: declared_type(*declaration),
                required: Seq::empty(),
            });
        }
        self.file_declared(declaration.name.text.clone(), scheme);
        let ghost filed = self@;
        let ghost reading = self.reading(*resolved);
        assert(reading == old(self).reading(*resolved));
        match &declaration.definition {
            TypeDefinition::Foreign { class: named, .. } => class(named),
            TypeDefinition::Record(fields) => {
                let record_key = self.declared_at(&declaration.name);
                self.file_record(declaration.name.text.clone(), record_key);
                let (labels, carries) = match self.read_fields(resolved, fields) {
                    Ok(read) => read,
                    Err(error) => return Err(error),
                };
                let key = self.declared_at(&declaration.name);
                self.build_with(key, labels, carries, &over, &declared);
                Ok(())
            },
            TypeDefinition::Variants(variants) => {
                let mut i: usize = 0;
                while i < variants.len()
                    invariant
                        i <= variants@.len(),
                        declaration.definition == TypeDefinition::Variants(*variants),
                        declaration_defined(resolved.spec_definitions(), *declaration),
                        self.reading(*resolved) == reading,
                        reading == old(self).reading(*resolved),
                        filed == (EnvironmentView {
                            declared: old(self)@.declared.insert(
                                declaration.name.text@,
                                SchemeView {
                                    quantified: declared_over(*declaration),
                                    body: declared_type(*declaration),
                                    required: Seq::empty(),
                                },
                            ),
                            ..old(self)@
                        }),
                        stand_ins(over@) == declared_over(*declaration),
                        declared@ == declared_type(*declaration),
                        spec_read_variants(reading, variants@, i as int) matches Ok(carried)
                            && self@ == (EnvironmentView {
                            labels: labels_with_variants(filed.labels, filed.keyed, variants@, i as int),
                            values: values_with_variants(
                                filed.values,
                                filed.keyed,
                                variants@,
                                carried,
                                stand_ins(over@),
                                declared@,
                                i as int,
                            ),
                            ..filed
                        }),
                    decreases variants.len() - i,
                {
                    let ghost before = self@;
                    let ghost carried = spec_read_variants(reading, variants@, i as int)->Ok_0;
                    proof {
                        assert(each_defined(
                            resolved.spec_definitions(),
                            payload_types(variants@[i as int].payload),
                            payload_types(variants@[i as int].payload).len() as int,
                        ));
                    }
                    let (labels, carries) = match self.read_variant(resolved, &variants[i]) {
                        Ok(read) => read,
                        Err(error) => {
                            proof {
                                lemma_read_variants_stops(reading, variants@, i as int);
                            }
                            return Err(error);
                        },
                    };
                    let key = self.declared_at(&variants[i].name);
                    self.build_with(key, labels, carries, &over, &declared);
                    proof {
                        lemma_read_variants_len(reading, variants@, i as int);
                        let now = carried.push(views_of(carries@));
                        assert(spec_read_variants(reading, variants@, i + 1) == Ok::<Seq<Seq<TypeView>>, Misread>(now));
                        lemma_values_with_variants_prefix(filed.values, filed.keyed, variants@, carried, now, stand_ins(over@), declared@, i as int);
                    }
                    i = i + 1;
                }
                Ok(())
            },
        }
    }

    /// The types a function takes: each one written, or a fresh variable where none is.
    fn parameter_types(&self, resolved: &ResolvedProgram, function: &Function, table: &mut Table) -> (read:
        Result<Vec<Type>, TypeError>)
        requires
            function_defined(resolved.spec_definitions(), *function),
            old(table).well_formed(),
            old(table).made() + function.parameters@.len() < u32::MAX,
        ensures
            final(table).well_formed(),
            final(table).entries() == old(table).entries(),
            final(table).rank() == old(table).rank(),
            final(table).whole() == old(table).whole(),
            final(table).written() == old(table).written(),
            old(table).made() <= final(table).made() <= old(table).made() + function.parameters@.len(),
            match spec_read_parameters(
                self.reading(*resolved),
                function.parameters@,
                function.parameters@.len() as int,
                old(table).made(),
            ) {
                Ok(views) => read matches Ok(found) && views_of(found@) == views
                    && final(table).made() == old(table).made() + left_out(
                    function.parameters@,
                    function.parameters@.len() as int,
                ),
                Err(misread) => read matches Err(error) && refused_as(error, misread),
            },
    {
        let ghost made = table.made();
        let ghost reading = self.reading(*resolved);
        let mut read: Vec<Type> = Vec::new();
        let mut i: usize = 0;
        while i < function.parameters.len()
            invariant
                i <= function.parameters@.len(),
                reading == self.reading(*resolved),
                function_defined(resolved.spec_definitions(), *function),
                table.well_formed(),
                table.entries() == old(table).entries(),
                table.rank() == old(table).rank(),
                table.whole() == old(table).whole(),
                table.written() == old(table).written(),
                made == old(table).made(),
                made + function.parameters@.len() < u32::MAX,
                left_out(function.parameters@, i as int) <= i,
                spec_read_parameters(reading, function.parameters@, i as int, made) matches Ok(views)
                    && views_of(read@) == views && table.made() == made + left_out(function.parameters@, i as int),
            decreases function.parameters.len() - i,
        {
            proof {
                lemma_views_of(read@);
            }
            let parameter = &function.parameters[i];
            let one = match &parameter.type_ref {
                Some(written) => {
                    assert(function.parameters@[i as int].type_ref == Some(*written));
                    match self.written(resolved, written) {
                        Ok(one) => one,
                        Err(error) => {
                            proof {
                                lemma_read_parameters_stops(reading, function.parameters@, i as int, made);
                            }
                            return Err(error);
                        },
                    }
                },
                None => table.fresh(),
            };
            read.push(one);
            proof {
                lemma_views_of(read@);
                assert(views_of(read@) =~= views_of(read@.drop_last()).push(one@)) by {
                    lemma_views_of(read@.drop_last());
                }
            }
            i = i + 1;
        }
        Ok(read)
    }

    /// The traits a function's type parameters are constrained by, at the types they constrain.
    fn constraints(&self, resolved: &ResolvedProgram, function: &Function) -> (required: Result<
        Vec<Required>,
        TypeError,
    >)
        requires
            function_defined(resolved.spec_definitions(), *function),
        ensures
            match spec_read_constraints(
                self.reading(*resolved),
                function.type_parameters@,
                function.type_parameters@.len() as int,
            ) {
                Ok(views) => required matches Ok(found) && required_view(found@) == views,
                Err(misread) => required matches Err(error) && refused_as(error, misread),
            },
    {
        let ghost reading = self.reading(*resolved);
        let ghost parameters = function.type_parameters@;
        let mut required: Vec<Required> = Vec::new();
        let mut i: usize = 0;
        while i < function.type_parameters.len()
            invariant
                i <= parameters.len(),
                parameters == function.type_parameters@,
                reading == self.reading(*resolved),
                function_defined(resolved.spec_definitions(), *function),
                spec_read_constraints(reading, parameters, i as int) matches Ok(views)
                    && required_view(required@) == views,
            decreases parameters.len() - i,
        {
            let parameter = &function.type_parameters[i];
            match &parameter.constraint {
                None => {},
                Some(constraint) => {
                    assert(parameters[i as int].constraint == Some(*constraint));
                    let at = match self.written(resolved, &constraint.argument) {
                        Ok(at) => at,
                        Err(error) => {
                            proof {
                                lemma_read_constraints_stops(reading, parameters, i as int);
                            }
                            return Err(error);
                        },
                    };
                    let ghost before = required@;
                    required.push(Required { trait_name: constraint.name.text.clone(), at });
                    assert(required_view(required@) =~= required_view(before).push(
                        (constraint.name.text@, at@),
                    ));
                },
            }
            i = i + 1;
        }
        Ok(required)
    }

    /// A function's type as its signature reads, with a variable where nothing was written.
    pub fn declare_function(&mut self, resolved: &ResolvedProgram, function: &Function, table: &mut Table) -> (declared:
        Result<(), TypeError>)
        requires
            function_defined(resolved.spec_definitions(), *function),
            old(table).well_formed(),
            old(table).made() + function.parameters@.len() + 1 < u32::MAX,
        ensures
            final(table).well_formed(),
            final(table).entries() == old(table).entries(),
            final(table).rank() == old(table).rank(),
            final(table).whole() == old(table).whole(),
            final(table).written() == old(table).written(),
            old(table).made() <= final(table).made() <= old(table).made() + function.parameters@.len() + 1,
            match spec_declare_function(old(self).reading(*resolved), old(self)@, *function, old(table).made()) {
                Ok((after, made)) => declared is Ok && final(self)@ == after && final(table).made() == made,
                Err(refusal) => declared matches Err(error) && refused_for(error, refusal)
                    && final(self)@ == old(self)@,
            },
    {
        let ghost made = table.made();
        let parameters = match self.parameter_types(resolved, function, table) {
            Ok(parameters) => parameters,
            Err(error) => return Err(error),
        };
        let result = match &function.result {
            Some(written) => match self.written(resolved, written) {
                Ok(result) => result,
                Err(error) => return Err(error),
            },
            None => table.fresh(),
        };
        let over = written_over(&function.type_parameters);
        let required = match self.constraints(resolved, function) {
            Ok(required) => required,
            Err(error) => return Err(error),
        };
        proof {
            lemma_views_of(parameters@);
        }
        let signature = Type::function(parameters, result);
        let scheme = Scheme::over(over, signature).requiring(required);
        let key = self.declared_at(&function.name);
        self.bind(key, scheme);
        Ok(())
    }

    /// One signature of a trait, which names types and nothing that has to be inferred.
    ///
    /// A function leaves a parameter's type out and inference reads it off the body. A signature
    /// has no body, so a type left out here is one nothing would ever settle, and it is refused
    /// where it is missing rather than at the instance that is later held to whatever it became.
    pub fn signature(&self, resolved: &ResolvedProgram, method: &Signature) -> (read: Result<
        Type,
        TypeError,
    >)
        requires
            forall|j: int|
                0 <= j < method.parameters@.len() ==> ((#[trigger] method.parameters@[j]).type_ref matches Some(
                    written,
                ) ==> types_defined(resolved.spec_definitions(), written)),
            method.result matches Some(written) ==> types_defined(resolved.spec_definitions(), written),
        ensures
            match spec_signature(self.reading(*resolved), *method) {
                Ok(view) => read matches Ok(found) && found@ == view,
                Err(misread) => read matches Err(error) && refused_as(error, misread),
            },
    {
        let ghost reading = self.reading(*resolved);
        let ghost parameters = method.parameters@;
        let mut taken: Vec<Type> = Vec::new();
        let mut i: usize = 0;
        while i < method.parameters.len()
            invariant
                i <= parameters.len(),
                parameters == method.parameters@,
                reading == self.reading(*resolved),
                forall|j: int|
                    0 <= j < parameters.len() ==> ((#[trigger] parameters[j]).type_ref matches Some(written)
                        ==> types_defined(resolved.spec_definitions(), written)),
                spec_read_signature_parameters(reading, parameters, i as int) matches Ok(views)
                    && views_of(taken@) == views,
            decreases parameters.len() - i,
        {
            proof {
                lemma_views_of(taken@);
            }
            let parameter = &method.parameters[i];
            let written = match &parameter.type_ref {
                Some(written) => written,
                None => {
                    proof {
                        lemma_read_signature_stops(reading, parameters, i as int);
                    }
                    let kind = TypeErrorKind::SignatureWithoutType(parameter.name.text.clone());
                    return Err(TypeError::at(parameter.name.span, kind));
                },
            };
            assert(parameters[i as int].type_ref == Some(*written));
            let one = match self.written(resolved, written) {
                Ok(one) => one,
                Err(error) => {
                    proof {
                        lemma_read_signature_stops(reading, parameters, i as int);
                    }
                    return Err(error);
                },
            };
            taken.push(one);
            proof {
                lemma_views_of(taken@);
                assert(views_of(taken@) =~= views_of(taken@.drop_last()).push(one@)) by {
                    lemma_views_of(taken@.drop_last());
                }
            }
            i = i + 1;
        }
        let result = match &method.result {
            Some(written) => match self.written(resolved, written) {
                Ok(result) => result,
                Err(error) => return Err(error),
            },
            None => Type::Unit,
        };
        Ok(Type::function(taken, result))
    }

    /// A trait gives each of its methods a type, written over the one parameter it declares.
    ///
    /// The method is the name every instance answers for, so this is the type a call of it is
    /// read against, whichever instance turns out to answer.
    pub fn declare_trait(&mut self, resolved: &ResolvedProgram, declaration: &TraitDeclaration) -> (declared:
        Result<(), TypeError>)
        requires
            trait_defined(resolved.spec_definitions(), *declaration),
        ensures
            match spec_declare_trait(old(self).reading(*resolved), old(self)@, *declaration) {
                Ok(after) => declared is Ok && final(self)@ == after,
                Err(refusal) => declared matches Err(error) && refused_for(error, refusal),
            },
    {
        let ghost reading = old(self).reading(*resolved);
        let ghost start = self@;
        let ghost methods = declaration.methods@;
        let ghost parameter_view = written_stand_in(declaration.parameter);
        let written = TypeParameter::written(&declaration.parameter);
        let parameter = Quantified::Parameter(written.copied());
        let mut i: usize = 0;
        while i < declaration.methods.len()
            invariant
                i <= methods.len(),
                methods == declaration.methods@,
                reading == self.reading(*resolved),
                reading == old(self).reading(*resolved),
                start == old(self)@,
                trait_defined(resolved.spec_definitions(), *declaration),
                stand_in(parameter) == parameter_view,
                parameter_view == written_stand_in(declaration.parameter),
                written.name@ == declaration.parameter.text@,
                written.origin == Origin::Declared(declaration.parameter.span),
                spec_read_methods(reading, methods, i as int) matches Ok(signatures) && self@ == (
                EnvironmentView {
                    values: values_with_methods(
                        start.values,
                        start.keyed,
                        methods,
                        signatures,
                        parameter_view,
                        declaration.name.text@,
                        i as int,
                    ),
                    methods: methods_with(start.methods, start.keyed, methods, parameter_view, i as int),
                    declares: declares_with(start.declares, start.keyed, declaration.name.text@, methods, i as int),
                    ..start
                }),
            decreases methods.len() - i,
        {
            let ghost signatures = spec_read_methods(reading, methods, i as int)->Ok_0;
            let method = &declaration.methods[i];
            let signature = match self.signature(resolved, method) {
                Ok(signature) => signature,
                Err(error) => {
                    proof {
                        lemma_read_methods_stops(reading, methods, i as int);
                    }
                    return Err(error);
                },
            };
            let ghost one = signature@;
            let mut over: Vec<Quantified> = Vec::new();
            over.push(parameter.copied());
            let mut asks: Vec<Required> = Vec::new();
            asks.push(Required { trait_name: declaration.name.text.clone(), at: Type::Parameter(written.copied()) });
            let scheme = Scheme::over(over, signature).requiring(asks);
            proof {
                assert(stand_ins(scheme.quantified@) =~= seq![parameter_view]);
                assert(required_view(scheme.required@) =~= seq![(declaration.name.text@, parameter_view)]);
            }
            let key = self.declared_at(&method.name);
            let filed_at = key.copied();
            let declared_key = key.copied();
            self.bind(key, scheme);
            self.file_method(filed_at, parameter.copied());
            self.file_declares(declaration.name.text.clone(), method.name.text.clone(), declared_key);
            proof {
                lemma_read_methods_len(reading, methods, i as int);
                let now = signatures.push(one);
                assert(spec_read_methods(reading, methods, i + 1) == Ok::<Seq<TypeView>, Misread>(now));
                lemma_values_with_methods_prefix(
                    start.values,
                    start.keyed,
                    methods,
                    signatures,
                    now,
                    parameter_view,
                    declaration.name.text@,
                    i as int,
                );
            }
            i = i + 1;
        }
        Ok(())
    }

    /// An instance is for a whole type, so the type it names takes no arguments.
    ///
    /// `instance Eq<Option>` would be an instance of one name, and every `Option<T>` would then
    /// reach it whatever `T` turned out to be. An instance per argument waits for the spec that
    /// derives one, so a type that takes arguments is refused here, counted as anywhere else.
    pub fn takes_no_arguments(&self, resolved: &ResolvedProgram, for_type: &Name) -> (checked: Result<
        (),
        TypeError,
    >)
        requires
            resolved.spec_definitions().contains_key((Namespace::Type, for_type.span)),
        ensures
            ({
                let takes = spec_for_type_takes(self@, resolved.spec_definitions(), *for_type);
                &&& checked is Ok <==> takes == 0
                &&& checked matches Err(error) ==> refused_as(
                    error,
                    Misread::Count { name: for_type.text@, takes, given: 0, at: for_type.span },
                )
            }),
    {
        let definition = match resolved.definition(Namespace::Type, for_type) {
            Some(definition) => definition,
            None => {
                proof {
                    assert(false);
                }
                return Ok(());
            },
        };
        let key = self.key_of(definition, for_type);
        Self::counted(for_type, self.takes(&key), 0)
    }

    /// That an instance exists, and what it says its type holds when it is an `IntegerLiteral`.
    ///
    /// This is what a module reaching the instance asks for; what the instance writes to answer
    /// with is declared beside it, where there is a body to declare.
    #[verifier::rlimit(100)]
    pub fn note_instance(&mut self, resolved: &ResolvedProgram, declaration: &InstanceDeclaration) -> (noted:
        Result<(), TypeError>)
        requires
            resolved.spec_definitions().contains_key((Namespace::Type, declaration.for_type.span)),
            declaration.trait_name.text@ == INTEGER_LITERAL@ ==> writes_method(*declaration, LOWEST@)
                && writes_method(*declaration, HIGHEST@),
        ensures
            match spec_note_instance(resolved.spec_definitions(), old(self)@, *declaration) {
                Ok(after) => noted is Ok && final(self)@ == after,
                Err(refusal) => noted matches Err(error) && refused_for(error, refusal),
            },
    {
        if let Err(error) = self.takes_no_arguments(resolved, &declaration.for_type) {
            return Err(error);
        }
        assert(spec_whole_type(old(self)@, resolved.spec_definitions(), declaration.for_type) is None);
        let of = declaration.trait_name.text.clone();
        let for_type = declaration.for_type.text.clone();
        if same_text(of.as_str(), INTEGER_LITERAL) {
            let bounds = match stated(declaration) {
                Ok(bounds) => bounds,
                Err(error) => {
                    assert(spec_noted(old(self)@, *declaration) is Err);
                    return Err(error);
                },
            };
            self.file_holds(for_type.clone(), bounds);
        } else {
            assert(spec_noted(old(self)@, *declaration) == Ok::<EnvironmentView, Seq<char>>(
                EnvironmentView {
                    instances: old(self)@.instances.insert((of@, for_type@)),
                    ..old(self)@
                },
            ));
        }
        self.file_instance(of, for_type);
        Ok(())
    }

    /// A derive: the instances it claims, each for the whole type it names.
    ///
    /// What each instance writes is settled by the declaration rather than by anything written
    /// here, so a derive declares the instance and leaves the checking of it to the pass that
    /// runs once every item has been declared.
    pub fn declare_derive(&mut self, resolved: &ResolvedProgram, declaration: &DeriveDeclaration) -> (declared:
        Result<(), TypeError>)
        requires
            resolved.spec_definitions().contains_key((Namespace::Type, declaration.for_type.span)),
        ensures
            match spec_declare_derive(resolved.spec_definitions(), old(self)@, *declaration) {
                Ok(after) => declared is Ok && final(self)@ == after,
                Err(refusal) => declared matches Err(error) && refused_for(error, refusal),
            },
    {
        if let Err(error) = self.takes_no_arguments(resolved, &declaration.for_type) {
            return Err(error);
        }
        let ghost start = self@;
        let mut i: usize = 0;
        while i < declaration.traits.len()
            invariant
                i <= declaration.traits@.len(),
                start == old(self)@,
                self@ == (EnvironmentView {
                    instances: derived_instances(
                        start.instances,
                        declaration.traits@,
                        declaration.for_type.text@,
                        i as int,
                    ),
                    ..start
                }),
            decreases declaration.traits.len() - i,
        {
            self.file_instance(declaration.traits[i].text.clone(), declaration.for_type.text.clone());
            i = i + 1;
        }
        Ok(())
    }

    /// The type the trait `of` gives the method `method` at `given`, when it declares one.
    pub fn method_at(&self, of: &String, method: &String, given: &Type) -> (found: Option<Type>)
        ensures
            match spec_method_at(self@, of@, method@, given@) {
                Some(view) => found matches Some(t) && t@ == view,
                None => found is None,
            },
    {
        let key = match self.declares.get(&(of.clone(), method.clone())) {
            Some(key) => key,
            None => return None,
        };
        let scheme = match self.values.get(key) {
            Some(scheme) => scheme,
            None => return None,
        };
        let parameter = match self.methods.get(key) {
            Some(parameter) => parameter,
            None => return None,
        };
        Some(scheme.settling(parameter, given.copied()))
    }

    /// An instance: the methods it writes, and what each of them has to be.
    ///
    /// An instance's method is monomorphic — its trait's parameter has settled on the instance's
    /// type — so it is declared as a function is, and held to the trait's signature at that type.
    pub fn declare_instance(
        &mut self,
        resolved: &ResolvedProgram,
        declaration: &InstanceDeclaration,
        table: &mut Table,
    ) -> (declared: Result<(), TypeError>)
        requires
            resolved.spec_definitions().contains_key((Namespace::Type, declaration.for_type.span)),
            declaration.trait_name.text@ == INTEGER_LITERAL@ ==> writes_method(*declaration, LOWEST@)
                && writes_method(*declaration, HIGHEST@),
            forall|i: int|
                0 <= i < declaration.methods@.len() ==> function_defined(
                    resolved.spec_definitions(),
                    #[trigger] declaration.methods@[i],
                ),
            old(table).well_formed(),
            old(table).made() + methods_budget(declaration.methods@, declaration.methods@.len() as int)
                < u32::MAX,
        ensures
            final(table).well_formed(),
            final(table).entries() == old(table).entries(),
            final(table).rank() == old(table).rank(),
            final(table).whole() == old(table).whole(),
            final(table).written() == old(table).written(),
            old(table).made() <= final(table).made() <= old(table).made() + methods_budget(
                declaration.methods@,
                declaration.methods@.len() as int,
            ),
            match spec_declare_instance(
                old(self).reading(*resolved),
                resolved.spec_definitions(),
                old(self)@,
                *declaration,
                old(table).made(),
            ) {
                Ok((after, made)) => declared is Ok && final(self)@ == after && final(table).made() == made,
                Err(refusal) => declared matches Err(error) && refused_for(error, refusal),
            },
    {
        if let Err(error) = self.note_instance(resolved, declaration) {
            return Err(error);
        }
        let ghost reading = self.reading(*resolved);
        let ghost noted = self@;
        let ghost made = table.made();
        let ghost methods = declaration.methods@;
        let given = Type::plain(declaration.for_type.text.as_str());
        let mut i: usize = 0;
        while i < declaration.methods.len()
            invariant
                i <= methods.len(),
                methods == declaration.methods@,
                reading == self.reading(*resolved),
                reading == old(self).reading(*resolved),
                spec_for_type_takes(old(self)@, resolved.spec_definitions(), declaration.for_type) == 0,
                spec_noted(old(self)@, *declaration) == Ok::<EnvironmentView, Seq<char>>(noted),
                made == old(table).made(),
                given@ == plain(declaration.for_type.text@),
                forall|k: int|
                    0 <= k < methods.len() ==> function_defined(
                        resolved.spec_definitions(),
                        #[trigger] methods[k],
                    ),
                made + methods_budget(methods, methods.len() as int) < u32::MAX,
                table.well_formed(),
                table.entries() == old(table).entries(),
                table.rank() == old(table).rank(),
                table.whole() == old(table).whole(),
                table.written() == old(table).written(),
                made <= table.made() <= made + methods_budget(methods, i as int),
                spec_declare_methods(
                    reading,
                    noted,
                    methods,
                    declaration.trait_name.text@,
                    given@,
                    made,
                    i as int,
                ) matches Ok((environment, counted)) && self@ == environment && table.made() == counted,
            decreases methods.len() - i,
        {
            proof {
                lemma_methods_budget(methods, i as int, methods.len() as int);
            }
            let method = &declaration.methods[i];
            if let Err(error) = self.declare_function(resolved, method, table) {
                proof {
                    lemma_declare_methods_stops(
                        reading,
                        noted,
                        methods,
                        declaration.trait_name.text@,
                        given@,
                        made,
                        i as int,
                    );
                }
                return Err(error);
            }
            if let Some(written) = self.method_at(&declaration.trait_name.text, &method.name.text, &given) {
                let key = self.declared_at(&method.name);
                self.file_written_as(key, written);
            }
            i = i + 1;
        }
        Ok(())
    }

    /// What each declared type is, before any declaration that writes one is read.
    ///
    /// How many arguments it takes is what every written type is held to, and the kind of class
    /// it names is what an `extern` signature naming it crosses as. A file reads top down and
    /// a definition sits below what uses it, so both are gathered ahead of the declarations.
    pub fn note_types(&mut self, resolved: &ResolvedProgram)
        ensures
            final(self)@ == spec_note_types(
                old(self)@,
                resolved.spec_program().items@,
                resolved.spec_program().items@.len() as int,
            ),
    {
        let items = &resolved.program().items;
        let mut i: usize = 0;
        while i < items.len()
            invariant
                i <= items@.len(),
                *items == resolved.spec_program().items,
                self@ == spec_note_types(old(self)@, items@, i as int),
            decreases items.len() - i,
        {
            match &items[i] {
                Item::Type(declaration) => {
                    let key = self.declared_at(&declaration.name);
                    self.file_arity(key, declaration.parameters.len());
                    match &declaration.definition {
                        TypeDefinition::Foreign { called, .. } => {
                            self.file_foreign(declaration.name.text.clone(), *called);
                        },
                        _ => {},
                    }
                },
                _ => {},
            }
            i = i + 1;
        }
    }

    /// Every trait the module declares, which an instance below it is read against.
    pub fn declare_traits(&mut self, resolved: &ResolvedProgram) -> (declared: Result<(), TypeError>)
        requires
            program_defined(resolved.spec_definitions(), resolved.spec_program()),
        ensures
            match spec_declare_traits(
                old(self).reading(*resolved),
                old(self)@,
                resolved.spec_program().items@,
                resolved.spec_program().items@.len() as int,
            ) {
                Ok(after) => declared is Ok && final(self)@ == after,
                Err(refusal) => declared matches Err(error) && refused_for(error, refusal),
            },
    {
        let ghost reading = old(self).reading(*resolved);
        let items = &resolved.program().items;
        let mut i: usize = 0;
        while i < items.len()
            invariant
                i <= items@.len(),
                *items == resolved.spec_program().items,
                program_defined(resolved.spec_definitions(), resolved.spec_program()),
                reading == old(self).reading(*resolved),
                spec_declare_traits(reading, old(self)@, items@, i as int) matches Ok(after)
                    && self@ == after && self.reading(*resolved) == reading,
            decreases items.len() - i,
        {
            match &items[i] {
                Item::Trait(declaration) => {
                    assert(item_defined(resolved.spec_definitions(), items@[i as int]));
                    if let Err(error) = self.declare_trait(resolved, declaration) {
                        proof {
                            lemma_declare_traits_stops(reading, old(self)@, items@, i as int);
                        }
                        return Err(error);
                    }
                },
                _ => {},
            }
            i = i + 1;
        }
        Ok(())
    }

    /// One item, declared: its type, or the types of what it builds or writes.
    #[verifier::rlimit(80)]
    pub fn declare(&mut self, resolved: &ResolvedProgram, item: &Item, table: &mut Table) -> (declared: Result<
        (),
        TypeError,
    >)
        requires
            item_defined(resolved.spec_definitions(), *item),
            old(table).well_formed(),
            old(table).made() + item_budget(*item) < u32::MAX,
        ensures
            final(table).well_formed(),
            final(table).entries() == old(table).entries(),
            final(table).rank() == old(table).rank(),
            final(table).whole() == old(table).whole(),
            final(table).written() == old(table).written(),
            old(table).made() <= final(table).made() <= old(table).made() + item_budget(*item),
            match spec_declare_item(
                old(self).reading(*resolved),
                resolved.spec_definitions(),
                old(self)@,
                *item,
                old(table).made(),
            ) {
                Ok((after, made)) => declared is Ok && final(self)@ == after && final(table).made() == made,
                Err(refusal) => declared matches Err(error) && refused_for(error, refusal),
            },
    {
        proof {
            reveal(spec_declare_item);
        }
        match item {
            Item::Import(import) => {
                let module = Type::Module(import.module.text.clone());
                let key = self.declared_at(&import.module);
                let scheme = Scheme::monomorphic(module);
                proof {
                    assert(stand_ins(scheme.quantified@) =~= Seq::<TypeView>::empty());
                    assert(required_view(scheme.required@) =~= Seq::<(Seq<char>, TypeView)>::empty());
                }
                self.bind(key, scheme);
                Ok(())
            },
            Item::Type(declaration) => self.declare_type(resolved, declaration),
            Item::Trait(_) => Ok(()),
            Item::Instance(declaration) => self.declare_instance(resolved, declaration, table),
            Item::Derive(declaration) => self.declare_derive(resolved, declaration),
            Item::Function(function) => self.declare_function(resolved, function, table),
        }
    }

    /// Every item of `resolved`, declared in the order it is written.
    pub fn declare_items(&mut self, resolved: &ResolvedProgram, table: &mut Table) -> (declared: Result<
        (),
        TypeError,
    >)
        requires
            program_defined(resolved.spec_definitions(), resolved.spec_program()),
            old(table).well_formed(),
            old(table).made() + items_budget(
                resolved.spec_program().items@,
                resolved.spec_program().items@.len() as int,
            ) < u32::MAX,
        ensures
            final(table).well_formed(),
            final(table).entries() == old(table).entries(),
            final(table).rank() == old(table).rank(),
            final(table).whole() == old(table).whole(),
            final(table).written() == old(table).written(),
            old(table).made() <= final(table).made(),
            match spec_declare_items(
                old(self).reading(*resolved),
                resolved.spec_definitions(),
                old(self)@,
                resolved.spec_program().items@,
                old(table).made(),
                resolved.spec_program().items@.len() as int,
            ) {
                Ok((after, made)) => declared is Ok && final(self)@ == after && final(table).made() == made,
                Err(refusal) => declared matches Err(error) && refused_for(error, refusal),
            },
    {
        let ghost reading = old(self).reading(*resolved);
        let ghost made = table.made();
        let items = &resolved.program().items;
        let mut i: usize = 0;
        while i < items.len()
            invariant
                i <= items@.len(),
                *items == resolved.spec_program().items,
                program_defined(resolved.spec_definitions(), resolved.spec_program()),
                reading == old(self).reading(*resolved),
                made == old(table).made(),
                made + items_budget(items@, items@.len() as int) < u32::MAX,
                table.well_formed(),
                table.entries() == old(table).entries(),
                table.rank() == old(table).rank(),
                table.whole() == old(table).whole(),
                table.written() == old(table).written(),
                made <= table.made() <= made + items_budget(items@, i as int),
                spec_declare_items(reading, resolved.spec_definitions(), old(self)@, items@, made, i as int) matches Ok(
                    (after, counted),
                ) && self@ == after && table.made() == counted && self.reading(*resolved) == reading,
            decreases items.len() - i,
        {
            proof {
                lemma_items_budget(items@, i as int, items@.len() as int);
                assert(item_defined(resolved.spec_definitions(), items@[i as int]));
            }
            let ghost before = self@;
            if let Err(error) = self.declare(resolved, &items[i], table) {
                proof {
                    lemma_declare_items_stops(reading, resolved.spec_definitions(), old(self)@, items@, made, i as int);
                }
                return Err(error);
            }
            proof {
                lemma_declare_item_keeps(reading, resolved.spec_definitions(), before, items@[i as int], spec_declare_items(reading, resolved.spec_definitions(), old(self)@, items@, made, i as int)->Ok_0.1);
            }
            i = i + 1;
        }
        Ok(())
    }

    /// Everything `resolved` declares, over what `prelude` already holds.
    pub fn of(prelude: Environment, resolved: &ResolvedProgram, table: &mut Table) -> (environment: Result<
        Environment,
        TypeError,
    >)
        requires
            program_defined(resolved.spec_definitions(), resolved.spec_program()),
            derives_declared(resolved.spec_definitions(), resolved.spec_program()),
            old(table).well_formed(),
            old(table).made() + items_budget(
                resolved.spec_program().items@,
                resolved.spec_program().items@.len() as int,
            ) < u32::MAX,
        ensures
            final(table).well_formed(),
            final(table).entries() == old(table).entries(),
            final(table).rank() == old(table).rank(),
            final(table).whole() == old(table).whole(),
            final(table).written() == old(table).written(),
            old(table).made() <= final(table).made(),
            match spec_environment_of(
                prelude@,
                resolved.spec_definitions(),
                resolved.spec_program(),
                old(table).made(),
            ) {
                Ok((after, made)) => environment matches Ok(found) && found@ == after
                    && final(table).made() == made,
                Err(refusal) => environment matches Err(error) && refused_for(error, refusal),
            },
    {
        let mut environment = prelude;
        environment.note_types(resolved);
        match environment.declare_module(resolved, table) {
            Ok(()) => Ok(environment),
            Err(error) => Err(error),
        }
    }

    /// Each trait, then every item in order, then what each derive needs, over what is here.
    fn declare_module(&mut self, resolved: &ResolvedProgram, table: &mut Table) -> (declared: Result<
        (),
        TypeError,
    >)
        requires
            program_defined(resolved.spec_definitions(), resolved.spec_program()),
            derives_declared(resolved.spec_definitions(), resolved.spec_program()),
            old(table).well_formed(),
            old(table).made() + items_budget(
                resolved.spec_program().items@,
                resolved.spec_program().items@.len() as int,
            ) < u32::MAX,
        ensures
            final(table).well_formed(),
            final(table).entries() == old(table).entries(),
            final(table).rank() == old(table).rank(),
            final(table).whole() == old(table).whole(),
            final(table).written() == old(table).written(),
            old(table).made() <= final(table).made(),
            match spec_declare_module(
                resolved.spec_definitions(),
                old(self)@,
                resolved.spec_program(),
                old(table).made(),
            ) {
                Ok((after, made)) => declared is Ok && final(self)@ == after && final(table).made() == made,
                Err(refusal) => declared matches Err(error) && refused_for(error, refusal),
            },
    {
        let ghost items = resolved.spec_program().items@;
        let ghost definitions = resolved.spec_definitions();
        let ghost reading = self.reading(*resolved);
        if let Err(error) = self.declare_traits(resolved) {
            return Err(error);
        }
        proof {
            lemma_declare_traits_keeps(reading, old(self)@, items, items.len() as int);
        }
        if let Err(error) = self.declare_items(resolved, table) {
            return Err(error);
        }
        hold_what_they_need(self, resolved)
    }

    /// Everything the prelude declares, ready for a module's own declarations on top of it.
    ///
    /// A module reaches a prelude name by its spelling rather than by where it is written, so the
    /// prelude is declared under those spellings, and once it is, what is declared on top of it
    /// is filed where it is written.
    pub fn of_prelude(prelude: &ResolvedProgram) -> (environment: Result<Environment, TypeError>)
        requires
            program_defined(prelude.spec_definitions(), prelude.spec_program()),
            reachable_budget(prelude.spec_program().items@, prelude.spec_program().items@.len() as int)
                < u32::MAX,
        ensures
            match spec_prelude_declared(prelude.spec_definitions(), prelude.spec_program()) {
                Ok(after) => environment matches Ok(found) && found@ == after,
                Err(refusal) => environment matches Err(error) && refused_for(error, refusal),
            },
    {
        let mut environment = Environment::empty(Keyed::ByName);
        let held = held_types();
        let ghost table_of = held_type_table();
        let mut i: usize = 0;
        while i < held.len()
            invariant
                i <= held@.len(),
                held@.map_values(|one: (&'static str, usize)| (one.0@, one.1)) == table_of,
                table_of == held_type_table(),
                environment@ == (EnvironmentView {
                    keyed: Keyed::ByName,
                    values: Map::empty(),
                    labels: Map::empty(),
                    records: Map::empty(),
                    arities: held_arities(Map::empty(), table_of, i as int),
                    methods: Map::empty(),
                    instances: Set::empty(),
                    holds: Map::empty(),
                    written_as: Map::empty(),
                    declares: Map::empty(),
                    declared: Map::empty(),
                    foreign: Seq::empty(),
                }),
            decreases held.len() - i,
        {
            let (name, takes) = held[i];
            assert(table_of[i as int] == (name@, takes));
            environment.file_arity(Key::prelude(name), takes);
            i = i + 1;
        }
        let todo = todo();
        proof {
            assert(stand_ins(todo.quantified@) =~= todo_scheme().quantified);
            assert(required_view(todo.required@) =~= Seq::<(Seq<char>, TypeView)>::empty());
        }
        environment.bind(Key::prelude("todo"), todo);
        proof {
            reveal_strlit("todo");
        }
        environment.note_types(prelude);
        let ghost noted = environment@;
        if let Err(error) = environment.declare_traits(prelude) {
            return Err(error);
        }
        proof {
            lemma_declare_traits_keeps(
                environment_reading(noted, prelude.spec_definitions()),
                noted,
                prelude.spec_program().items@,
                prelude.spec_program().items@.len() as int,
            );
        }
        if let Err(error) = environment.declare_reachable(prelude) {
            return Err(error);
        }
        environment.keyed = Keyed::WhereWritten;
        Ok(environment)
    }

    /// The prelude's declarations a module reaches, which is every one it can write the name of.
    ///
    /// An instance's methods are not among them: a module reaches an instance by asking for the
    /// trait at a type rather than by naming the body that answers, and filing one here would
    /// file it under the trait method's own name, which is the name it answers for.
    fn declare_reachable(&mut self, resolved: &ResolvedProgram) -> (declared: Result<(), TypeError>)
        requires
            program_defined(resolved.spec_definitions(), resolved.spec_program()),
            reachable_budget(resolved.spec_program().items@, resolved.spec_program().items@.len() as int)
                < u32::MAX,
        ensures
            match spec_declare_reachable(
                old(self).reading(*resolved),
                resolved.spec_definitions(),
                old(self)@,
                resolved.spec_program().items@,
                0,
                resolved.spec_program().items@.len() as int,
            ) {
                Ok((after, _)) => declared is Ok && final(self)@ == after,
                Err(refusal) => declared matches Err(error) && refused_for(error, refusal),
            },
    {
        let ghost reading = old(self).reading(*resolved);
        let mut table = Table::new();
        let items = &resolved.program().items;
        let mut i: usize = 0;
        while i < items.len()
            invariant
                i <= items@.len(),
                *items == resolved.spec_program().items,
                program_defined(resolved.spec_definitions(), resolved.spec_program()),
                reading == old(self).reading(*resolved),
                reachable_budget(items@, items@.len() as int) < u32::MAX,
                table.well_formed(),
                table.made() <= reachable_budget(items@, i as int),
                spec_declare_reachable(reading, resolved.spec_definitions(), old(self)@, items@, 0, i as int) matches Ok(
                    (after, counted),
                ) && self@ == after && table.made() == counted && self.reading(*resolved) == reading,
            decreases items.len() - i,
        {
            proof {
                lemma_reachable_budget(items@, i as int, items@.len() as int);
                assert(item_defined(resolved.spec_definitions(), items@[i as int]));
            }
            let checked = match &items[i] {
                Item::Type(declaration) => self.declare_type(resolved, declaration),
                Item::Function(function) => self.declare_function(resolved, function, &mut table),
                Item::Instance(declaration) => self.note_instance(resolved, declaration),
                Item::Derive(declaration) => self.declare_derive(resolved, declaration),
                Item::Import(_) | Item::Trait(_) => Ok(()),
            };
            if let Err(error) = checked {
                proof {
                    lemma_declare_reachable_from(
                        reading,
                        resolved.spec_definitions(),
                        old(self)@,
                        items@,
                        i + 1,
                        items@.len() as int,
                    );
                }
                return Err(error);
            }
            i = i + 1;
        }
        Ok(())
    }

    /// The stand-in the method defined at `key` is written over, when it is a trait's method.
    ///
    /// Only a trait's method has one, so this is also what says a name is one of them.
    pub fn of_a_trait(&self, key: &Key) -> (found: Option<&Quantified>)
        ensures
            match found {
                Some(parameter) => self@.methods.contains_key(key@) && stand_in(*parameter)
                    == self@.methods[key@],
                None => !self@.methods.contains_key(key@),
            },
    {
        self.methods.get(key)
    }

    /// The whole numbers the type called `for_type` holds, when it takes a literal at all.
    pub fn holds(&self, for_type: &String) -> (found: Option<Bounds>)
        ensures
            match found {
                Some(bounds) => self@.holds.contains_key(for_type@) && bounds == self@.holds[for_type@],
                None => !self@.holds.contains_key(for_type@),
            },
    {
        match self.holds.get(for_type) {
            Some(bounds) => Some(*bounds),
            None => None,
        }
    }

    /// Whether the trait called `of` has an instance for the type called `for_type`.
    pub fn has_instance(&self, of: &String, for_type: &String) -> (has: bool)
        ensures
            has == self@.instances.contains((of@, for_type@)),
    {
        self.instances.holds(&(of.clone(), for_type.clone()))
    }

    /// What the instance method defined at `key` must be, when `key` is one of them.
    pub fn written_as(&self, key: &Key) -> (found: Option<&Type>)
        ensures
            match found {
                Some(written) => self@.written_as.contains_key(key@) && written@ == self@.written_as[key@],
                None => !self@.written_as.contains_key(key@),
            },
    {
        self.written_as.get(key)
    }

    /// The type of the name defined at `key`, when that name has one.
    pub fn scheme(&self, key: &Key) -> (found: Option<&Scheme>)
        ensures
            match found {
                Some(scheme) => self@.values.contains_key(key@) && scheme_view(*scheme) == self@.values[key@],
                None => !self@.values.contains_key(key@),
            },
    {
        self.values.get(key)
    }

    /// The labels the constructor defined at `key` takes, in the order it takes them.
    pub fn labels(&self, key: &Key) -> (labels: Vec<String>)
        ensures
            texts(labels@) == if self@.labels.contains_key(key@) {
                self@.labels[key@]
            } else {
                Seq::empty()
            },
    {
        match self.labels.get(key) {
            Some(labels) => copied_strings(labels),
            None => {
                let none: Vec<String> = Vec::new();
                assert(texts(none@) =~= Seq::<Seq<char>>::empty());
                none
            },
        }
    }

    /// The type the declaration called `name` declares, written over its own parameters.
    pub fn declared_as(&self, name: &String) -> (found: Option<&Scheme>)
        ensures
            match found {
                Some(scheme) => self@.declared.contains_key(name@) && scheme_view(*scheme) == self@.declared[name@],
                None => !self@.declared.contains_key(name@),
            },
    {
        self.declared.get(name)
    }

    /// The constructor of the record type called `name`, when `name` is a record type.
    pub fn record(&self, name: &String) -> (found: Option<&Key>)
        ensures
            match found {
                Some(key) => self@.records.contains_key(name@) && key@ == self@.records[name@],
                None => !self@.records.contains_key(name@),
            },
    {
        self.records.get(name)
    }

    /// An `extern`'s type as its signature reads, every part of it written out.
    ///
    /// There is no body below it for inference to read anything off, so every parameter states
    /// its type and so does the result. What each of them may be is the boundary's own rule.
    ///
    /// The boundary's rule is the one `boundary` states: which types cross, and which Java types
    /// they cross as. A narrowing rule, one that would refuse an `extern` whose Java side is
    /// narrower than its Lumen side, is not part of it, so no `extern` is refused for narrowing
    /// here, and the library's errors hold no kind that would report one.
    pub fn declare_extern(&mut self, resolved: &ResolvedProgram, declaration: &ExternDeclaration) -> (declared:
        Result<(), TypeError>)
        requires
            forall|j: int|
                0 <= j < declaration.parameters@.len() ==> ((#[trigger] declaration.parameters@[j]).type_ref matches Some(
                    written,
                ) ==> types_defined(resolved.spec_definitions(), written)),
            types_defined(resolved.spec_definitions(), declaration.result),
        ensures
            match spec_declare_extern(old(self).reading(*resolved), old(self)@, *declaration) {
                Ok(after) => declared is Ok && final(self)@ == after,
                Err(refusal) => declared matches Err(error) && refused_for(error, refusal),
            },
    {
        let ghost reading = self.reading(*resolved);
        let ghost parameters = declaration.parameters@;
        let mut taken: Vec<Type> = Vec::new();
        let mut i: usize = 0;
        while i < declaration.parameters.len()
            invariant
                i <= parameters.len(),
                parameters == declaration.parameters@,
                reading == self.reading(*resolved),
                forall|j: int|
                    0 <= j < parameters.len() ==> ((#[trigger] parameters[j]).type_ref matches Some(written)
                        ==> types_defined(resolved.spec_definitions(), written)),
                spec_read_extern_parameters(reading, self@.foreign, parameters, i as int) matches Ok(views)
                    && views_of(taken@) == views,
            decreases parameters.len() - i,
        {
            proof {
                lemma_views_of(taken@);
            }
            let parameter = &declaration.parameters[i];
            let written = match &parameter.type_ref {
                Some(written) => written,
                None => {
                    proof {
                        lemma_read_extern_stops(reading, self@.foreign, parameters, i as int);
                    }
                    let kind = TypeErrorKind::SignatureWithoutType(parameter.name.text.clone());
                    return Err(TypeError::at(parameter.name.span, kind));
                },
            };
            assert(parameters[i as int].type_ref == Some(*written));
            let held = match self.written(resolved, written) {
                Ok(held) => held,
                Err(error) => {
                    proof {
                        lemma_read_extern_stops(reading, self@.foreign, parameters, i as int);
                    }
                    return Err(error);
                },
            };
            if let Err(error) = crosses(&held, Crossing::Taken, &self.foreign, written.span) {
                proof {
                    lemma_read_extern_stops(reading, self@.foreign, parameters, i as int);
                }
                return Err(error);
            }
            taken.push(held);
            proof {
                lemma_views_of(taken@);
                assert(views_of(taken@) =~= views_of(taken@.drop_last()).push(taken@.last()@)) by {
                    lemma_views_of(taken@.drop_last());
                }
            }
            i = i + 1;
        }
        proof {
            lemma_views_of(taken@);
        }
        let result = match self.written(resolved, &declaration.result) {
            Ok(result) => result,
            Err(error) => return Err(error),
        };
        let given_back = declaration.result.span;
        if let Err(error) = crosses(&result, Crossing::of(&declaration.reaches), &self.foreign, given_back) {
            return Err(error);
        }
        if let Err(error) = reaches_a_class(declaration, &taken, &result, &self.foreign) {
            return Err(error);
        }
        if let Err(error) = builds_a_class(declaration, &result, &self.foreign) {
            return Err(error);
        }
        if let Err(error) = widens(declaration, &result) {
            return Err(error);
        }
        if let Err(error) = stated_by(declaration) {
            return Err(error);
        }
        let signature = Type::function(taken, result);
        let scheme = Scheme::monomorphic(signature);
        proof {
            assert(stand_ins(scheme.quantified@) =~= Seq::<TypeView>::empty());
            assert(required_view(scheme.required@) =~= Seq::<(Seq<char>, TypeView)>::empty());
        }
        let key = self.declared_at(&declaration.name);
        self.bind(key, scheme);
        Ok(())
    }

    /// A type another module declares, reached through the name that module is imported by.
    fn reached(&self, module: &Name, path: &Path, arguments: Vec<Type>) -> (read: Result<
        Type,
        TypeError,
    >)
        ensures
            ({
                let through = spec_through(*module, *path);
                let at = spec_through_span(*module, *path);
                if !self@.arities.contains_key(KeyView::Reached(through)) {
                    read matches Err(error) && refused_as(
                        error,
                        Misread::NotInModule { module: module.text@, name: path.name.text@, at },
                    )
                } else if self@.arities[KeyView::Reached(through)] != arguments@.len() {
                    read matches Err(error) && refused_as(
                        error,
                        Misread::Count {
                            name: through,
                            takes: self@.arities[KeyView::Reached(through)] as nat,
                            given: arguments@.len(),
                            at,
                        },
                    )
                } else {
                    read matches Ok(found) && found@ == TypeView::Named(through, views_of(arguments@))
                }
            }),
    {
        let mut through = module.text.clone();
        through.append(".");
        through.append(path.name.text.as_str());
        let at = Span { start: module.span.start, end: path.name.span.end };
        let written = Name { text: through, span: at };
        let key = Key::reached(written.text.as_str());
        let takes = match self.arities.get(&key) {
            Some(takes) => *takes,
            None => {
                let kind = TypeErrorKind::NotInModule {
                    module: module.text.clone(),
                    name: path.name.text.clone(),
                };
                return Err(TypeError::at(at, kind));
            },
        };
        if let Err(error) = Self::counted(&written, takes, arguments.len()) {
            return Err(error);
        }
        Ok(Type::Named { name: written.text, arguments })
    }

    /// Each of `written` as a type, in order, or the first that could not be read.
    fn each(&self, resolved: &ResolvedProgram, written: &Vec<TypeRef>) -> (read: Result<
        Vec<Type>,
        TypeError,
    >)
        requires
            each_defined(resolved.spec_definitions(), written@, written@.len() as int),
        ensures
            match spec_read_each(self.reading(*resolved), written@, written@.len() as int) {
                Ok(views) => read matches Ok(found) && views_of(found@) == views,
                Err(misread) => read matches Err(error) && refused_as(error, misread),
            },
        decreases written, 0int,
    {
        let mut read: Vec<Type> = Vec::new();
        let mut i: usize = 0;
        while i < written.len()
            invariant
                i <= written@.len(),
                each_defined(resolved.spec_definitions(), written@, written@.len() as int),
                spec_read_each(self.reading(*resolved), written@, i as int) matches Ok(views)
                    && views_of(read@) == views,
            decreases written.len() - i,
        {
            proof {
                lemma_each_defined(resolved.spec_definitions(), written@, written@.len() as int, i as int);
                lemma_views_of(read@);
            }
            let one = match self.written(resolved, &written[i]) {
                Ok(one) => one,
                Err(error) => {
                    proof {
                        lemma_read_each_stops(self.reading(*resolved), written@, i as int);
                    }
                    return Err(error);
                },
            };
            read.push(one);
            proof {
                lemma_views_of(read@);
                assert(views_of(read@) =~= views_of(read@.drop_last()).push(one@)) by {
                    lemma_views_of(read@.drop_last());
                }
            }
            i = i + 1;
        }
        Ok(read)
    }
}

/// Once one of `written` cannot be read, none of the rest is, and the whole is refused for it.
pub proof fn lemma_read_each_stops(reading: Reading, written: Seq<TypeRef>, k: int)
    requires
        0 <= k < written.len(),
        spec_read_each(reading, written, k) is Ok,
        spec_read(reading, written[k]) is Err,
    ensures
        spec_read_each(reading, written, written.len() as int) matches Err(misread) && Err::<
            TypeView,
            Misread,
        >(misread) == spec_read(reading, written[k]),
    decreases written.len() - k,
{
    lemma_read_each_from(reading, written, k + 1, written.len() as int);
}

/// A refusal among the first `from` is the refusal of every longer prefix.
proof fn lemma_read_each_from(reading: Reading, written: Seq<TypeRef>, from: int, n: int)
    requires
        1 <= from <= n <= written.len(),
        spec_read_each(reading, written, from - 1) is Ok,
        spec_read(reading, written[from - 1]) is Err,
    ensures
        spec_read_each(reading, written, n) matches Err(misread) && Err::<TypeView, Misread>(
            misread,
        ) == spec_read(reading, written[from - 1]),
    decreases n - from,
{
    if n > from {
        lemma_read_each_from(reading, written, from, n - 1);
    }
}

/// Once one variant cannot be read, the whole declaration is refused for it.
pub proof fn lemma_read_variants_stops(reading: Reading, variants: Seq<Variant>, k: int)
    requires
        0 <= k < variants.len(),
        spec_read_variants(reading, variants, k) is Ok,
        spec_read_each(
            reading,
            payload_types(variants[k].payload),
            payload_types(variants[k].payload).len() as int,
        ) is Err,
    ensures
        spec_read_variants(reading, variants, variants.len() as int) matches Err(misread)
            && Err::<Seq<TypeView>, Misread>(misread) == spec_read_each(
            reading,
            payload_types(variants[k].payload),
            payload_types(variants[k].payload).len() as int,
        ),
    decreases variants.len() - k,
{
    lemma_read_variants_from(reading, variants, k + 1, variants.len() as int);
}

proof fn lemma_read_variants_from(reading: Reading, variants: Seq<Variant>, from: int, n: int)
    requires
        1 <= from <= n <= variants.len(),
        spec_read_variants(reading, variants, from - 1) is Ok,
        spec_read_each(
            reading,
            payload_types(variants[from - 1].payload),
            payload_types(variants[from - 1].payload).len() as int,
        ) is Err,
    ensures
        spec_read_variants(reading, variants, n) matches Err(misread) && Err::<Seq<TypeView>, Misread>(
            misread,
        ) == spec_read_each(
            reading,
            payload_types(variants[from - 1].payload),
            payload_types(variants[from - 1].payload).len() as int,
        ),
    decreases n - from,
{
    if n > from {
        lemma_read_variants_from(reading, variants, from, n - 1);
    }
}

/// What the first `n` variants carry is one sequence for each of them.
pub proof fn lemma_read_variants_len(reading: Reading, variants: Seq<Variant>, n: int)
    requires
        0 <= n <= variants.len(),
    ensures
        spec_read_variants(reading, variants, n) matches Ok(carried) ==> carried.len() == n,
    decreases n,
{
    if n > 0 {
        lemma_read_variants_len(reading, variants, n - 1);
    }
}

/// Filing the first `n` variants reads only what the first `n` carry.
pub proof fn lemma_values_with_variants_prefix(
    values: Map<KeyView, SchemeView>,
    keyed: Keyed,
    variants: Seq<Variant>,
    carried: Seq<Seq<TypeView>>,
    longer: Seq<Seq<TypeView>>,
    over: Seq<TypeView>,
    declared: TypeView,
    n: int,
)
    requires
        0 <= n,
        n <= carried.len(),
        carried.len() <= longer.len(),
        forall|k: int| 0 <= k < carried.len() ==> longer[k] == carried[k],
    ensures
        values_with_variants(values, keyed, variants, carried, over, declared, n)
            == values_with_variants(values, keyed, variants, longer, over, declared, n),
    decreases n,
{
    if n > 0 {
        lemma_values_with_variants_prefix(values, keyed, variants, carried, longer, over, declared, n - 1);
    }
}

/// Once one parameter cannot be read, the whole signature is refused for it.
pub proof fn lemma_read_parameters_stops(reading: Reading, parameters: Seq<Parameter>, k: int, made: nat)
    requires
        0 <= k < parameters.len(),
        spec_read_parameters(reading, parameters, k, made) is Ok,
        parameters[k].type_ref matches Some(written) && spec_read(reading, written) is Err,
    ensures
        spec_read_parameters(reading, parameters, parameters.len() as int, made) matches Err(misread)
            && Err::<TypeView, Misread>(misread) == spec_read(reading, parameters[k].type_ref->Some_0),
    decreases parameters.len() - k,
{
    lemma_read_parameters_from(reading, parameters, k + 1, parameters.len() as int, made);
}

proof fn lemma_read_parameters_from(reading: Reading, parameters: Seq<Parameter>, from: int, n: int, made: nat)
    requires
        1 <= from <= n <= parameters.len(),
        spec_read_parameters(reading, parameters, from - 1, made) is Ok,
        parameters[from - 1].type_ref matches Some(written) && spec_read(reading, written) is Err,
    ensures
        spec_read_parameters(reading, parameters, n, made) matches Err(misread) && Err::<
            TypeView,
            Misread,
        >(misread) == spec_read(reading, parameters[from - 1].type_ref->Some_0),
    decreases n - from,
{
    if n > from {
        lemma_read_parameters_from(reading, parameters, from, n - 1, made);
    }
}

/// Once one constraint cannot be read, the whole function is refused for it.
pub proof fn lemma_read_constraints_stops(reading: Reading, parameters: Seq<WrittenParameter>, k: int)
    requires
        0 <= k < parameters.len(),
        spec_read_constraints(reading, parameters, k) is Ok,
        parameters[k].constraint matches Some(constraint) && spec_read(reading, constraint.argument) is Err,
    ensures
        spec_read_constraints(reading, parameters, parameters.len() as int) matches Err(misread)
            && Err::<TypeView, Misread>(misread) == spec_read(
            reading,
            parameters[k].constraint->Some_0.argument,
        ),
    decreases parameters.len() - k,
{
    lemma_read_constraints_from(reading, parameters, k + 1, parameters.len() as int);
}

proof fn lemma_read_constraints_from(reading: Reading, parameters: Seq<WrittenParameter>, from: int, n: int)
    requires
        1 <= from <= n <= parameters.len(),
        spec_read_constraints(reading, parameters, from - 1) is Ok,
        parameters[from - 1].constraint matches Some(constraint) && spec_read(reading, constraint.argument)
            is Err,
    ensures
        spec_read_constraints(reading, parameters, n) matches Err(misread) && Err::<TypeView, Misread>(
            misread,
        ) == spec_read(reading, parameters[from - 1].constraint->Some_0.argument),
    decreases n - from,
{
    if n > from {
        lemma_read_constraints_from(reading, parameters, from, n - 1);
    }
}

/// Once one parameter of a signature states no type or cannot be read, the signature is
/// refused for it.
pub proof fn lemma_read_signature_stops(reading: Reading, parameters: Seq<Parameter>, k: int)
    requires
        0 <= k < parameters.len(),
        spec_read_signature_parameters(reading, parameters, k) is Ok,
    ensures
        ({
            let step = match parameters[k].type_ref {
                None => Err::<TypeView, Misread>(
                    Misread::Untyped { name: parameters[k].name.text@, at: parameters[k].name.span },
                ),
                Some(written) => spec_read(reading, written),
            };
            step is Err ==> (spec_read_signature_parameters(reading, parameters, parameters.len() as int)
                matches Err(misread) && Err::<TypeView, Misread>(misread) == step)
        }),
    decreases parameters.len() - k,
{
    let step = match parameters[k].type_ref {
        None => Err::<TypeView, Misread>(
            Misread::Untyped { name: parameters[k].name.text@, at: parameters[k].name.span },
        ),
        Some(written) => spec_read(reading, written),
    };
    if step is Err {
        lemma_read_signature_from(reading, parameters, k + 1, parameters.len() as int, step);
    }
}

proof fn lemma_read_signature_from(
    reading: Reading,
    parameters: Seq<Parameter>,
    from: int,
    n: int,
    step: Result<TypeView, Misread>,
)
    requires
        1 <= from <= n <= parameters.len(),
        spec_read_signature_parameters(reading, parameters, from - 1) is Ok,
        step is Err,
        step == match parameters[from - 1].type_ref {
            None => Err::<TypeView, Misread>(
                Misread::Untyped {
                    name: parameters[from - 1].name.text@,
                    at: parameters[from - 1].name.span,
                },
            ),
            Some(written) => spec_read(reading, written),
        },
    ensures
        spec_read_signature_parameters(reading, parameters, n) matches Err(misread) && Err::<
            TypeView,
            Misread,
        >(misread) == step,
    decreases n - from,
{
    if n > from {
        lemma_read_signature_from(reading, parameters, from, n - 1, step);
    }
}

/// Once one method of a trait cannot be read, the trait is refused for it.
pub proof fn lemma_read_methods_stops(reading: Reading, methods: Seq<Signature>, k: int)
    requires
        0 <= k < methods.len(),
        spec_read_methods(reading, methods, k) is Ok,
        spec_signature(reading, methods[k]) is Err,
    ensures
        spec_read_methods(reading, methods, methods.len() as int) matches Err(misread) && Err::<
            TypeView,
            Misread,
        >(misread) == spec_signature(reading, methods[k]),
    decreases methods.len() - k,
{
    lemma_read_methods_from(reading, methods, k + 1, methods.len() as int);
}

proof fn lemma_read_methods_from(reading: Reading, methods: Seq<Signature>, from: int, n: int)
    requires
        1 <= from <= n <= methods.len(),
        spec_read_methods(reading, methods, from - 1) is Ok,
        spec_signature(reading, methods[from - 1]) is Err,
    ensures
        spec_read_methods(reading, methods, n) matches Err(misread) && Err::<TypeView, Misread>(misread)
            == spec_signature(reading, methods[from - 1]),
    decreases n - from,
{
    if n > from {
        lemma_read_methods_from(reading, methods, from, n - 1);
    }
}

/// What the first `n` methods of a trait read to is one type for each of them.
pub proof fn lemma_read_methods_len(reading: Reading, methods: Seq<Signature>, n: int)
    requires
        0 <= n <= methods.len(),
    ensures
        spec_read_methods(reading, methods, n) matches Ok(read) ==> read.len() == n,
    decreases n,
{
    if n > 0 {
        lemma_read_methods_len(reading, methods, n - 1);
    }
}

/// Filing the first `n` methods reads only the first `n` signatures.
pub proof fn lemma_values_with_methods_prefix(
    values: Map<KeyView, SchemeView>,
    keyed: Keyed,
    methods: Seq<Signature>,
    signatures: Seq<TypeView>,
    longer: Seq<TypeView>,
    parameter: TypeView,
    trait_name: Seq<char>,
    n: int,
)
    requires
        0 <= n <= signatures.len() <= longer.len(),
        forall|k: int| 0 <= k < signatures.len() ==> longer[k] == signatures[k],
    ensures
        values_with_methods(values, keyed, methods, signatures, parameter, trait_name, n)
            == values_with_methods(values, keyed, methods, longer, parameter, trait_name, n),
    decreases n,
{
    if n > 0 {
        lemma_values_with_methods_prefix(values, keyed, methods, signatures, longer, parameter, trait_name, n - 1);
    }
}

/// The budget of a prefix of the methods is no more than that of a longer one.
pub proof fn lemma_methods_budget(methods: Seq<Function>, n: int, m: int)
    requires
        0 <= n < m <= methods.len(),
    ensures
        methods_budget(methods, n) + methods[n].parameters@.len() + 1 <= methods_budget(methods, m),
    decreases m - n,
{
    if m > n + 1 {
        lemma_methods_budget(methods, n, m - 1);
    }
}

/// Once one method of an instance cannot be declared, the instance is refused for it.
pub proof fn lemma_declare_methods_stops(
    reading: Reading,
    environment: EnvironmentView,
    methods: Seq<Function>,
    of: Seq<char>,
    given: TypeView,
    made: nat,
    k: int,
)
    requires
        0 <= k < methods.len(),
        spec_declare_methods(reading, environment, methods, of, given, made, k) matches Ok((_, counted))
            && spec_declared_function(reading, methods[k], counted) is Err,
    ensures
        spec_declare_methods(reading, environment, methods, of, given, made, methods.len() as int) matches Err(
            misread,
        ) && Err::<SchemeView, Misread>(misread) == spec_declared_function(
            reading,
            methods[k],
            spec_declare_methods(reading, environment, methods, of, given, made, k)->Ok_0.1,
        ),
    decreases methods.len() - k,
{
    lemma_declare_methods_from(reading, environment, methods, of, given, made, k + 1, methods.len() as int);
}

proof fn lemma_declare_methods_from(
    reading: Reading,
    environment: EnvironmentView,
    methods: Seq<Function>,
    of: Seq<char>,
    given: TypeView,
    made: nat,
    from: int,
    n: int,
)
    requires
        1 <= from <= n <= methods.len(),
        spec_declare_methods(reading, environment, methods, of, given, made, from - 1) matches Ok((_, counted))
            && spec_declared_function(reading, methods[from - 1], counted) is Err,
    ensures
        spec_declare_methods(reading, environment, methods, of, given, made, n) matches Err(misread)
            && Err::<SchemeView, Misread>(misread) == spec_declared_function(
            reading,
            methods[from - 1],
            spec_declare_methods(reading, environment, methods, of, given, made, from - 1)->Ok_0.1,
        ),
    decreases n - from,
{
    if n > from {
        lemma_declare_methods_from(reading, environment, methods, of, given, made, from, n - 1);
    }
}

/// Once one trait cannot be declared, the module is refused for it.
pub proof fn lemma_declare_traits_stops(reading: Reading, environment: EnvironmentView, items: Seq<Item>, k: int)
    requires
        0 <= k < items.len(),
        spec_declare_traits(reading, environment, items, k) matches Ok(before) && items[k] matches Item::Trait(
            declaration,
        ) && spec_declare_trait(reading, before, declaration) is Err,
    ensures
        spec_declare_traits(reading, environment, items, items.len() as int) is Err,
        spec_declare_traits(reading, environment, items, items.len() as int)
            == spec_declare_traits(reading, environment, items, k + 1),
    decreases items.len() - k,
{
    lemma_declare_traits_from(reading, environment, items, k + 1, items.len() as int);
}

proof fn lemma_declare_traits_from(reading: Reading, environment: EnvironmentView, items: Seq<Item>, from: int, n: int)
    requires
        1 <= from <= n <= items.len(),
        spec_declare_traits(reading, environment, items, from) is Err,
    ensures
        spec_declare_traits(reading, environment, items, n) == spec_declare_traits(reading, environment, items, from),
    decreases n - from,
{
    if n > from {
        lemma_declare_traits_from(reading, environment, items, from, n - 1);
    }
}

/// Once one item cannot be declared, the module is refused for it.
pub proof fn lemma_declare_items_stops(
    reading: Reading,
    definitions: Map<(Namespace, Span), Definition>,
    environment: EnvironmentView,
    items: Seq<Item>,
    made: nat,
    k: int,
)
    requires
        0 <= k < items.len(),
        spec_declare_items(reading, definitions, environment, items, made, k) matches Ok((before, counted))
            && spec_declare_item(reading, definitions, before, items[k], counted) is Err,
    ensures
        spec_declare_items(reading, definitions, environment, items, made, items.len() as int)
            == spec_declare_items(reading, definitions, environment, items, made, k + 1),
    decreases items.len() - k,
{
    lemma_declare_items_from(reading, definitions, environment, items, made, k + 1, items.len() as int);
}

proof fn lemma_declare_items_from(
    reading: Reading,
    definitions: Map<(Namespace, Span), Definition>,
    environment: EnvironmentView,
    items: Seq<Item>,
    made: nat,
    from: int,
    n: int,
)
    requires
        1 <= from <= n <= items.len(),
        spec_declare_items(reading, definitions, environment, items, made, from) is Err,
    ensures
        spec_declare_items(reading, definitions, environment, items, made, n)
            == spec_declare_items(reading, definitions, environment, items, made, from),
    decreases n - from,
{
    if n > from {
        lemma_declare_items_from(reading, definitions, environment, items, made, from, n - 1);
    }
}

/// The budget of a prefix of the items is no more than that of a longer one.
pub proof fn lemma_items_budget(items: Seq<Item>, n: int, m: int)
    requires
        0 <= n < m <= items.len(),
    ensures
        items_budget(items, n) + item_budget(items[n]) <= items_budget(items, m),
    decreases m - n,
{
    if m > n + 1 {
        lemma_items_budget(items, n, m - 1);
    }
}

/// Declaring an item leaves how names are filed and how many arguments each type takes as
/// they were.
pub proof fn lemma_declare_item_keeps(
    reading: Reading,
    definitions: Map<(Namespace, Span), Definition>,
    environment: EnvironmentView,
    item: Item,
    made: nat,
)
    ensures
        spec_declare_item(reading, definitions, environment, item, made) matches Ok((after, _)) ==> after.keyed
            == environment.keyed && after.arities == environment.arities,
{
    reveal(spec_declare_item);
    if let Item::Instance(declaration) = item {
        if let Ok(noted) = spec_note_instance(definitions, environment, declaration) {
            lemma_declare_methods_keeps(
                reading,
                noted,
                declaration.methods@,
                declaration.trait_name.text@,
                plain(declaration.for_type.text@),
                made,
                declaration.methods@.len() as int,
            );
        }
    }
}

/// Declaring an instance's methods leaves how names are filed and how many arguments each type
/// takes as they were.
pub proof fn lemma_declare_methods_keeps(
    reading: Reading,
    environment: EnvironmentView,
    methods: Seq<Function>,
    of: Seq<char>,
    given: TypeView,
    made: nat,
    n: int,
)
    ensures
        spec_declare_methods(reading, environment, methods, of, given, made, n) matches Ok((after, _))
            ==> after.keyed == environment.keyed && after.arities == environment.arities,
    decreases n,
{
    if n > 0 {
        lemma_declare_methods_keeps(reading, environment, methods, of, given, made, n - 1);
    }
}

/// What reading a written type depends on, in an environment whose view is `environment`.
pub open spec fn environment_reading(
    environment: EnvironmentView,
    definitions: Map<(Namespace, Span), Definition>,
) -> Reading {
    Reading { keyed: environment.keyed, arities: environment.arities, definitions }
}

/// Declaring traits leaves how names are filed and how many arguments each type takes as they
/// were.
pub proof fn lemma_declare_traits_keeps(reading: Reading, environment: EnvironmentView, items: Seq<Item>, n: int)
    ensures
        spec_declare_traits(reading, environment, items, n) matches Ok(after) ==> after.keyed
            == environment.keyed && after.arities == environment.arities,
    decreases n,
{
    if n > 0 {
        lemma_declare_traits_keeps(reading, environment, items, n - 1);
    }
}

/// The budget of a prefix of the prelude's items is no more than that of a longer one.
pub proof fn lemma_reachable_budget(items: Seq<Item>, n: int, m: int)
    requires
        0 <= n < m <= items.len(),
    ensures
        reachable_budget(items, n) + match items[n] {
            Item::Function(function) => function.parameters@.len() + 1,
            _ => 0nat,
        } <= reachable_budget(items, m),
    decreases m - n,
{
    if m > n + 1 {
        lemma_reachable_budget(items, n, m - 1);
    }
}

proof fn lemma_declare_reachable_from(
    reading: Reading,
    definitions: Map<(Namespace, Span), Definition>,
    environment: EnvironmentView,
    items: Seq<Item>,
    from: int,
    n: int,
)
    requires
        1 <= from <= n <= items.len(),
        spec_declare_reachable(reading, definitions, environment, items, 0, from) is Err,
    ensures
        spec_declare_reachable(reading, definitions, environment, items, 0, n)
            == spec_declare_reachable(reading, definitions, environment, items, 0, from),
    decreases n - from,
{
    if n > from {
        lemma_declare_reachable_from(reading, definitions, environment, items, from, n - 1);
    }
}

/// `todo(reason)`: a hole, which is whatever type the place it is written in expects.
///
/// It gives back a type nothing constrains, so a hole unifies with whatever belongs where it is
/// written.
pub fn todo() -> (scheme: Scheme)
    ensures
        scheme_view(scheme) == todo_scheme(),
{
    let mut taken: Vec<Type> = Vec::new();
    taken.push(Type::string());
    let mut over: Vec<Quantified> = Vec::new();
    over.push(Quantified::Parameter(TypeParameter::prelude("T")));
    let scheme = Scheme::over(over, Type::function(taken, Type::Parameter(TypeParameter::prelude("T"))));
    proof {
        reveal_strlit("T");
        lemma_views_of(taken@);
        assert(views_of(taken@) =~= seq![plain(STRING@)]);
        assert(stand_ins(scheme.quantified@) =~= todo_scheme().quantified);
        assert(required_view(scheme.required@) =~= Seq::<(Seq<char>, TypeView)>::empty());
    }
    scheme
}

/// Once one parameter of an `extern` is refused, the declaration is refused for it.
pub proof fn lemma_read_extern_stops(
    reading: Reading,
    foreign: Seq<(Seq<char>, Called)>,
    parameters: Seq<Parameter>,
    k: int,
)
    requires
        0 <= k < parameters.len(),
        spec_read_extern_parameters(reading, foreign, parameters, k) is Ok,
    ensures
        spec_read_extern_parameters(reading, foreign, parameters, k + 1) is Err ==> spec_read_extern_parameters(
            reading,
            foreign,
            parameters,
            parameters.len() as int,
        ) == spec_read_extern_parameters(reading, foreign, parameters, k + 1),
    decreases parameters.len() - k,
{
    if spec_read_extern_parameters(reading, foreign, parameters, k + 1) is Err {
        lemma_read_extern_from(reading, foreign, parameters, k + 1, parameters.len() as int);
    }
}

proof fn lemma_read_extern_from(
    reading: Reading,
    foreign: Seq<(Seq<char>, Called)>,
    parameters: Seq<Parameter>,
    from: int,
    n: int,
)
    requires
        1 <= from <= n <= parameters.len(),
        spec_read_extern_parameters(reading, foreign, parameters, from) is Err,
    ensures
        spec_read_extern_parameters(reading, foreign, parameters, n) == spec_read_extern_parameters(
            reading,
            foreign,
            parameters,
            from,
        ),
    decreases n - from,
{
    if n > from {
        lemma_read_extern_from(reading, foreign, parameters, from, n - 1);
    }
}

/// A copy of the stand-ins `over` lists.
pub fn copied_over(over: &Vec<Quantified>) -> (copy: Vec<Quantified>)
    ensures
        stand_ins(copy@) == stand_ins(over@),
{
    let mut copy: Vec<Quantified> = Vec::new();
    let mut i: usize = 0;
    while i < over.len()
        invariant
            i <= over@.len(),
            copy@.len() == i,
            forall|j: int| 0 <= j < i ==> stand_in(#[trigger] copy@[j]) == stand_in(over@[j]),
        decreases over.len() - i,
    {
        copy.push(over[i].copied());
        i = i + 1;
    }
    assert(stand_ins(copy@) =~= stand_ins(over@));
    copy
}

/// The type `declaration` declares, over its own parameters.
pub fn written_declared(declaration: &TypeDeclaration) -> (declared: Type)
    ensures
        declared@ == declared_type(*declaration),
{
    let mut arguments: Vec<Type> = Vec::new();
    let mut i: usize = 0;
    while i < declaration.parameters.len()
        invariant
            i <= declaration.parameters@.len(),
            arguments@.len() == i,
            forall|j: int| 0 <= j < i ==> (#[trigger] arguments@[j])@ == written_stand_in(
                declaration.parameters@[j],
            ),
        decreases declaration.parameters.len() - i,
    {
        arguments.push(Type::Parameter(TypeParameter::written(&declaration.parameters[i])));
        i = i + 1;
    }
    proof {
        lemma_views_of(arguments@);
        assert(views_of(arguments@) =~= declared_over(*declaration));
    }
    Type::Named { name: declaration.name.text.clone(), arguments }
}

} // verus!
