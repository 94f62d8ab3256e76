//! What a type has to hold before a derive writes anything for it.
//!
//! A derived instance reads field by field, by the instance of each field's own type, so a field
//! whose type has none leaves the derived instance nothing to call. Nothing here infers anything:
//! it reads what a module declares.
use vstd::prelude::*;

use crate::ast::{DeriveDeclaration, Item, Name, Program, RecordField, TypeDeclaration};
use crate::ast::{TypeDefinition, TypeRef, Variant, VariantPayload};
use crate::definition::{Definition, Namespace};
use crate::ast::Span;
use crate::environment::{
    each_defined, lemma_each_defined, refused_for, spec_read, types_defined, Environment,
    EnvironmentView, Reading, Refusal,
};
use crate::reaching_java::ReachingJava;
use crate::resolve::program::ResolvedProgram;
use crate::text::{count_of, decimal, same_text};
use crate::type_error::{TypeError, TypeErrorKind};
use crate::types::{lemma_views_of, Type, TypeView};

verus! {

/// Each value a record holds: the name of its field, and the type it was written as.
pub open spec fn record_held(fields: Seq<RecordField>) -> Seq<(Seq<char>, TypeRef)> {
    fields.map_values(|field: RecordField| (field.name.text@, field.type_ref))
}

/// What one variant carries, each named for the variant and for its own place in it.
pub open spec fn variant_held(variant: Variant) -> Seq<(Seq<char>, TypeRef)> {
    let named = variant.name.text@;
    match variant.payload {
        VariantPayload::Bare => Seq::empty(),
        VariantPayload::Tuple(written) => Seq::new(
            written@.len(),
            |position: int| (named + "."@ + decimal(position as nat), written@[position]),
        ),
        VariantPayload::Record(fields) => fields@.map_values(
            |field: RecordField| (named + "."@ + field.name.text@, field.type_ref),
        ),
    }
}

/// What the first `n` variants carry, in order.
pub open spec fn variants_held(variants: Seq<Variant>, n: int) -> Seq<(Seq<char>, TypeRef)>
    decreases n,
{
    if n <= 0 {
        Seq::empty()
    } else {
        variants_held(variants, n - 1) + variant_held(variants[n - 1])
    }
}

/// Every value a type holds, in the order a derived instance reads them.
pub open spec fn spec_held(declared: TypeDeclaration) -> Seq<(Seq<char>, TypeRef)> {
    match declared.definition {
        TypeDefinition::Foreign { .. } => Seq::empty(),
        TypeDefinition::Record(fields) => record_held(fields@),
        TypeDefinition::Variants(variants) => variants_held(variants@, variants@.len() as int),
    }
}

/// Whether a value of `held` is ever handed to the trait `of`, which is whether it has one to
/// reach: a type written by name, with no arguments, that has the instance.
pub open spec fn spec_reaches_instance(environment: EnvironmentView, of: Seq<char>, held: TypeView) -> bool {
    held matches TypeView::Named(name, arguments) && arguments.len() == 0
        && environment.instances.contains((of, name))
}

/// The first of the first `n` values a deriving type holds whose type has no instance of `of`.
pub open spec fn spec_holds_checked(
    reading: Reading,
    environment: EnvironmentView,
    of: Seq<char>,
    for_type: Seq<char>,
    held: Seq<(Seq<char>, TypeRef)>,
    n: int,
) -> Option<Refusal>
    decreases n,
{
    if n <= 0 {
        None
    } else {
        match spec_holds_checked(reading, environment, of, for_type, held, n - 1) {
            Some(refusal) => Some(refusal),
            None => {
                let (held_as, written) = held[n - 1];
                match spec_read(reading, written) {
                    Err(misread) => Some(Refusal::Read(misread)),
                    Ok(found) => if spec_reaches_instance(environment, of, found) {
                        None
                    } else {
                        Some(
                            Refusal::HeldHasNoInstance {
                                deriving: for_type,
                                held: found,
                                held_as,
                                at: written.span,
                            },
                        )
                    },
                }
            },
        }
    }
}

/// The first type declaration among the first `n` items called `named`.
pub open spec fn first_type_named(items: Seq<Item>, named: Seq<char>, n: int) -> Option<TypeDeclaration>
    decreases n,
{
    if n <= 0 {
        None
    } else {
        match first_type_named(items, named, n - 1) {
            Some(found) => Some(found),
            None => match items[n - 1] {
                Item::Type(declaration) => if declaration.name.text@ == named {
                    Some(declaration)
                } else {
                    None
                },
                _ => None,
            },
        }
    }
}

/// The declaration of the type called `named`, which is the one a derive above it names.
pub open spec fn spec_declared_as(program: Program, named: Seq<char>) -> TypeDeclaration {
    first_type_named(program.items@, named, program.items@.len() as int)->Some_0
}

/// What the instance of one trait a derive writes is refused for, where it is.
pub open spec fn spec_writes_checked(
    reading: Reading,
    environment: EnvironmentView,
    declared: TypeDeclaration,
    of: Name,
    for_type: Name,
) -> Option<Refusal> {
    if declared.definition is Foreign {
        Some(Refusal::DerivesAForeignType { name: for_type.text@, at: for_type.span })
    } else {
        let held = spec_held(declared);
        spec_holds_checked(reading, environment, of.text@, for_type.text@, held, held.len() as int)
    }
}

/// The first refusal among the first `n` traits `declaration` derives.
pub open spec fn spec_derive_checked(
    reading: Reading,
    environment: EnvironmentView,
    program: Program,
    declaration: DeriveDeclaration,
    n: int,
) -> Option<Refusal>
    decreases n,
{
    if n <= 0 {
        None
    } else {
        match spec_derive_checked(reading, environment, program, declaration, n - 1) {
            Some(refusal) => Some(refusal),
            None => spec_writes_checked(
                reading,
                environment,
                spec_declared_as(program, declaration.for_type.text@),
                declaration.traits@[n - 1],
                declaration.for_type,
            ),
        }
    }
}

/// The first refusal among the derives of the first `n` items.
pub open spec fn spec_derives_checked(
    reading: Reading,
    environment: EnvironmentView,
    program: Program,
    n: int,
) -> Option<Refusal>
    decreases n,
{
    if n <= 0 {
        None
    } else {
        match spec_derives_checked(reading, environment, program, n - 1) {
            Some(refusal) => Some(refusal),
            None => match program.items@[n - 1] {
                Item::Derive(declaration) => spec_derive_checked(
                    reading,
                    environment,
                    program,
                    declaration,
                    declaration.traits@.len() as int,
                ),
                _ => None,
            },
        }
    }
}

/// Whether each derive names a type this module declares, and every type those hold names what
/// has a definition.
pub open spec fn derives_declared(definitions: Map<(Namespace, Span), Definition>, program: Program) -> bool {
    forall|i: int|
        0 <= i < program.items@.len() ==> ((#[trigger] program.items@[i]) matches Item::Derive(
            declaration,
        ) ==> first_type_named(
            program.items@,
            declaration.for_type.text@,
            program.items@.len() as int,
        ) is Some && held_defined(
            definitions,
            spec_declared_as(program, declaration.for_type.text@),
        ))
}

/// Whether every type a declaration holds names what has a definition.
pub open spec fn held_defined(definitions: Map<(Namespace, Span), Definition>, declared: TypeDeclaration) -> bool {
    forall|k: int|
        0 <= k < spec_held(declared).len() ==> types_defined(definitions, #[trigger] spec_held(declared)[k].1)
}

/// One value a derived instance compares: where it sits, and the type it was written as.
pub struct Held<'a> {
    pub held_as: String,
    pub written: &'a TypeRef,
}

/// Each value `held` lists, as the specifications read it.
pub open spec fn held_view(held: Seq<Held>) -> Seq<(Seq<char>, TypeRef)> {
    held.map_values(|one: Held| (one.held_as@, *one.written))
}

/// The view of one more value held is the view of those before it with that value's.
pub proof fn lemma_held_view_push(held: Seq<Held>, one: Held)
    ensures
        held_view(held.push(one)) == held_view(held).push((one.held_as@, *one.written)),
{
    assert(held_view(held.push(one)) =~= held_view(held).push((one.held_as@, *one.written)));
}

/// Every value a type holds, in the order a derived instance reads them.
pub fn holds<'a>(declared: &'a TypeDeclaration) -> (held: Vec<Held<'a>>)
    ensures
        held_view(held@) == spec_held(*declared),
{
    let mut held: Vec<Held<'a>> = Vec::new();
    match &declared.definition {
        TypeDefinition::Foreign { .. } => {},
        TypeDefinition::Record(fields) => {
            let mut i: usize = 0;
            while i < fields.len()
                invariant
                    i <= fields@.len(),
                    held_view(held@) == record_held(fields@).take(i as int),
                decreases fields.len() - i,
            {
                let ghost before = held@;
                let one = Held { held_as: fields[i].name.text.clone(), written: &fields[i].type_ref };
                proof {
                    lemma_held_view_push(before, one);
                    assert(record_held(fields@).take(i + 1) =~= record_held(fields@).take(i as int).push(
                        record_held(fields@)[i as int],
                    ));
                }
                held.push(one);
                i = i + 1;
            }
            assert(record_held(fields@).take(fields@.len() as int) =~= record_held(fields@));
        },
        TypeDefinition::Variants(variants) => {
            let mut i: usize = 0;
            while i < variants.len()
                invariant
                    i <= variants@.len(),
                    held_view(held@) == variants_held(variants@, i as int),
                decreases variants.len() - i,
            {
                let carried = carried_by(&variants[i]);
                let ghost before = held@;
                let mut k: usize = 0;
                while k < carried.len()
                    invariant
                        k <= carried@.len(),
                        held_view(held@) == held_view(before) + held_view(carried@).take(k as int),
                    decreases carried.len() - k,
                {
                    let ghost now = held@;
                    let one = Held { held_as: carried[k].held_as.clone(), written: carried[k].written };
                    proof {
                        lemma_held_view_push(now, one);
                        assert(held_view(carried@).take(k + 1) =~= held_view(carried@).take(k as int).push(
                            held_view(carried@)[k as int],
                        ));
                        assert(held_view(before) + held_view(carried@).take(k + 1) =~= (held_view(before)
                            + held_view(carried@).take(k as int)).push(held_view(carried@)[k as int]));
                    }
                    held.push(one);
                    k = k + 1;
                }
                assert(held_view(carried@).take(carried@.len() as int) =~= held_view(carried@));
                i = i + 1;
            }
        },
    }
    held
}

/// What one variant carries, each named for the variant and for its own place in it.
pub fn carried_by<'a>(variant: &'a Variant) -> (carried: Vec<Held<'a>>)
    ensures
        held_view(carried@) == variant_held(*variant),
{
    let named = &variant.name.text;
    let mut carried: Vec<Held<'a>> = Vec::new();
    match &variant.payload {
        VariantPayload::Bare => {
            assert(held_view(carried@) =~= variant_held(*variant));
        },
        VariantPayload::Tuple(written) => {
            let mut position: usize = 0;
            while position < written.len()
                invariant
                    position <= written@.len(),
                    *named == variant.name.text,
                    variant.payload == VariantPayload::Tuple(*written),
                    held_view(carried@) == variant_held(*variant).take(position as int),
                decreases written.len() - position,
            {
                let mut held_as = named.clone();
                held_as.append(".");
                held_as.append(count_of(position).as_str());
                let one = Held { held_as, written: &written[position] };
                let ghost now = carried@;
                proof {
                    lemma_held_view_push(now, one);
                    assert(variant_held(*variant).take(position + 1) =~= variant_held(*variant).take(
                        position as int,
                    ).push(variant_held(*variant)[position as int]));
                }
                carried.push(one);
                position = position + 1;
            }
            assert(variant_held(*variant).take(written@.len() as int) =~= variant_held(*variant));
        },
        VariantPayload::Record(fields) => {
            let mut i: usize = 0;
            while i < fields.len()
                invariant
                    i <= fields@.len(),
                    *named == variant.name.text,
                    variant.payload == VariantPayload::Record(*fields),
                    held_view(carried@) == variant_held(*variant).take(i as int),
                decreases fields.len() - i,
            {
                let mut held_as = named.clone();
                held_as.append(".");
                held_as.append(fields[i].name.text.as_str());
                let one = Held { held_as, written: &fields[i].type_ref };
                let ghost now = carried@;
                proof {
                    lemma_held_view_push(now, one);
                    assert(variant_held(*variant).take(i + 1) =~= variant_held(*variant).take(i as int).push(
                        variant_held(*variant)[i as int],
                    ));
                }
                carried.push(one);
                i = i + 1;
            }
            assert(variant_held(*variant).take(fields@.len() as int) =~= variant_held(*variant));
        },
    }
    carried
}

/// Whether a value of `held` is ever handed to the trait `of`, which is whether it has one to
/// reach: a type written by name, with no arguments, that has the instance.
pub fn has_instance(environment: &Environment, of: &String, held: &Type) -> (has: bool)
    ensures
        has == spec_reaches_instance(environment@, of@, held@),
{
    match held {
        Type::Named { name, arguments } => {
            proof {
                lemma_views_of(arguments@);
            }
            arguments.len() == 0 && environment.has_instance(of, name)
        },
        _ => false,
    }
}

/// Refuses the first value a deriving type holds whose own type has no instance of `of`.
fn held_checked(
    environment: &Environment,
    resolved: &ResolvedProgram,
    of: &Name,
    for_type: &Name,
    held: &Vec<Held>,
) -> (checked: Result<(), TypeError>)
    requires
        forall|k: int|
            0 <= k < held@.len() ==> types_defined(resolved.spec_definitions(), #[trigger] held_view(held@)[k].1),
    ensures
        match spec_holds_checked(
            environment.reading(*resolved),
            environment@,
            of.text@,
            for_type.text@,
            held_view(held@),
            held@.len() as int,
        ) {
            Some(refusal) => checked matches Err(error) && refused_for(error, refusal),
            None => checked is Ok,
        },
{
    let ghost reading = environment.reading(*resolved);
    let ghost viewed = held_view(held@);
    let mut k: usize = 0;
    while k < held.len()
        invariant
            k <= held@.len(),
            viewed == held_view(held@),
            viewed.len() == held@.len(),
            reading == environment.reading(*resolved),
            forall|j: int|
                0 <= j < held@.len() ==> types_defined(resolved.spec_definitions(), #[trigger] viewed[j].1),
            spec_holds_checked(reading, environment@, of.text@, for_type.text@, viewed, k as int) is None,
        decreases held.len() - k,
    {
        let one = &held[k];
        assert(viewed[k as int] == (one.held_as@, *one.written));
        assert(types_defined(resolved.spec_definitions(), viewed[k as int].1));
        let found = match environment.written(resolved, one.written) {
            Ok(found) => found,
            Err(error) => {
                proof {
                    lemma_holds_checked_stops(reading, environment@, of.text@, for_type.text@, viewed, k as int);
                }
                return Err(error);
            },
        };
        if !has_instance(environment, &of.text, &found) {
            proof {
                lemma_holds_checked_stops(reading, environment@, of.text@, for_type.text@, viewed, k as int);
            }
            let kind = TypeErrorKind::HeldTypeHasNoInstance {
                deriving: for_type.text.clone(),
                held: found,
                held_as: one.held_as.clone(),
            };
            return Err(TypeError::at(one.written.span, kind));
        }
        k = k + 1;
    }
    Ok(())
}

/// Refuses the instance of `of` a derive writes for `declared`, where it cannot be written.
///
/// A derive reads what a type holds, and an extern type holds what the JVM does, which an
/// `instance` written over `extern` declarations is the answer to.
fn writes_checked(
    environment: &Environment,
    resolved: &ResolvedProgram,
    declared: &TypeDeclaration,
    of: &Name,
    for_type: &Name,
) -> (checked: Result<(), TypeError>)
    requires
        held_defined(resolved.spec_definitions(), *declared),
    ensures
        match spec_writes_checked(environment.reading(*resolved), environment@, *declared, *of, *for_type) {
            Some(refusal) => checked matches Err(error) && refused_for(error, refusal),
            None => checked is Ok,
        },
{
    if let TypeDefinition::Foreign { .. } = &declared.definition {
        let kind = TypeErrorKind::Java(ReachingJava::DerivesAForeignType(for_type.text.clone()));
        return Err(TypeError::at(for_type.span, kind));
    }
    let held = holds(declared);
    held_checked(environment, resolved, of, for_type, &held)
}

/// The declaration of the type called `named`, which is the one the derive above it names.
fn declared_as<'a>(resolved: &'a ResolvedProgram, named: &String) -> (declared: &'a TypeDeclaration)
    requires
        first_type_named(resolved.spec_program().items@, named@, resolved.spec_program().items@.len() as int)
            is Some,
    ensures
        *declared == spec_declared_as(resolved.spec_program(), named@),
{
    let items = &resolved.program().items;
    let mut i: usize = 0;
    while i < items.len()
        invariant
            i <= items@.len(),
            *items == resolved.spec_program().items,
            first_type_named(items@, named@, items@.len() as int) is Some,
            first_type_named(items@, named@, i as int) is None,
        decreases items.len() - i,
    {
        if let Item::Type(declaration) = &items[i] {
            if same_text(declaration.name.text.as_str(), named.as_str()) {
                proof {
                    lemma_first_type_named_from(items@, named@, i + 1, items@.len() as int);
                }
                return declaration;
            }
        }
        i = i + 1;
    }
    vstd::pervasive::unreached()
}

/// Refuses the first instance a derive writes that cannot be written.
fn derive_checked(environment: &Environment, resolved: &ResolvedProgram, declaration: &DeriveDeclaration) -> (checked:
    Result<(), TypeError>)
    requires
        first_type_named(
            resolved.spec_program().items@,
            declaration.for_type.text@,
            resolved.spec_program().items@.len() as int,
        ) is Some,
        held_defined(
            resolved.spec_definitions(),
            spec_declared_as(resolved.spec_program(), declaration.for_type.text@),
        ),
    ensures
        match spec_derive_checked(
            environment.reading(*resolved),
            environment@,
            resolved.spec_program(),
            *declaration,
            declaration.traits@.len() as int,
        ) {
            Some(refusal) => checked matches Err(error) && refused_for(error, refusal),
            None => checked is Ok,
        },
{
    let ghost reading = environment.reading(*resolved);
    let declared = declared_as(resolved, &declaration.for_type.text);
    let mut j: usize = 0;
    while j < declaration.traits.len()
        invariant
            j <= declaration.traits@.len(),
            reading == environment.reading(*resolved),
            *declared == spec_declared_as(resolved.spec_program(), declaration.for_type.text@),
            held_defined(resolved.spec_definitions(), *declared),
            spec_derive_checked(reading, environment@, resolved.spec_program(), *declaration, j as int) is None,
        decreases declaration.traits.len() - j,
    {
        if let Err(error) = writes_checked(environment, resolved, declared, &declaration.traits[j], &declaration.for_type) {
            proof {
                lemma_derive_checked_stops(reading, environment@, resolved.spec_program(), *declaration, j as int);
            }
            return Err(error);
        }
        j = j + 1;
    }
    Ok(())
}

/// Refuses the first derive whose type holds a value of a type that has no instance of the trait.
///
/// This runs once every item has been declared, so a field whose type derives the trait further
/// down the file counts as having it and two types that hold each other derive it together.
pub fn hold_what_they_need(environment: &Environment, resolved: &ResolvedProgram) -> (checked: Result<
    (),
    TypeError,
>)
    requires
        derives_declared(resolved.spec_definitions(), resolved.spec_program()),
    ensures
        match spec_derives_checked(
            environment.reading(*resolved),
            environment@,
            resolved.spec_program(),
            resolved.spec_program().items@.len() as int,
        ) {
            Some(refusal) => checked matches Err(error) && refused_for(error, refusal),
            None => checked is Ok,
        },
{
    let ghost reading = environment.reading(*resolved);
    let items = &resolved.program().items;
    let mut i: usize = 0;
    while i < items.len()
        invariant
            i <= items@.len(),
            *items == resolved.spec_program().items,
            reading == environment.reading(*resolved),
            derives_declared(resolved.spec_definitions(), resolved.spec_program()),
            spec_derives_checked(reading, environment@, resolved.spec_program(), i as int) is None,
        decreases items.len() - i,
    {
        if let Item::Derive(declaration) = &items[i] {
            assert(resolved.spec_program().items@[i as int] == Item::Derive(*declaration));
            if let Err(error) = derive_checked(environment, resolved, declaration) {
                proof {
                    lemma_derives_checked_from(reading, environment@, resolved.spec_program(), i + 1, items@.len() as int);
                }
                return Err(error);
            }
        }
        i = i + 1;
    }
    Ok(())
}

/// Once one value a deriving type holds is refused, the derive is refused for it.
pub proof fn lemma_holds_checked_stops(
    reading: Reading,
    environment: EnvironmentView,
    of: Seq<char>,
    for_type: Seq<char>,
    held: Seq<(Seq<char>, TypeRef)>,
    k: int,
)
    requires
        0 <= k < held.len(),
        spec_holds_checked(reading, environment, of, for_type, held, k) is None,
    ensures
        spec_holds_checked(reading, environment, of, for_type, held, k + 1) is Some
            ==> spec_holds_checked(reading, environment, of, for_type, held, held.len() as int)
            == spec_holds_checked(reading, environment, of, for_type, held, k + 1),
    decreases held.len() - k,
{
    if spec_holds_checked(reading, environment, of, for_type, held, k + 1) is Some {
        lemma_holds_checked_from(reading, environment, of, for_type, held, k + 1, held.len() as int);
    }
}

proof fn lemma_holds_checked_from(
    reading: Reading,
    environment: EnvironmentView,
    of: Seq<char>,
    for_type: Seq<char>,
    held: Seq<(Seq<char>, TypeRef)>,
    from: int,
    n: int,
)
    requires
        1 <= from <= n <= held.len(),
        spec_holds_checked(reading, environment, of, for_type, held, from) is Some,
    ensures
        spec_holds_checked(reading, environment, of, for_type, held, n) == spec_holds_checked(
            reading,
            environment,
            of,
            for_type,
            held,
            from,
        ),
    decreases n - from,
{
    if n > from {
        lemma_holds_checked_from(reading, environment, of, for_type, held, from, n - 1);
    }
}

/// Once one trait a derive names is refused, the derive is refused for it.
pub proof fn lemma_derive_checked_stops(
    reading: Reading,
    environment: EnvironmentView,
    program: Program,
    declaration: DeriveDeclaration,
    k: int,
)
    requires
        0 <= k < declaration.traits@.len(),
        spec_derive_checked(reading, environment, program, declaration, k) is None,
    ensures
        spec_derive_checked(reading, environment, program, declaration, k + 1) is Some
            ==> spec_derive_checked(reading, environment, program, declaration, declaration.traits@.len() as int)
            == spec_derive_checked(reading, environment, program, declaration, k + 1),
    decreases declaration.traits@.len() - k,
{
    if spec_derive_checked(reading, environment, program, declaration, k + 1) is Some {
        lemma_derive_checked_from(reading, environment, program, declaration, k + 1, declaration.traits@.len() as int);
    }
}

proof fn lemma_derive_checked_from(
    reading: Reading,
    environment: EnvironmentView,
    program: Program,
    declaration: DeriveDeclaration,
    from: int,
    n: int,
)
    requires
        1 <= from <= n <= declaration.traits@.len(),
        spec_derive_checked(reading, environment, program, declaration, from) is Some,
    ensures
        spec_derive_checked(reading, environment, program, declaration, n)
            == spec_derive_checked(reading, environment, program, declaration, from),
    decreases n - from,
{
    if n > from {
        lemma_derive_checked_from(reading, environment, program, declaration, from, n - 1);
    }
}

proof fn lemma_derives_checked_from(
    reading: Reading,
    environment: EnvironmentView,
    program: Program,
    from: int,
    n: int,
)
    requires
        1 <= from <= n <= program.items@.len(),
        spec_derives_checked(reading, environment, program, from) is Some,
    ensures
        spec_derives_checked(reading, environment, program, n) == spec_derives_checked(
            reading,
            environment,
            program,
            from,
        ),
    decreases n - from,
{
    if n > from {
        lemma_derives_checked_from(reading, environment, program, from, n - 1);
    }
}

/// Once a type of the name is found, looking further finds that one still.
proof fn lemma_first_type_named_from(items: Seq<Item>, named: Seq<char>, from: int, n: int)
    requires
        1 <= from <= n <= items.len(),
        first_type_named(items, named, from) is Some,
    ensures
        first_type_named(items, named, n) == first_type_named(items, named, from),
    decreases n - from,
{
    if n > from {
        lemma_first_type_named_from(items, named, from, n - 1);
    }
}

} // verus!
