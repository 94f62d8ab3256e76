//! What holds across the library's functions, stated once for all inputs.
use vstd::prelude::*;

use crate::ast::{Item, Name, Program, RecordField, TraitDeclaration, TypeDeclaration, TypeDefinition};
use crate::holds::{fields_of, holds_record, is_record_ring, names_record, record_named};
use crate::settle::spec_answers;
use crate::definition::{Definition, DefinitionKind, Namespace, Origin};
use crate::resolve::model::{enter_types, enter_values, introduced, method_names, spec_declare, spec_declares, spec_introduce_values, variant_names, Step, spec_introduce_type, spec_introduce_value, spec_use_value};
use crate::scope::{layer_look_up, spec_look_up, Layer};
use crate::prelude::{declaring, first_where, lemma_first_where, lemma_first_where_bounds, method_texts, named_trait, trait_names_of};
use crate::error::{ResolveError, ResolveErrorKind};
use crate::order::{misplaced, reaches_by, is_path};
use crate::resolve::model::{resolves_as, Walk};
use crate::resolve::program::ResolvedProgram;
use crate::scheme::{lemma_replaced_among, replaced, replaced_among};
use crate::table::{followed_among, lemma_followed_among, lemma_outer, outer, solved, Table};
use crate::types::{TypeVar, TypeView};
use crate::unify::{
    arguments_unify, extends, grew, heads_clash, lemma_extends, next_bound, room, size, unchanged, unifies,
    Clash,
};

verus! {

/// Two declarations that use each other are never out of order, whichever is written first: no
/// order undoes a cycle.
pub proof fn law_mutual_uses_stay_in_place(uses: Set<(int, int)>, one: int, other: int)
    requires
        uses.contains((one, other)),
        uses.contains((other, one)),
    ensures
        !misplaced(uses, (one, other)),
        !misplaced(uses, (other, one)),
{
    let forward = seq![one, other];
    assert(is_path(uses, forward));
    assert(reaches_by(uses, one, other));
    let backward = seq![other, one];
    assert(is_path(uses, backward));
    assert(reaches_by(uses, other, one));
}

/// What unification made one type stays one type whatever a table settles after it.
pub proof fn law_unified_stays_unified(later: Table, earlier: Table, one: TypeView, other: TypeView)
    requires
        earlier.well_formed(),
        later.well_formed(),
        extends(later.entries(), earlier.entries()),
        earlier.spec_solved(one) == earlier.spec_solved(other),
    ensures
        later.spec_solved(one) == later.spec_solved(other),
{
    earlier.lemma_well_formed();
    later.lemma_well_formed();
    lemma_extends(later.entries(), later.rank(), earlier.entries(), earlier.rank(), one);
    lemma_extends(later.entries(), later.rank(), earlier.entries(), earlier.rank(), other);
}

/// Following every variable of a type already followed changes nothing.
pub proof fn law_solving_twice(table: Table, t: TypeView)
    requires
        table.well_formed(),
    ensures
        table.spec_solved(table.spec_solved(t)) == table.spec_solved(t),
{
    table.lemma_well_formed();
    assert(extends(table.entries(), table.entries())) by {
        assert(table.entries().take(table.entries().len() as int) =~= table.entries());
    }
    lemma_extends(table.entries(), table.rank(), table.entries(), table.rank(), t);
}

/// A type with nothing given to any stand-in is itself, which is why a scheme over nothing is the
/// same type wherever it is used.
pub proof fn law_nothing_given(t: TypeView)
    ensures
        replaced(t, Seq::empty()) == t,
    decreases t, 0int,
{
    match t {
        TypeView::Named(name, arguments) => {
            law_nothing_given_among(arguments);
        },
        TypeView::Function(parameters, result) => {
            law_nothing_given_among(parameters);
            law_nothing_given(*result);
        },
        _ => {},
    }
}

/// The same, for each of a sequence of types.
pub proof fn law_nothing_given_among(types: Seq<TypeView>)
    ensures
        replaced_among(types, Seq::empty(), types.len() as int) == types,
    decreases types, 1int,
{
    lemma_replaced_among(types, Seq::empty(), types.len() as int);
    assert forall|k: int| 0 <= k < types.len() implies replaced_among(
        types,
        Seq::empty(),
        types.len() as int,
    )[k] == types[k] by {
        law_nothing_given(types[k]);
    }
    assert(replaced_among(types, Seq::empty(), types.len() as int) =~= types);
}

/// Whether two refusals stand at one span and say one thing.
pub open spec fn same_refusal(one: ResolveError, other: ResolveError) -> bool {
    &&& one.span == other.span
    &&& match (one.kind, other.kind) {
        (
            ResolveErrorKind::WrittenAbove { declared: above, used_by: user },
            ResolveErrorKind::WrittenAbove { declared: written, used_by: using },
        ) => above@ == written@ && user@ == using@,
        _ => one.kind == other.kind,
    }
}

/// Resolving is a function of what it is given: two results that each are what resolving one
/// program, as one module, from one start comes to agree on whether it resolved, on the program,
/// module and definitions of a success, and on the span of a refusal and what it says.
pub proof fn law_resolving_is_deterministic(
    one: Result<ResolvedProgram, ResolveError>,
    other: Result<ResolvedProgram, ResolveError>,
    program: Program,
    module: Seq<char>,
    start: Walk,
)
    requires
        resolves_as(one, program, module, start),
        resolves_as(other, program, module, start),
    ensures
        one is Ok <==> other is Ok,
        one is Ok ==> one->Ok_0.spec_program() == other->Ok_0.spec_program()
            && one->Ok_0.spec_module() == other->Ok_0.spec_module()
            && one->Ok_0.spec_definitions() == other->Ok_0.spec_definitions(),
        one is Err ==> same_refusal(one->Err_0, other->Err_0),
{
}

/// A name has methods exactly when a trait of that name is declared: `methods_of` answers `Some`
/// for `name` exactly where `declares_trait` answers `true`, over one list of declared traits.
pub proof fn law_methods_exactly_for_declared_traits(traits: Seq<TraitDeclaration>, name: Seq<char>)
    ensures
        first_where(traits, named_trait(name)) is Some <==> trait_names_of(traits).contains(name),
{
    if trait_names_of(traits).contains(name) {
        let k = choose|k: int| 0 <= k < traits.len() && trait_names_of(traits)[k] == name;
        assert(named_trait(name)(traits[k]));
    }
    if first_where(traits, named_trait(name)) is Some {
        lemma_first_where_bounds(traits, named_trait(name));
        let k = first_where(traits, named_trait(name))->Some_0;
        assert(trait_names_of(traits)[k] == name);
    }
}

/// The trait `trait_of` gives a method is one whose methods, as `methods_of` gives them, hold
/// that method, where no two traits share a name.
pub proof fn law_trait_of_declares_the_method(traits: Seq<TraitDeclaration>, method: Seq<char>)
    requires
        trait_names_of(traits).no_duplicates(),
    ensures
        first_where(traits, declaring(method)) matches Some(k) ==> first_where(
            traits,
            named_trait(traits[k].name.text@),
        ) == Some(k) && method_texts(traits[k]).contains(method),
{
    if first_where(traits, declaring(method)) is Some {
        lemma_first_where_bounds(traits, declaring(method));
        let k = first_where(traits, declaring(method))->Some_0;
        let name = traits[k].name.text@;
        let names = trait_names_of(traits);
        assert(names[k] == name);
        assert(named_trait(name)(traits[k]));
        assert forall|j: int| 0 <= j < k implies !(#[trigger] named_trait(name)(traits[j])) by {
            assert(names[j] == traits[j].name.text@);
            assert(names[j] != names[k]);
        }
        lemma_first_where(traits, named_trait(name), k);
    }
}

/// A name means its innermost definition in scope: where the layer at `i` gives `text` a meaning
/// and no layer inside it does, looking `text` up gives the meaning that layer gives it.
pub proof fn law_innermost_definition(layers: Seq<Layer>, text: Seq<char>, i: int)
    requires
        0 <= i < layers.len(),
        layer_look_up(layers[i], text) is Some,
        forall|j: int| i < j < layers.len() ==> layer_look_up(#[trigger] layers[j], text) is None,
    ensures
        spec_look_up(layers, text) == layer_look_up(layers[i], text),
    decreases layers.len(),
{
    if i < layers.len() - 1 {
        assert(layer_look_up(layers[layers.len() - 1], text) is None);
        let inner = layers.drop_last();
        assert forall|j: int| i < j < inner.len() implies layer_look_up(#[trigger] inner[j], text)
            is None by {
            assert(inner[j] == layers[j]);
        }
        law_innermost_definition(inner, text, i);
        assert(inner[i] == layers[i]);
    }
}

/// A name written where nothing in scope gives it a meaning means nothing.
pub proof fn law_nothing_in_scope(layers: Seq<Layer>, text: Seq<char>)
    requires
        forall|j: int| 0 <= j < layers.len() ==> layer_look_up(#[trigger] layers[j], text) is None,
    ensures
        spec_look_up(layers, text) is None,
    decreases layers.len(),
{
    if layers.len() > 0 {
        assert(layer_look_up(layers[layers.len() - 1], text) is None);
        let inner = layers.drop_last();
        assert forall|j: int| 0 <= j < inner.len() implies layer_look_up(#[trigger] inner[j], text)
            is None by {
            assert(inner[j] == layers[j]);
        }
        law_nothing_in_scope(inner, text);
    }
}

/// A value declared is pointed at its own declaration, at its own span, and from then on its
/// name means that declaration; it is refused exactly where its name already means something.
pub proof fn law_declared_where_written(w: Walk, name: Name, kind: DefinitionKind)
    requires
        w.values.len() > 0,
    ensures
        spec_introduce_value(w, name, kind) is Err <==> spec_look_up(w.values, name.text@) is Some,
        spec_introduce_value(w, name, kind) matches Ok(after) ==> {
            let declared = Definition { kind, origin: Origin::Declared(name.span) };
            &&& after.found[(Namespace::Value, name.span)] == declared
            &&& spec_look_up(after.values, name.text@) == Some(declared)
        },
{
    if spec_look_up(w.values, name.text@) is None {
        let after = introduced(w.values, name, kind);
        let last = w.values.last().push((name.text@, Definition { kind, origin: Origin::Declared(name.span) }));
        assert(after.last() == last);
        assert(layer_look_up(last, name.text@) == Some(Definition { kind, origin: Origin::Declared(name.span) }));
    }
}

/// A type declared is pointed at its own declaration, at its own span, and from then on its name
/// means that declaration; it is refused exactly where its name already means something.
pub proof fn law_type_declared_where_written(w: Walk, name: Name, kind: DefinitionKind)
    requires
        w.types.len() > 0,
    ensures
        spec_introduce_type(w, name, kind) is Err <==> spec_look_up(w.types, name.text@) is Some,
        spec_introduce_type(w, name, kind) matches Ok(after) ==> {
            let declared = Definition { kind, origin: Origin::Declared(name.span) };
            &&& after.found[(Namespace::Type, name.span)] == declared
            &&& spec_look_up(after.types, name.text@) == Some(declared)
        },
{
    if spec_look_up(w.types, name.text@) is None {
        let after = introduced(w.types, name, kind);
        let last = w.types.last().push((name.text@, Definition { kind, origin: Origin::Declared(name.span) }));
        assert(after.last() == last);
        assert(layer_look_up(last, name.text@) == Some(Definition { kind, origin: Origin::Declared(name.span) }));
    }
}

/// A value used is pointed at what its name means where it is written, and one that means
/// nothing there is refused at its own span.
pub proof fn law_used_as_it_means(w: Walk, name: Name)
    ensures
        match spec_look_up(w.values, name.text@) {
            Some(definition) => spec_use_value(w, name) matches Ok(after) && after.found[(
                Namespace::Value,
                name.span,
            )] == definition,
            None => spec_use_value(w, name) matches Err(error) && error.span == name.span
                && error.kind == ResolveErrorKind::NoValue(name.text),
        },
{
}

/// The walk after declaring the items from the one at `i` up to, not including, the one at `k`.
pub open spec fn declared_through(w: Walk, items: Seq<Item>, i: int, k: int) -> Step
    decreases k - i,
{
    if k <= i {
        Ok(w)
    } else {
        match declared_through(w, items, i, k - 1) {
            Ok(before) => spec_declare(before, items[k - 1]),
            Err(error) => Err(error),
        }
    }
}

/// Declaring one item and then the rest from `i + 1` up to `k` is declaring from `i` up to `k`.
proof fn lemma_declared_through(w: Walk, after: Walk, items: Seq<Item>, i: int, k: int)
    requires
        spec_declare(w, items[i]) == Ok::<Walk, ResolveError>(after),
        i < k,
    ensures
        declared_through(w, items, i, k) == declared_through(after, items, i + 1, k),
    decreases k - i,
{
    assert(declared_through(w, items, i, i) == Ok::<Walk, ResolveError>(w));
    assert(declared_through(after, items, i + 1, i + 1) == Ok::<Walk, ResolveError>(after));
    if k > i + 1 {
        lemma_declared_through(w, after, items, i, k - 1);
    } else {
        assert(declared_through(w, items, i, i + 1) == spec_declare(w, items[i]));
    }
}

/// A module's declarations are refused at the first one in source order that is refused: where
/// declaring the items from `i` on is refused, some item at `k` is refused with that refusal once
/// every item before it was declared.
pub proof fn law_first_declaration_refused(w: Walk, items: Seq<Item>, i: int)
    requires
        0 <= i,
    ensures
        spec_declares(w, items, i) matches Err(error) ==> exists|k: int|
            i <= k < items.len() && (#[trigger] declared_through(w, items, i, k) matches Ok(before)
                && spec_declare(before, items[k]) == Err::<Walk, ResolveError>(error)),
    decreases items.len() - i,
{
    if i < items.len() {
        match spec_declare(w, items[i]) {
            Ok(after) => {
                law_first_declaration_refused(after, items, i + 1);
                if spec_declares(w, items, i) is Err {
                    let error = spec_declares(w, items, i)->Err_0;
                    let k = choose|k: int|
                        i + 1 <= k < items.len() && (#[trigger] declared_through(after, items, i + 1, k) matches Ok(
                            before,
                        ) && spec_declare(before, items[k]) == Err::<Walk, ResolveError>(error));
                    lemma_declared_through(w, after, items, i, k);
                    assert(declared_through(w, items, i, k) matches Ok(before) && spec_declare(before, items[k])
                        == Err::<Walk, ResolveError>(error));
                }
            },
            Err(error) => {
                assert(declared_through(w, items, i, i) == Ok::<Walk, ResolveError>(w));
            },
        }
    }
}

/// The name an item declares among the types, where it declares one: a type's or a trait's.
pub open spec fn type_name_declared(item: Item) -> Option<Seq<char>> {
    match item {
        Item::Type(declaration) => Some(declaration.name.text@),
        Item::Trait(declaration) => Some(declaration.name.text@),
        _ => None,
    }
}

/// Introducing a name into the innermost layer takes nothing away: what meant something before
/// still does.
proof fn lemma_introduced_keeps(layers: Seq<Layer>, name: Name, kind: DefinitionKind, text: Seq<char>)
    requires
        layers.len() > 0,
        spec_look_up(layers, text) is Some,
    ensures
        spec_look_up(introduced(layers, name, kind), text) is Some,
{
    let after = introduced(layers, name, kind);
    let pushed = layers.last().push((name.text@, Definition { kind, origin: Origin::Declared(name.span) }));
    assert(after.drop_last() =~= layers.drop_last());
    assert(after.last() == pushed);
    assert(pushed.drop_last() =~= layers.last());
    if pushed.last().0 != text {
        assert(layer_look_up(pushed, text) == layer_look_up(layers.last(), text));
    }
    if layer_look_up(layers.last(), text) is None {
        assert(spec_look_up(layers, text) == spec_look_up(layers.drop_last(), text));
    }
}

/// Introducing values leaves the types as they were.
proof fn lemma_values_keep_types(w: Walk, names: Seq<Name>, kind: DefinitionKind, i: int)
    ensures
        spec_introduce_values(w, names, kind, i) matches Ok(after) ==> after.types == w.types,
    decreases names.len() - i,
{
    if 0 <= i < names.len() {
        if let Ok(next) = spec_introduce_value(w, names[i], kind) {
            lemma_values_keep_types(next, names, kind, i + 1);
        }
    }
}

/// Declaring an item keeps the number of type layers, and every type name that meant something
/// still does.
proof fn lemma_declare_keeps_types(w: Walk, item: Item, text: Seq<char>)
    requires
        w.types.len() > 0,
    ensures
        spec_declare(w, item) matches Ok(after) ==> after.types.len() == w.types.len() && (spec_look_up(
            w.types,
            text,
        ) is Some ==> spec_look_up(after.types, text) is Some),
{
    match item {
        Item::Type(declaration) => {
            if let Ok(named) = spec_introduce_type(w, declaration.name, DefinitionKind::Type) {
                if spec_look_up(w.types, text) is Some {
                    lemma_introduced_keeps(w.types, declaration.name, DefinitionKind::Type, text);
                }
                match declaration.definition {
                    TypeDefinition::Variants(variants) => lemma_values_keep_types(
                        named,
                        variant_names(variants@),
                        DefinitionKind::Constructor,
                        0,
                    ),
                    _ => {},
                }
            }
        },
        Item::Trait(declaration) => {
            if let Ok(named) = spec_introduce_type(w, declaration.name, DefinitionKind::Trait) {
                if spec_look_up(w.types, text) is Some {
                    lemma_introduced_keeps(w.types, declaration.name, DefinitionKind::Trait, text);
                }
                lemma_values_keep_types(
                    named,
                    method_names(declaration.methods@),
                    DefinitionKind::TraitMethod,
                    0,
                );
            }
        },
        _ => {},
    }
}

/// A name a later item declares among the types means nothing yet where the items from `i` on
/// begin to be declared, when all of them are.
proof fn lemma_not_yet_in_scope(w: Walk, items: Seq<Item>, i: int, k: int)
    requires
        0 <= i <= k < items.len(),
        w.types.len() > 0,
        spec_declares(w, items, i) is Ok,
        type_name_declared(items[k]) is Some,
    ensures
        spec_look_up(w.types, type_name_declared(items[k])->Some_0) is None,
    decreases k - i,
{
    let text = type_name_declared(items[k])->Some_0;
    let after = spec_declare(w, items[i])->Ok_0;
    if k == i {
    } else {
        lemma_declare_keeps_types(w, items[i], text);
        lemma_not_yet_in_scope(after, items, i + 1, k);
    }
}

/// The types and traits a module declares have names that differ from each other and from every
/// name already in scope where the module is read, whenever its declarations are all accepted:
/// so no name is both a trait and a type, and no two traits share a name.
pub proof fn law_declared_type_names_distinct(w: Walk, items: Seq<Item>, i: int, j: int, k: int)
    requires
        0 <= i <= j < items.len(),
        j < k < items.len(),
        w.types.len() > 0,
        spec_declares(w, items, i) is Ok,
        type_name_declared(items[j]) is Some,
        type_name_declared(items[k]) is Some,
    ensures
        type_name_declared(items[j]) != type_name_declared(items[k]),
        spec_look_up(w.types, type_name_declared(items[j])->Some_0) is None,
    decreases j - i,
{
    let name = type_name_declared(items[j])->Some_0;
    lemma_not_yet_in_scope(w, items, i, j);
    let after = spec_declare(w, items[i])->Ok_0;
    lemma_declare_keeps_types(w, items[i], name);
    if j == i {
        lemma_not_yet_in_scope(after, items, i + 1, k);
        assert(spec_look_up(after.types, name) is Some) by {
            match items[i] {
                Item::Type(declaration) => {
                    let named = spec_introduce_type(w, declaration.name, DefinitionKind::Type)->Ok_0;
                    assert(spec_look_up(named.types, name) is Some) by {
                        let last = w.types.last().push((name, Definition { kind: DefinitionKind::Type, origin: Origin::Declared(declaration.name.span) }));
                        assert(named.types.last() == last);
                    }
                    match declaration.definition {
                        TypeDefinition::Variants(variants) => lemma_values_keep_types(
                            named,
                            variant_names(variants@),
                            DefinitionKind::Constructor,
                            0,
                        ),
                        _ => {},
                    }
                },
                Item::Trait(declaration) => {
                    let named = spec_introduce_type(w, declaration.name, DefinitionKind::Trait)->Ok_0;
                    assert(spec_look_up(named.types, name) is Some) by {
                        let last = w.types.last().push((name, Definition { kind: DefinitionKind::Trait, origin: Origin::Declared(declaration.name.span) }));
                        assert(named.types.last() == last);
                    }
                    lemma_values_keep_types(
                        named,
                        method_names(declaration.methods@),
                        DefinitionKind::TraitMethod,
                        0,
                    );
                },
                _ => {},
            }
        }
    } else {
        law_declared_type_names_distinct(after, items, i + 1, j, k);
    }
}

/// In a module that resolved, no two of its types and traits share a name, and none takes a name
/// already in scope where it is read: the prelude's types and traits among them, for the prelude.
pub proof fn law_resolved_type_names_distinct(
    resolved: Result<ResolvedProgram, ResolveError>,
    program: Program,
    module: Seq<char>,
    start: Walk,
    j: int,
    k: int,
)
    requires
        resolves_as(resolved, program, module, start),
        resolved is Ok,
        0 <= j < k < program.items@.len(),
        type_name_declared(program.items@[j]) is Some,
        type_name_declared(program.items@[k]) is Some,
    ensures
        type_name_declared(program.items@[j]) != type_name_declared(program.items@[k]),
        spec_look_up(
            enter_values(enter_types(start)).types,
            type_name_declared(program.items@[j])->Some_0,
        ) is None,
{
    let w = enter_values(enter_types(start));
    assert(w.types.len() > 0);
    assert(spec_declares(w, program.items@, 0) is Ok);
    law_declared_type_names_distinct(w, program.items@, 0, j, k);
}

/// A field written as a named type of this module holds the first record of that name by value,
/// whatever type arguments it is written with: an argument changes what the record holds, never
/// which record it is.
pub proof fn law_a_field_holds_the_record_it_is_written_as(
    records: Seq<TypeDeclaration>,
    field: RecordField,
    b: int,
)
    requires
        field.type_ref.kind is Named,
        field.type_ref.kind->path.module is None,
        first_where(records, record_named(field.type_ref.kind->path.name.text@)) == Some(b),
    ensures
        names_record(records, field, b),
{
    reveal(names_record);
}

/// A record with a field written as itself, with or without type arguments, holds itself: it is
/// a ring of one, which `nothing_holds_itself` refuses.
pub proof fn law_a_record_written_into_itself_is_a_ring(records: Seq<TypeDeclaration>, a: int, f: int)
    requires
        0 <= a < records.len(),
        0 <= f < fields_of(records[a]).len(),
        fields_of(records[a])[f].type_ref.kind is Named,
        fields_of(records[a])[f].type_ref.kind->path.module is None,
        first_where(records, record_named(fields_of(records[a])[f].type_ref.kind->path.name.text@)) == Some(a),
    ensures
        is_record_ring(records, seq![a]),
{
    law_a_field_holds_the_record_it_is_written_as(records, fields_of(records[a])[f], a);
    assert(holds_record(records, a, a));
    assert(seq![a].last() == a);
}

/// A type parameter of the function being inferred answers a trait exactly where a constraint
/// the function declares names that trait at that parameter; any other constraint over it, of
/// another trait, answers nothing.
pub proof fn law_a_parameter_answers_only_what_its_constraints_name(
    instances: Set<(Seq<char>, Seq<char>)>,
    promised: Seq<(Seq<char>, TypeView)>,
    of: Seq<char>,
    at: TypeView,
)
    requires
        at is Parameter,
    ensures
        spec_answers(instances, promised, of, at) <==> exists|k: int|
            0 <= k < promised.len() && (#[trigger] promised[k]).0 == of && promised[k].1 == at,
        (forall|k: int| 0 <= k < promised.len() ==> (#[trigger] promised[k]).0 != of) ==> !spec_answers(
            instances,
            promised,
            of,
            at,
        ),
{
    if spec_answers(instances, promised, of, at) {
        let k = choose|k: int| 0 <= k < promised.len() && #[trigger] promised[k] == (of, at);
        assert(promised[k].0 == of && promised[k].1 == at);
    }
    if exists|k: int| 0 <= k < promised.len() && (#[trigger] promised[k]).0 == of && promised[k].1 == at {
        let k = choose|k: int| 0 <= k < promised.len() && (#[trigger] promised[k]).0 == of && promised[k].1 == at;
        assert(promised[k] == (of, at));
    }
}

/// Whether `theirs` and `ours` are as many, and each pair already followed to one type.
pub open spec fn agree_pairwise(table: Table, theirs: Seq<TypeView>, ours: Seq<TypeView>) -> bool {
    theirs.len() == ours.len() && forall|k: int|
        0 <= k < theirs.len() ==> table.spec_solved(#[trigger] theirs[k]) == table.spec_solved(ours[k])
}

/// Two types a table already follows to one type begin the same way there: a variable only as
/// that variable, two named types with one name and each argument one type, two function types
/// with as many parameters, each one type, and one result.
proof fn lemma_heads_of_one_type(table: Table, expected: TypeView, found: TypeView)
    requires
        table.well_formed(),
        table.spec_solved(expected) == table.spec_solved(found),
    ensures
        outer(table.entries(), table.rank(), expected) is Var ==> outer(table.entries(), table.rank(), found)
            == outer(table.entries(), table.rank(), expected),
        outer(table.entries(), table.rank(), found) is Var ==> outer(table.entries(), table.rank(), found)
            == outer(table.entries(), table.rank(), expected),
        !(outer(table.entries(), table.rank(), expected) is Var) && !(outer(table.entries(), table.rank(), found) is Var)
            ==> !heads_clash(outer(table.entries(), table.rank(), expected), outer(table.entries(), table.rank(), found)),
        outer(table.entries(), table.rank(), expected) is Named && outer(table.entries(), table.rank(), found) is Named
            ==> agree_pairwise(
            table,
            outer(table.entries(), table.rank(), expected)->Named_1,
            outer(table.entries(), table.rank(), found)->Named_1,
        ),
        outer(table.entries(), table.rank(), expected) is Function && outer(table.entries(), table.rank(), found) is Function
            ==> agree_pairwise(
            table,
            outer(table.entries(), table.rank(), expected)->Function_0,
            outer(table.entries(), table.rank(), found)->Function_0,
        ) && table.spec_solved(*outer(table.entries(), table.rank(), expected)->Function_1) == table.spec_solved(
            *outer(table.entries(), table.rank(), found)->Function_1,
        ),
{
    table.lemma_well_formed();
    let entries = table.entries();
    let rank = table.rank();
    let none = Set::<TypeVar>::empty();
    let one = outer(entries, rank, expected);
    let other = outer(entries, rank, found);
    lemma_outer(entries, rank, none, false, expected);
    lemma_outer(entries, rank, none, false, found);
    assert(solved(entries, rank, one) == solved(entries, rank, found));
    assert(solved(entries, rank, other) == solved(entries, rank, found));
    match one {
        TypeView::Named(_, theirs) => {
            lemma_followed_among(entries, rank, none, false, theirs, theirs.len() as int);
            if let TypeView::Named(_, ours) = other {
                lemma_followed_among(entries, rank, none, false, ours, ours.len() as int);
                let left = followed_among(entries, rank, none, false, theirs, theirs.len() as int);
                let right = followed_among(entries, rank, none, false, ours, ours.len() as int);
                assert(left == right);
                assert(theirs.len() == ours.len());
                assert forall|k: int| 0 <= k < theirs.len() implies table.spec_solved(#[trigger] theirs[k])
                    == table.spec_solved(ours[k]) by {
                    assert(left[k] == right[k]);
                }
            }
        },
        TypeView::Function(theirs, result) => {
            lemma_followed_among(entries, rank, none, false, theirs, theirs.len() as int);
            if let TypeView::Function(ours, other_result) = other {
                lemma_followed_among(entries, rank, none, false, ours, ours.len() as int);
                let left = followed_among(entries, rank, none, false, theirs, theirs.len() as int);
                let right = followed_among(entries, rank, none, false, ours, ours.len() as int);
                assert(left == right);
                assert(theirs.len() == ours.len());
                assert forall|k: int| 0 <= k < theirs.len() implies table.spec_solved(#[trigger] theirs[k])
                    == table.spec_solved(ours[k]) by {
                    assert(left[k] == right[k]);
                }
                assert(table.spec_solved(*result) == table.spec_solved(*other_result));
            }
        },
        _ => {},
    }
    match other {
        TypeView::Named(_, ours) => {
            lemma_followed_among(entries, rank, none, false, ours, ours.len() as int);
        },
        TypeView::Function(ours, _) => {
            lemma_followed_among(entries, rank, none, false, ours, ours.len() as int);
        },
        _ => {},
    }
}

/// Two types a table already follows to one type unify, and settle nothing: whatever `unifies`
/// admits of them is `Ok`, with the table as it was.
pub proof fn law_one_type_unifies_settling_nothing(
    before: Table,
    expected: TypeView,
    found: TypeView,
    unified: Result<(), Clash>,
    after: Table,
)
    requires
        before.well_formed(),
        unifies(before, expected, found, unified, after),
        before.spec_solved(expected) == before.spec_solved(found),
    ensures
        unified is Ok,
        unchanged(after, before),
    decreases before.made() - before.entries().len(), size(before.spec_solved(expected)) + size(
        before.spec_solved(found),
    ), 1int, 0int,
{
    lemma_heads_of_one_type(before, expected, found);
    let one = outer(before.entries(), before.rank(), expected);
    let other = outer(before.entries(), before.rank(), found);
    let bound = size(before.spec_solved(expected)) + size(before.spec_solved(found));
    if !(one is Var) && !(other is Var) {
        match (one, other) {
            (TypeView::Named(_, theirs), TypeView::Named(_, ours)) => {
                law_agreeing_pairs_unify_settling_nothing(before, bound, theirs, ours, 0, unified, after);
            },
            (TypeView::Function(theirs, result), TypeView::Function(ours, other_result)) => {
                if unified is Err && arguments_unify(before, bound, theirs, ours, 0, unified, after) {
                    law_agreeing_pairs_unify_settling_nothing(before, bound, theirs, ours, 0, unified, after);
                } else {
                    let middle = choose|middle: Table|
                        #[trigger] grew(middle, before) && room(middle) && arguments_unify(
                            before,
                            bound,
                            theirs,
                            ours,
                            0,
                            Ok(()),
                            middle,
                        ) && (middle.made() - middle.entries().len() < before.made()
                            - before.entries().len() || size(middle.spec_solved(*result)) + size(
                            middle.spec_solved(*other_result),
                        ) < bound) && unifies(middle, *result, *other_result, unified, after);
                    law_agreeing_pairs_unify_settling_nothing(before, bound, theirs, ours, 0, Ok(()), middle);
                    assert(middle.rank() == before.rank());
                    law_one_type_unifies_settling_nothing(middle, *result, *other_result, unified, after);
                }
            },
            _ => {},
        }
    }
}

/// Pairs a table already follows to one type each, from the one at `i` on, unify, and settle
/// nothing.
pub proof fn law_agreeing_pairs_unify_settling_nothing(
    before: Table,
    bound: nat,
    theirs: Seq<TypeView>,
    ours: Seq<TypeView>,
    i: int,
    unified: Result<(), Clash>,
    after: Table,
)
    requires
        before.well_formed(),
        arguments_unify(before, bound, theirs, ours, i, unified, after),
        theirs.len() == ours.len(),
        0 <= i,
        forall|k: int| i <= k < theirs.len() ==> before.spec_solved(#[trigger] theirs[k]) == before.spec_solved(ours[k]),
    ensures
        unified is Ok,
        unchanged(after, before),
    decreases before.made() - before.entries().len(), bound, 0int, theirs.len() - i,
{
    if i < theirs.len() {
        if unified is Err && unifies(before, theirs[i], ours[i], unified, after) {
            law_one_type_unifies_settling_nothing(before, theirs[i], ours[i], unified, after);
        } else {
            let middle = choose|middle: Table|
                #[trigger] grew(middle, before) && room(middle) && unifies(
                    before,
                    theirs[i],
                    ours[i],
                    Ok(()),
                    middle,
                ) && arguments_unify(
                    middle,
                    next_bound(before, middle, bound, theirs, ours),
                    theirs,
                    ours,
                    i + 1,
                    unified,
                    after,
                );
            law_one_type_unifies_settling_nothing(before, theirs[i], ours[i], Ok(()), middle);
            assert(middle.rank() == before.rank());
            law_agreeing_pairs_unify_settling_nothing(
                middle,
                next_bound(before, middle, bound, theirs, ours),
                theirs,
                ours,
                i + 1,
                unified,
                after,
            );
        }
    }
}

} // verus!
