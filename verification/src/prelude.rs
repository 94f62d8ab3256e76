//! The names every module has in scope without importing anything.
//!
//! The prelude is a module of the library written in Lumen, so what it declares is read out of
//! it: `Option` and `Eq` are declared once rather than declared once and tabulated beside it.
//! The functions here that read it take the prelude as the parser read it.
use vstd::prelude::*;
use vstd::string::*;

use crate::ast::{Item, Program, Signature, TraitDeclaration, TypeDeclaration, TypeDefinition};
use crate::ast::Variant;
use crate::text::{same_text, slice_texts, texts};

verus! {

/// The trait `==` is.
pub const EQ: &'static str = "Eq";
/// The method of that trait, which is what `==` is written as.
pub const IS_EQUAL: &'static str = "is_equal";
/// The trait `+` is.
pub const ADD: &'static str = "Add";
/// The trait binary `-` is.
pub const SUB: &'static str = "Sub";
/// The trait `*` is.
pub const MUL: &'static str = "Mul";
/// The trait `/` is.
pub const DIV: &'static str = "Div";
/// The trait `%` is.
pub const REM: &'static str = "Rem";
/// The trait prefix `-` is.
pub const NEG: &'static str = "Neg";
/// The trait `<`, `<=`, `>`, and `>=` are.
pub const ORD: &'static str = "Ord";
/// The method of that trait, which is what the four comparisons are written as.
pub const IS_LESS: &'static str = "is_less";
/// The trait a value opts into a hash with.
pub const HASH: &'static str = "Hash";
/// The method of that trait.
pub const HASHED: &'static str = "hashed";
/// The trait a value opts into text with.
pub const SHOW: &'static str = "Show";
/// The method of that trait.
pub const SHOWN: &'static str = "shown";
/// The trait a whole-number literal is.
pub const INTEGER_LITERAL: &'static str = "IntegerLiteral";
/// The method of that trait a whole number is written as.
pub const FROM_LITERAL: &'static str = "from_literal";
/// The method of that trait giving the smallest whole number its type holds.
pub const LOWEST: &'static str = "lowest";
/// The method of that trait giving the largest whole number its type holds.
pub const HIGHEST: &'static str = "highest";
/// The type a list is, which the prelude writes the instances of and no module declares.
pub const LIST_TYPE: &'static str = "List";
/// The one library module the compiler holds a function of.
pub const LIST: &'static str = "list";
/// The one that grows a list, which no expression the grammar writes builds.
pub const PUSH: &'static str = "push";
/// The one that reads a list at an index.
pub const AT: &'static str = "at";

/// The traits a type derives, which are the four standard ones.
pub open spec fn derivable_names() -> Seq<Seq<char>> {
    seq![EQ@, ORD@, HASH@, SHOW@]
}

/// Whether a type derives the trait called `name`: `Eq`, `Ord`, `Hash`, and `Show` alone.
pub fn is_derivable(name: &str) -> (derivable: bool)
    ensures
        derivable == derivable_names().contains(name@),
{
    let derivable = same_text(name, EQ) || same_text(name, ORD) || same_text(name, HASH)
        || same_text(name, SHOW);
    proof {
        if derivable_names().contains(name@) {
            let k = choose|k: int| 0 <= k < 4 && derivable_names()[k] == name@;
            assert(k == 0 || k == 1 || k == 2 || k == 3);
        }
        if name@ == EQ@ { assert(derivable_names()[0] == name@); }
        if name@ == ORD@ { assert(derivable_names()[1] == name@); }
        if name@ == HASH@ { assert(derivable_names()[2] == name@); }
        if name@ == SHOW@ { assert(derivable_names()[3] == name@); }
    }
    derivable
}

/// The types the JVM holds directly, with how many arguments each is written with.
pub open spec fn held_type_table() -> Seq<(Seq<char>, usize)> {
    seq![("Bool"@, 0usize), ("Int"@, 0usize), (LIST_TYPE@, 1usize), ("String"@, 0usize)]
}

/// The names of those types.
pub open spec fn held_type_names() -> Seq<Seq<char>> {
    seq!["Bool"@, "Int"@, LIST_TYPE@, "String"@]
}

/// The two functions the compiler holds, which no source writes.
pub open spec fn held_function_names() -> Seq<Seq<char>> {
    seq![PUSH@, AT@]
}

/// The functions the compiler supplies, which is `todo` because a hole has no body to be written.
pub open spec fn supplied_names() -> Seq<Seq<char>> {
    seq!["todo"@]
}

/// The two functions the compiler holds.
fn held_functions() -> (names: Vec<&'static str>)
    ensures
        slice_texts(names@) == held_function_names(),
{
    let names = vec![PUSH, AT];
    assert(slice_texts(names@) =~= held_function_names());
    names
}

/// The ones the module called `module` offers to whatever imports it.
///
/// They are `list`'s names although the compiler holds them, so `list` offers them as it offers
/// its own, and a module reaches them by importing `list` and writing `list.push`.
pub fn offered_by(module: &str) -> (names: Vec<&'static str>)
    ensures
        slice_texts(names@) == if module@ == LIST@ {
            held_function_names()
        } else {
            Seq::<Seq<char>>::empty()
        },
{
    if same_text(module, LIST) {
        return held_functions();
    }
    let none: Vec<&'static str> = Vec::new();
    assert(slice_texts(none@) =~= Seq::<Seq<char>>::empty());
    none
}

/// The ones the source of the module called `module` writes without naming a module first.
///
/// The prelude writes the instances of `List` and reads a list with `at`, and it imports nothing,
/// so it is the one module whose own source writes them.
pub fn held_for(module: &str) -> (names: Vec<&'static str>)
    ensures
        slice_texts(names@) == if module@ == crate::library::PRELUDE@ {
            held_function_names()
        } else {
            Seq::<Seq<char>>::empty()
        },
{
    if same_text(module, crate::library::PRELUDE) {
        return held_functions();
    }
    let none: Vec<&'static str> = Vec::new();
    assert(slice_texts(none@) =~= Seq::<Seq<char>>::empty());
    none
}

/// The types the JVM holds, each with how many arguments it is written with.
pub fn held_types() -> (held: Vec<(&'static str, usize)>)
    ensures
        held@.map_values(|one: (&'static str, usize)| (one.0@, one.1)) == held_type_table(),
{
    let held = vec![("Bool", 0usize), ("Int", 0usize), (LIST_TYPE, 1usize), ("String", 0usize)];
    assert(held@.map_values(|one: (&'static str, usize)| (one.0@, one.1)) =~= held_type_table());
    held
}

/// The names in scope while the prelude itself is resolved, which is what the JVM holds.
pub fn held() -> (names: Vec<&'static str>)
    ensures
        slice_texts(names@) == held_type_names(),
{
    let names = vec!["Bool", "Int", LIST_TYPE, "String"];
    assert(slice_texts(names@) =~= held_type_names());
    names
}

/// The functions in scope while the prelude itself is resolved, which is `todo` alone.
pub fn supplied() -> (names: Vec<&'static str>)
    ensures
        slice_texts(names@) == supplied_names(),
{
    let names = vec!["todo"];
    assert(slice_texts(names@) =~= supplied_names());
    names
}

/// Every type declaration among `items`, in the order they are written.
pub open spec fn declared_types(items: Seq<Item>) -> Seq<TypeDeclaration>
    decreases items.len(),
{
    if items.len() == 0 {
        Seq::empty()
    } else {
        let rest = declared_types(items.drop_last());
        match items.last() {
            Item::Type(declaration) => rest.push(declaration),
            _ => rest,
        }
    }
}

/// Every trait declaration among `items`, in the order they are written.
pub open spec fn declared_traits(items: Seq<Item>) -> Seq<TraitDeclaration>
    decreases items.len(),
{
    if items.len() == 0 {
        Seq::empty()
    } else {
        let rest = declared_traits(items.drop_last());
        match items.last() {
            Item::Trait(declaration) => rest.push(declaration),
            _ => rest,
        }
    }
}

/// The names of every function among `items`, in the order they are written.
pub open spec fn function_names(items: Seq<Item>) -> Seq<Seq<char>>
    decreases items.len(),
{
    if items.len() == 0 {
        Seq::empty()
    } else {
        let rest = function_names(items.drop_last());
        match items.last() {
            Item::Function(function) => rest.push(function.name.text@),
            _ => rest,
        }
    }
}

/// Every instance among `items`, as the trait and the type it is for, in the order written.
pub open spec fn instance_names(items: Seq<Item>) -> Seq<(Seq<char>, Seq<char>)>
    decreases items.len(),
{
    if items.len() == 0 {
        Seq::empty()
    } else {
        let rest = instance_names(items.drop_last());
        match items.last() {
            Item::Instance(declaration) => rest.push(
                (declaration.trait_name.text@, declaration.for_type.text@),
            ),
            _ => rest,
        }
    }
}

/// The name each type declaration declares.
pub open spec fn type_names(types: Seq<TypeDeclaration>) -> Seq<Seq<char>> {
    types.map_values(|declaration: TypeDeclaration| declaration.name.text@)
}

/// The name each trait declaration declares.
pub open spec fn trait_names_of(traits: Seq<TraitDeclaration>) -> Seq<Seq<char>> {
    traits.map_values(|declaration: TraitDeclaration| declaration.name.text@)
}

/// The names of the methods a trait declares, in the order it declares them.
pub open spec fn method_texts(declaration: TraitDeclaration) -> Seq<Seq<char>> {
    declaration.methods@.map_values(|signature: Signature| signature.name.text@)
}

/// The names of the variants a type declaration writes, which a record declaration has none of.
pub open spec fn variant_texts(declaration: TypeDeclaration) -> Seq<Seq<char>> {
    match declaration.definition {
        TypeDefinition::Variants(variants) => variants@.map_values(
            |variant: Variant| variant.name.text@,
        ),
        _ => Seq::empty(),
    }
}

/// The names of the variants of every type declaration, one declaration after another.
pub open spec fn constructor_texts(types: Seq<TypeDeclaration>) -> Seq<Seq<char>>
    decreases types.len(),
{
    if types.len() == 0 {
        Seq::empty()
    } else {
        constructor_texts(types.drop_last()) + variant_texts(types.last())
    }
}

/// The names of the methods of every trait declaration, one declaration after another.
pub open spec fn all_method_texts(traits: Seq<TraitDeclaration>) -> Seq<Seq<char>>
    decreases traits.len(),
{
    if traits.len() == 0 {
        Seq::empty()
    } else {
        all_method_texts(traits.drop_last()) + method_texts(traits.last())
    }
}

/// The types each instance among `instances` is for, where it is an instance of `of`.
pub open spec fn instances_of(instances: Seq<(Seq<char>, Seq<char>)>, of: Seq<char>) -> Seq<
    Seq<char>,
>
    decreases instances.len(),
{
    if instances.len() == 0 {
        Seq::empty()
    } else {
        let rest = instances_of(instances.drop_last(), of);
        if instances.last().0 == of {
            rest.push(instances.last().1)
        } else {
            rest
        }
    }
}

/// The index of the first element of `s` that `wanted` holds of, when one is.
pub open spec fn first_where<A>(s: Seq<A>, wanted: spec_fn(A) -> bool) -> Option<int> {
    if exists|i: int| 0 <= i < s.len() && wanted(s[i]) {
        Some(
            choose|i: int|
                0 <= i < s.len() && wanted(s[i]) && forall|j: int| 0 <= j < i ==> !wanted(s[j]),
        )
    } else {
        None
    }
}

/// The first element `wanted` holds of, found at `i` with none before it, is the one chosen.
pub proof fn lemma_first_where<A>(s: Seq<A>, wanted: spec_fn(A) -> bool, i: int)
    requires
        0 <= i < s.len(),
        wanted(s[i]),
        forall|j: int| 0 <= j < i ==> !wanted(s[j]),
    ensures
        first_where(s, wanted) == Some(i),
{
    let chosen = first_where(s, wanted)->0;
    assert(0 <= chosen < s.len() && wanted(s[chosen]) && forall|j: int|
        0 <= j < chosen ==> !wanted(s[j]));
    if chosen < i {
    } else if chosen > i {
    }
}

/// The index `first_where` gives is one of the sequence's, and `wanted` holds of it.
pub proof fn lemma_first_where_bounds<A>(s: Seq<A>, wanted: spec_fn(A) -> bool)
    requires
        first_where(s, wanted) is Some,
    ensures
        0 <= first_where(s, wanted)->0 < s.len(),
        wanted(s[first_where(s, wanted)->0]),
{
    let k = choose|k: int| 0 <= k < s.len() && wanted(s[k]);
    lemma_least(s, wanted, k);
}

/// Where `wanted` holds at `k`, it holds at a first place no later than `k`.
proof fn lemma_least<A>(s: Seq<A>, wanted: spec_fn(A) -> bool, k: int)
    requires
        0 <= k < s.len(),
        wanted(s[k]),
    ensures
        exists|i: int| 0 <= i <= k && wanted(s[i]) && forall|j: int| 0 <= j < i ==> !wanted(s[j]),
    decreases k,
{
    if exists|j: int| 0 <= j < k && wanted(s[j]) {
        let j = choose|j: int| 0 <= j < k && wanted(s[j]);
        lemma_least(s, wanted, j);
    } else {
        assert(0 <= k <= k && wanted(s[k]) && forall|j: int| 0 <= j < k ==> !wanted(s[j]));
    }
}

/// Whether a trait declaration declares the trait called `name`.
pub open spec fn named_trait(name: Seq<char>) -> spec_fn(TraitDeclaration) -> bool {
    |declaration: TraitDeclaration| declaration.name.text@ == name
}

/// Whether a trait declaration declares a method called `method`.
pub open spec fn declaring(method: Seq<char>) -> spec_fn(TraitDeclaration) -> bool {
    |declaration: TraitDeclaration| method_texts(declaration).contains(method)
}

/// Every type the prelude declares, in the order it writes them.
fn type_declarations(prelude: &Program) -> (types: Vec<&TypeDeclaration>)
    ensures
        types@.len() == declared_types(prelude.items@).len(),
        forall|k: int| 0 <= k < types@.len() ==> *types@[k] == declared_types(prelude.items@)[k],
{
    let mut types: Vec<&TypeDeclaration> = Vec::new();
    let mut i: usize = 0;
    while i < prelude.items.len()
        invariant
            i <= prelude.items@.len(),
            types@.len() == declared_types(prelude.items@.take(i as int)).len(),
            forall|k: int|
                0 <= k < types@.len() ==> *types@[k] == declared_types(
                    prelude.items@.take(i as int),
                )[k],
        decreases prelude.items.len() - i,
    {
        assert(prelude.items@.take(i + 1).drop_last() =~= prelude.items@.take(i as int));
        assert(prelude.items@.take(i + 1).last() == prelude.items@[i as int]);
        if let Item::Type(declaration) = &prelude.items[i] {
            types.push(declaration);
        }
        i = i + 1;
    }
    assert(prelude.items@.take(prelude.items.len() as int) =~= prelude.items@);
    types
}

/// Every trait the prelude declares, in the order it writes them.
fn trait_declarations(prelude: &Program) -> (traits: Vec<&TraitDeclaration>)
    ensures
        traits@.len() == declared_traits(prelude.items@).len(),
        forall|k: int|
            0 <= k < traits@.len() ==> *traits@[k] == declared_traits(prelude.items@)[k],
{
    let mut traits: Vec<&TraitDeclaration> = Vec::new();
    let mut i: usize = 0;
    while i < prelude.items.len()
        invariant
            i <= prelude.items@.len(),
            traits@.len() == declared_traits(prelude.items@.take(i as int)).len(),
            forall|k: int|
                0 <= k < traits@.len() ==> *traits@[k] == declared_traits(
                    prelude.items@.take(i as int),
                )[k],
        decreases prelude.items.len() - i,
    {
        assert(prelude.items@.take(i + 1).drop_last() =~= prelude.items@.take(i as int));
        assert(prelude.items@.take(i + 1).last() == prelude.items@[i as int]);
        if let Item::Trait(declaration) = &prelude.items[i] {
            traits.push(declaration);
        }
        i = i + 1;
    }
    assert(prelude.items@.take(prelude.items.len() as int) =~= prelude.items@);
    traits
}

/// The names of the methods `declaration` declares, in the order it declares them.
fn methods_named_by(declaration: &TraitDeclaration) -> (names: Vec<String>)
    ensures
        texts(names@) == method_texts(*declaration),
        names@ == crate::resolve::model::method_strings(declaration.methods@),
{
    let mut names: Vec<String> = Vec::new();
    let mut i: usize = 0;
    while i < declaration.methods.len()
        invariant
            i <= declaration.methods@.len(),
            names@.len() == i,
            forall|k: int| 0 <= k < i ==> names@[k] == declaration.methods@[k].name.text,
        decreases declaration.methods.len() - i,
    {
        names.push(declaration.methods[i].name.text.clone());
        i = i + 1;
    }
    assert(texts(names@) =~= method_texts(*declaration));
    assert(names@ =~= crate::resolve::model::method_strings(declaration.methods@));
    names
}

/// The types in scope everywhere: the four the JVM holds, and the ones the prelude declares.
pub fn types(prelude: &Program) -> (names: Vec<String>)
    ensures
        texts(names@) == held_type_names() + type_names(declared_types(prelude.items@)),
{
    let held = held();
    let mut names: Vec<String> = Vec::new();
    let mut i: usize = 0;
    while i < held.len()
        invariant
            i <= held@.len(),
            slice_texts(held@) == held_type_names(),
            names@.len() == i,
            forall|k: int| 0 <= k < i ==> names@[k]@ == held@[k]@,
        decreases held.len() - i,
    {
        assert(slice_texts(held@)[i as int] == held@[i as int]@);
        names.push(String::from_str(held[i]));
        i = i + 1;
    }
    assert(texts(names@) =~= held_type_names());
    let declared = type_declarations(prelude);
    let mut j: usize = 0;
    while j < declared.len()
        invariant
            j <= declared@.len(),
            declared@.len() == declared_types(prelude.items@).len(),
            forall|k: int|
                0 <= k < declared@.len() ==> *declared@[k] == declared_types(prelude.items@)[k],
            texts(names@) == held_type_names() + type_names(
                declared_types(prelude.items@).take(j as int),
            ),
        decreases declared.len() - j,
    {
        let ghost before = names@;
        names.push(declared[j].name.text.clone());
        assert(texts(names@) =~= texts(before).push(declared@[j as int].name.text@));
        assert(type_names(declared_types(prelude.items@).take(j + 1)) =~= type_names(
            declared_types(prelude.items@).take(j as int),
        ).push(declared_types(prelude.items@)[j as int].name.text@));
        j = j + 1;
    }
    assert(declared_types(prelude.items@).take(declared.len() as int) =~= declared_types(
        prelude.items@,
    ));
    names
}

/// Whether the prelude declares a type of this name.
pub fn declares_type(prelude: &Program, name: &str) -> (declares: bool)
    ensures
        declares == type_names(declared_types(prelude.items@)).contains(name@),
{
    let declared = type_declarations(prelude);
    let mut i: usize = 0;
    while i < declared.len()
        invariant
            i <= declared@.len(),
            declared@.len() == declared_types(prelude.items@).len(),
            forall|k: int|
                0 <= k < declared@.len() ==> *declared@[k] == declared_types(prelude.items@)[k],
            forall|k: int| 0 <= k < i ==> type_names(declared_types(prelude.items@))[k] != name@,
        decreases declared.len() - i,
    {
        if same_text(declared[i].name.text.as_str(), name) {
            assert(type_names(declared_types(prelude.items@))[i as int] == name@);
            return true;
        }
        i = i + 1;
    }
    false
}

/// Whether the prelude declares a trait of this name, which is a trait every module reaches.
pub fn declares_trait(prelude: &Program, name: &str) -> (declares: bool)
    ensures
        declares == trait_names_of(declared_traits(prelude.items@)).contains(name@),
{
    let declared = trait_declarations(prelude);
    let mut i: usize = 0;
    while i < declared.len()
        invariant
            i <= declared@.len(),
            declared@.len() == declared_traits(prelude.items@).len(),
            forall|k: int|
                0 <= k < declared@.len() ==> *declared@[k] == declared_traits(prelude.items@)[k],
            forall|k: int|
                0 <= k < i ==> trait_names_of(declared_traits(prelude.items@))[k] != name@,
        decreases declared.len() - i,
    {
        if same_text(declared[i].name.text.as_str(), name) {
            assert(trait_names_of(declared_traits(prelude.items@))[i as int] == name@);
            return true;
        }
        i = i + 1;
    }
    false
}

/// The constructors in scope everywhere, which are the variants of the types the prelude declares.
pub fn constructors(prelude: &Program) -> (names: Vec<String>)
    ensures
        texts(names@) == constructor_texts(declared_types(prelude.items@)),
{
    let declared = type_declarations(prelude);
    let ghost all = declared_types(prelude.items@);
    let mut names: Vec<String> = Vec::new();
    let mut i: usize = 0;
    while i < declared.len()
        invariant
            i <= declared@.len(),
            declared@.len() == all.len(),
            all == declared_types(prelude.items@),
            forall|k: int| 0 <= k < declared@.len() ==> *declared@[k] == all[k],
            texts(names@) == constructor_texts(all.take(i as int)),
        decreases declared.len() - i,
    {
        assert(all.take(i + 1).drop_last() =~= all.take(i as int));
        let declaration = declared[i];
        if let TypeDefinition::Variants(variants) = &declaration.definition {
            let mut j: usize = 0;
            let ghost before = names@;
            while j < variants.len()
                invariant
                    j <= variants@.len(),
                    names@.len() == before.len() + j,
                    forall|k: int| 0 <= k < before.len() ==> names@[k] == before[k],
                    forall|k: int|
                        0 <= k < j ==> names@[before.len() + k]@ == variants@[k].name.text@,
                decreases variants.len() - j,
            {
                names.push(variants[j].name.text.clone());
                j = j + 1;
            }
            assert(texts(names@) =~= texts(before) + variant_texts(*declaration));
        } else {
            assert(variant_texts(*declaration) =~= Seq::<Seq<char>>::empty());
            assert(texts(names@) =~= texts(names@) + variant_texts(*declaration));
        }
        i = i + 1;
    }
    assert(all.take(declared.len() as int) =~= all);
    names
}

/// The functions in scope everywhere: the ones the prelude declares, and `todo`.
pub fn functions(prelude: &Program) -> (names: Vec<String>)
    ensures
        texts(names@) == function_names(prelude.items@) + supplied_names(),
{
    let mut names: Vec<String> = Vec::new();
    let mut i: usize = 0;
    while i < prelude.items.len()
        invariant
            i <= prelude.items@.len(),
            texts(names@) == function_names(prelude.items@.take(i as int)),
        decreases prelude.items.len() - i,
    {
        assert(prelude.items@.take(i + 1).drop_last() =~= prelude.items@.take(i as int));
        assert(prelude.items@.take(i + 1).last() == prelude.items@[i as int]);
        let ghost before = names@;
        if let Item::Function(function) = &prelude.items[i] {
            names.push(function.name.text.clone());
            assert(texts(names@) =~= texts(before).push(function.name.text@));
        }
        i = i + 1;
    }
    assert(prelude.items@.take(prelude.items.len() as int) =~= prelude.items@);
    let ghost before = names@;
    names.push(String::from_str("todo"));
    assert(texts(names@) =~= texts(before) + supplied_names());
    names
}

/// The trait names, which are names in the type scope beside the types.
pub fn trait_names(prelude: &Program) -> (names: Vec<String>)
    ensures
        texts(names@) == trait_names_of(declared_traits(prelude.items@)),
{
    let declared = trait_declarations(prelude);
    let mut names: Vec<String> = Vec::new();
    let mut i: usize = 0;
    while i < declared.len()
        invariant
            i <= declared@.len(),
            declared@.len() == declared_traits(prelude.items@).len(),
            forall|k: int|
                0 <= k < declared@.len() ==> *declared@[k] == declared_traits(prelude.items@)[k],
            names@.len() == i,
            forall|k: int| 0 <= k < i ==> names@[k]@ == declared@[k].name.text@,
        decreases declared.len() - i,
    {
        names.push(declared[i].name.text.clone());
        i = i + 1;
    }
    assert(texts(names@) =~= trait_names_of(declared_traits(prelude.items@)));
    names
}

/// The names of every method the prelude's traits declare, which are names in the value scope.
pub fn method_names(prelude: &Program) -> (names: Vec<String>)
    ensures
        texts(names@) == all_method_texts(declared_traits(prelude.items@)),
{
    let declared = trait_declarations(prelude);
    let ghost all = declared_traits(prelude.items@);
    let mut names: Vec<String> = Vec::new();
    let mut i: usize = 0;
    while i < declared.len()
        invariant
            i <= declared@.len(),
            declared@.len() == all.len(),
            all == declared_traits(prelude.items@),
            forall|k: int| 0 <= k < declared@.len() ==> *declared@[k] == all[k],
            texts(names@) == all_method_texts(all.take(i as int)),
        decreases declared.len() - i,
    {
        assert(all.take(i + 1).drop_last() =~= all.take(i as int));
        let ghost before = names@;
        let methods = methods_named_by(declared[i]);
        let mut j: usize = 0;
        while j < methods.len()
            invariant
                j <= methods@.len(),
                names@.len() == before.len() + j,
                forall|k: int| 0 <= k < before.len() ==> names@[k] == before[k],
                forall|k: int| 0 <= k < j ==> names@[before.len() + k] == methods@[k],
            decreases methods.len() - j,
        {
            names.push(methods[j].clone());
            j = j + 1;
        }
        assert(texts(names@) =~= texts(before) + texts(methods@));
        i = i + 1;
    }
    assert(all.take(declared.len() as int) =~= all);
    names
}

/// Every instance the prelude has, as the two names that say which one it is, in order.
pub fn instances(prelude: &Program) -> (found: Vec<(String, String)>)
    ensures
        found@.map_values(|one: (String, String)| (one.0@, one.1@)) == instance_names(
            prelude.items@,
        ),
{
    let mut found: Vec<(String, String)> = Vec::new();
    let mut i: usize = 0;
    while i < prelude.items.len()
        invariant
            i <= prelude.items@.len(),
            found@.map_values(|one: (String, String)| (one.0@, one.1@)) == instance_names(
                prelude.items@.take(i as int),
            ),
        decreases prelude.items.len() - i,
    {
        assert(prelude.items@.take(i + 1).drop_last() =~= prelude.items@.take(i as int));
        assert(prelude.items@.take(i + 1).last() == prelude.items@[i as int]);
        let ghost before = found@;
        if let Item::Instance(declaration) = &prelude.items[i] {
            found.push((declaration.trait_name.text.clone(), declaration.for_type.text.clone()));
            assert(found@.map_values(|one: (String, String)| (one.0@, one.1@)) =~= before.map_values(
                |one: (String, String)| (one.0@, one.1@),
            ).push((declaration.trait_name.text@, declaration.for_type.text@)));
        }
        i = i + 1;
    }
    assert(prelude.items@.take(prelude.items.len() as int) =~= prelude.items@);
    found
}

/// A trait the prelude supplies: what it declares, and which types it already has instances for.
pub struct Supplied {
    pub name: String,
    pub methods: Vec<String>,
    pub instances: Vec<String>,
}

/// The types the instances among `instances` of the trait called `of` are for, in order.
fn instances_for(instances: &Vec<(String, String)>, of: &String) -> (for_types: Vec<String>)
    ensures
        texts(for_types@) == instances_of(
            instances@.map_values(|one: (String, String)| (one.0@, one.1@)),
            of@,
        ),
{
    let ghost all = instances@.map_values(|one: (String, String)| (one.0@, one.1@));
    let mut for_types: Vec<String> = Vec::new();
    let mut i: usize = 0;
    while i < instances.len()
        invariant
            i <= instances@.len(),
            all == instances@.map_values(|one: (String, String)| (one.0@, one.1@)),
            texts(for_types@) == instances_of(all.take(i as int), of@),
        decreases instances.len() - i,
    {
        assert(all.take(i + 1).drop_last() =~= all.take(i as int));
        assert(all.take(i + 1).last() == (instances@[i as int].0@, instances@[i as int].1@));
        let ghost before = for_types@;
        if instances[i].0 == *of {
            for_types.push(instances[i].1.clone());
            assert(texts(for_types@) =~= texts(before).push(instances@[i as int].1@));
        }
        i = i + 1;
    }
    assert(all.take(instances.len() as int) =~= all);
    for_types
}

/// Every trait the prelude declares, with its methods and the types it has an instance for.
pub fn supplied_traits(prelude: &Program) -> (supplied: Vec<Supplied>)
    ensures
        supplied@.len() == declared_traits(prelude.items@).len(),
        forall|k: int|
            #![trigger supplied@[k]]
            0 <= k < supplied@.len() ==> {
                let declaration = declared_traits(prelude.items@)[k];
                &&& supplied@[k].name@ == declaration.name.text@
                &&& texts(supplied@[k].methods@) == method_texts(declaration)
                &&& supplied@[k].methods@ == crate::resolve::model::method_strings(declaration.methods@)
                &&& texts(supplied@[k].instances@) == instances_of(
                    instance_names(prelude.items@),
                    declaration.name.text@,
                )
            },
{
    let declared = trait_declarations(prelude);
    let every_instance = instances(prelude);
    let mut supplied: Vec<Supplied> = Vec::new();
    let mut i: usize = 0;
    while i < declared.len()
        invariant
            i <= declared@.len(),
            declared@.len() == declared_traits(prelude.items@).len(),
            forall|k: int|
                0 <= k < declared@.len() ==> *declared@[k] == declared_traits(prelude.items@)[k],
            every_instance@.map_values(|one: (String, String)| (one.0@, one.1@))
                == instance_names(prelude.items@),
            supplied@.len() == i,
            forall|k: int|
                #![trigger supplied@[k]]
                0 <= k < i ==> {
                    let declaration = declared_traits(prelude.items@)[k];
                    &&& supplied@[k].name@ == declaration.name.text@
                    &&& texts(supplied@[k].methods@) == method_texts(declaration)
                    &&& supplied@[k].methods@ == crate::resolve::model::method_strings(declaration.methods@)
                    &&& texts(supplied@[k].instances@) == instances_of(
                        instance_names(prelude.items@),
                        declaration.name.text@,
                    )
                },
        decreases declared.len() - i,
    {
        let declaration = declared[i];
        let name = declaration.name.text.clone();
        let methods = methods_named_by(declaration);
        let for_types = instances_for(&every_instance, &name);
        supplied.push(Supplied { name, methods, instances: for_types });
        i = i + 1;
    }
    supplied
}

/// The methods the trait called `name` declares, when the prelude is the one that declares it.
pub fn methods_of(prelude: &Program, name: &str) -> (methods: Option<Vec<String>>)
    ensures
        match first_where(
            declared_traits(prelude.items@),
            named_trait(name@),
        ) {
            Some(k) => methods matches Some(found) && texts(found@) == method_texts(
                declared_traits(prelude.items@)[k],
            ),
            None => methods is None,
        },
{
    let declared = trait_declarations(prelude);
    let ghost all = declared_traits(prelude.items@);
    let ghost named = named_trait(name@);
    let mut i: usize = 0;
    while i < declared.len()
        invariant
            i <= declared@.len(),
            declared@.len() == all.len(),
            all == declared_traits(prelude.items@),
            named == named_trait(name@),
            forall|k: int| 0 <= k < declared@.len() ==> *declared@[k] == all[k],
            forall|k: int| 0 <= k < i ==> !named(all[k]),
        decreases declared.len() - i,
    {
        if same_text(declared[i].name.text.as_str(), name) {
            proof {
                lemma_first_where(all, named, i as int);
            }
            return Some(methods_named_by(declared[i]));
        }
        i = i + 1;
    }
    None
}

/// The one method the trait called `name` declares, where it declares exactly one.
pub fn method_of(prelude: &Program, name: &str) -> (method: Option<String>)
    ensures
        match first_where(
            declared_traits(prelude.items@),
            named_trait(name@),
        ) {
            Some(k) => {
                let methods = method_texts(declared_traits(prelude.items@)[k]);
                if methods.len() == 1 {
                    method matches Some(only) && only@ == methods[0]
                } else {
                    method is None
                }
            },
            None => method is None,
        },
{
    match methods_of(prelude, name) {
        Some(methods) => {
            if methods.len() == 1 {
                assert(texts(methods@)[0] == methods@[0]@);
                Some(methods[0].clone())
            } else {
                None
            }
        },
        None => None,
    }
}

/// The trait the prelude declares `method` in, when the prelude is the one that declares it.
pub fn trait_of(prelude: &Program, method: &str) -> (found: Option<String>)
    ensures
        match first_where(
            declared_traits(prelude.items@),
            declaring(method@),
        ) {
            Some(k) => found matches Some(name) && name@ == declared_traits(
                prelude.items@,
            )[k].name.text@,
            None => found is None,
        },
{
    let declared = trait_declarations(prelude);
    let ghost all = declared_traits(prelude.items@);
    let ghost declares = declaring(method@);
    let mut i: usize = 0;
    while i < declared.len()
        invariant
            i <= declared@.len(),
            declared@.len() == all.len(),
            all == declared_traits(prelude.items@),
            declares == declaring(method@),
            forall|k: int| 0 <= k < declared@.len() ==> *declared@[k] == all[k],
            forall|k: int| 0 <= k < i ==> !declares(all[k]),
        decreases declared.len() - i,
    {
        let methods = methods_named_by(declared[i]);
        let mut j: usize = 0;
        while j < methods.len()
            invariant
                j <= methods@.len(),
                i < declared@.len(),
                declared@.len() == all.len(),
                all == declared_traits(prelude.items@),
                *declared@[i as int] == all[i as int],
                forall|k: int| 0 <= k < i ==> !declares(all[k]),
                declares == declaring(method@),
                texts(methods@) == method_texts(*declared@[i as int]),
                forall|k: int| 0 <= k < j ==> methods@[k]@ != method@,
            decreases methods.len() - j,
        {
            if same_text(methods[j].as_str(), method) {
                assert(method_texts(*declared@[i as int])[j as int] == method@);
                proof {
                    lemma_first_where(all, declares, i as int);
                }
                let found = declared[i].name.text.clone();
                assert(found@ == all[i as int].name.text@);
                return Some(found);
            }
            j = j + 1;
        }
        assert(!method_texts(*declared@[i as int]).contains(method@)) by {
            if method_texts(*declared@[i as int]).contains(method@) {
                let k = choose|k: int|
                    0 <= k < method_texts(*declared@[i as int]).len() && method_texts(
                        *declared@[i as int],
                    )[k] == method@;
                assert(texts(methods@)[k] == methods@[k]@);
            }
        }
        i = i + 1;
    }
    assert(!(exists|k: int| 0 <= k < all.len() && declares(all[k])));
    None
}

} // verus!
