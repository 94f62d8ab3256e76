//! The functions of a library module the compiler holds, rather than that module's own source.
//!
//! `List` is a type the JVM holds, so what a list does that no body says is the compiler's too:
//! `push` builds a list from a list, which no expression the grammar writes does, and `at` reads
//! one at an index in the time the JVM reads one slot in. Neither is an `extern` either, because
//! an `extern` signature writes no type parameter and each of these writes one.
use vstd::prelude::*;

use crate::definition::Origin;
use crate::prelude::{held_for as names_held_for, offered_by, PUSH};
use crate::scheme::{stand_in, Quantified, Scheme};
use crate::surface::Offered;
use crate::text::same_text;
use crate::types::{lemma_views_of, plain, views_of, Type, TypeParameter, TypeView, INT, LIST, OPTION};

verus! {

/// What the element of a list is called where a signature here writes it.
pub const ELEMENT: &'static str = "T";

/// The element a list holds, as the signatures here write it.
pub open spec fn element() -> TypeView {
    TypeView::Parameter(ELEMENT@, Origin::Prelude)
}

/// `push<T>(values: List<T>, value: T) -> List<T>`, as the specifications read it.
pub open spec fn push_type() -> TypeView {
    TypeView::Function(
        seq![TypeView::Named(LIST@, seq![element()]), element()],
        Box::new(TypeView::Named(LIST@, seq![element()])),
    )
}

/// `at<T>(values: List<T>, index: Int) -> Option<T>`, as the specifications read it.
pub open spec fn at_type() -> TypeView {
    TypeView::Function(
        seq![TypeView::Named(LIST@, seq![element()]), plain(INT@)],
        Box::new(TypeView::Named(OPTION@, seq![element()])),
    )
}

/// The element a list holds, written as a type.
fn element_type() -> (element_type: Type)
    ensures
        element_type@ == element(),
{
    Type::Parameter(TypeParameter::prelude(ELEMENT))
}

/// A scheme over the one type parameter each of these writes, which is what a list holds.
fn over(body: Type) -> (scheme: Scheme)
    ensures
        scheme.quantified@.len() == 1,
        stand_in(scheme.quantified@[0]) == element(),
        scheme.body@ == body@,
        scheme.required@.len() == 0,
{
    let mut quantified: Vec<Quantified> = Vec::new();
    quantified.push(Quantified::Parameter(TypeParameter::prelude(ELEMENT)));
    Scheme::over(quantified, body)
}

/// `push<T>(values: List<T>, value: T) -> List<T>`.
pub fn push() -> (scheme: Scheme)
    ensures
        scheme.quantified@.len() == 1,
        stand_in(scheme.quantified@[0]) == element(),
        scheme.body@ == push_type(),
{
    let mut taken: Vec<Type> = Vec::new();
    taken.push(Type::list(element_type()));
    taken.push(element_type());
    proof {
        lemma_views_of(taken@);
        assert(views_of(taken@) =~= seq![TypeView::Named(LIST@, seq![element()]), element()]);
    }
    over(Type::function(taken, Type::list(element_type())))
}

/// `at<T>(values: List<T>, index: Int) -> Option<T>`.
pub fn at() -> (scheme: Scheme)
    ensures
        scheme.quantified@.len() == 1,
        stand_in(scheme.quantified@[0]) == element(),
        scheme.body@ == at_type(),
{
    let mut taken: Vec<Type> = Vec::new();
    taken.push(Type::list(element_type()));
    taken.push(Type::integer());
    proof {
        lemma_views_of(taken@);
        assert(views_of(taken@) =~= seq![TypeView::Named(LIST@, seq![element()]), plain(INT@)]);
    }
    over(Type::function(taken, Type::option(element_type())))
}

/// The type the function the compiler holds under `name` has: `push`'s, or else `at`'s.
pub fn written_as(name: &str) -> (scheme: Scheme)
    ensures
        scheme.quantified@.len() == 1,
        stand_in(scheme.quantified@[0]) == element(),
        scheme.body@ == if name@ == PUSH@ {
            push_type()
        } else {
            at_type()
        },
{
    if same_text(name, PUSH) {
        return push();
    }
    at()
}

/// Each of `names` with the type the compiler gives it.
fn schemes_of(names: Vec<&'static str>) -> (schemes: Vec<(&'static str, Scheme)>)
    ensures
        schemes@.len() == names@.len(),
        forall|k: int|
            0 <= k < names@.len() ==> (#[trigger] schemes@[k]).0 == names@[k] && schemes@[k].1.body@
                == if names@[k]@ == PUSH@ {
                push_type()
            } else {
                at_type()
            } && schemes@[k].1.quantified@.len() == 1,
{
    let mut schemes: Vec<(&'static str, Scheme)> = Vec::new();
    let mut i: usize = 0;
    while i < names.len()
        invariant
            i <= names@.len(),
            schemes@.len() == i,
            forall|k: int|
                0 <= k < i ==> (#[trigger] schemes@[k]).0 == names@[k] && schemes@[k].1.body@
                    == if names@[k]@ == PUSH@ {
                    push_type()
                } else {
                    at_type()
                } && schemes@[k].1.quantified@.len() == 1,
        decreases names.len() - i,
    {
        schemes.push((names[i], written_as(names[i])));
        i = i + 1;
    }
    schemes
}

/// What the source of `module` writes of them, which is the prelude's alone: it imports nothing,
/// and its instances over `List<T>` read a list with `at`.
pub fn held_for(module: &str) -> (schemes: Vec<(&'static str, Scheme)>)
    ensures
        crate::text::slice_texts(schemes@.map_values(|one: (&'static str, Scheme)| one.0))
            == if module@ == crate::library::PRELUDE@ {
            crate::prelude::held_function_names()
        } else {
            Seq::<Seq<char>>::empty()
        },
        forall|k: int|
            0 <= k < schemes@.len() ==> (#[trigger] schemes@[k]).1.body@ == if schemes@[k].0@
                == PUSH@ {
                push_type()
            } else {
                at_type()
            },
{
    let names = names_held_for(module);
    let schemes = schemes_of(names);
    proof {
        assert(crate::text::slice_texts(schemes@.map_values(|one: (&'static str, Scheme)| one.0))
            =~= crate::text::slice_texts(names@));
    }
    schemes
}

/// What `module` offers of what the compiler holds, which is nothing for every module but one,
/// and each of those is generic.
pub fn offered_by_the_compiler(module: &str) -> (offered: Vec<(String, Offered)>)
    ensures
        crate::text::texts(offered@.map_values(|one: (String, Offered)| one.0))
            == if module@ == crate::prelude::LIST@ {
            crate::prelude::held_function_names()
        } else {
            Seq::<Seq<char>>::empty()
        },
        forall|k: int| 0 <= k < offered@.len() ==> (#[trigger] offered@[k]).1 is Generic,
{
    let names = offered_by(module);
    let mut schemes = schemes_of(names);
    let mut reversed: Vec<(String, Offered)> = Vec::new();
    let ghost all = schemes@;
    while schemes.len() > 0
        invariant
            reversed@.len() + schemes@.len() == all.len(),
            schemes@ == all.take(schemes@.len() as int),
            forall|k: int| 0 <= k < all.len() ==> (#[trigger] all[k]).1.quantified@.len() == 1,
            forall|k: int|
                0 <= k < reversed@.len() ==> (#[trigger] reversed@[k]).0@ == all[all.len() - 1 - k].0@
                    && reversed@[k].1 is Generic,
        decreases schemes.len(),
    {
        let ghost before = schemes@;
        let (name, scheme) = schemes.pop().unwrap();
        assert(before.take(schemes@.len() as int) =~= schemes@);
        reversed.push((String::from_str(name), Offered::of(scheme)));
    }
    let mut offered: Vec<(String, Offered)> = Vec::new();
    while reversed.len() > 0
        invariant
            offered@.len() + reversed@.len() == all.len(),
            forall|k: int|
                0 <= k < reversed@.len() ==> (#[trigger] reversed@[k]).0@ == all[all.len() - 1 - k].0@
                    && reversed@[k].1 is Generic,
            forall|k: int|
                0 <= k < offered@.len() ==> (#[trigger] offered@[k]).0@ == all[k].0@ && offered@[k].1 is Generic,
        decreases reversed.len(),
    {
        let one = reversed.pop().unwrap();
        offered.push(one);
    }
    proof {
        assert(crate::text::texts(offered@.map_values(|one: (String, Offered)| one.0))
            =~= crate::text::slice_texts(names@));
    }
    offered
}

} // verus!
