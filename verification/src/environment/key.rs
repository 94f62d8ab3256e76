//! What a name is filed under, and the stand-ins a declaration is written over.
//!
//! One flat table holds a whole module, so a name is known by where it was defined rather than by
//! how it is spelled: name resolution has already ruled out two definitions sharing a name.
use vstd::prelude::*;

use crate::ast::{Name, Span, TypeParameter as WrittenParameter};
use crate::definition::{Definition, Origin};
use crate::filed::FiledBy;
use crate::scheme::{stand_in, stand_ins, Quantified};
use crate::text::same_text;
use crate::types::{Type, TypeParameter, TypeView};

verus! {

/// Where a name was defined, which is what a type is filed under.
#[derive(Debug, PartialEq, Eq)]
pub enum Key {
    /// A name this module declares, known by the place it is declared.
    Declared(Span),
    /// A name the prelude supplies, known by the one spelling it has.
    Prelude(String),
    /// A name another module declares, known by the name this module reaches it through.
    Reached(String),
}

/// A key as the specifications read it.
pub enum KeyView {
    Declared(Span),
    Prelude(Seq<char>),
    Reached(Seq<char>),
}

impl View for Key {
    type V = KeyView;

    open spec fn view(&self) -> KeyView {
        match self {
            Key::Declared(span) => KeyView::Declared(*span),
            Key::Prelude(name) => KeyView::Prelude(name@),
            Key::Reached(name) => KeyView::Reached(name@),
        }
    }
}

impl FiledBy for Key {
    fn same_as(&self, other: &Self) -> (same: bool) {
        match (self, other) {
            (Key::Declared(one), Key::Declared(two)) => one.start == two.start && one.end
                == two.end,
            (Key::Prelude(one), Key::Prelude(two)) => same_text(one.as_str(), two.as_str()),
            (Key::Reached(one), Key::Reached(two)) => same_text(one.as_str(), two.as_str()),
            _ => false,
        }
    }
}

/// The key of a use of a name spelled `text`, which `definition` says where to find.
pub open spec fn spec_key_of(definition: Definition, text: Seq<char>) -> KeyView {
    match definition.origin {
        Origin::Declared(span) => KeyView::Declared(span),
        Origin::Prelude => KeyView::Prelude(text),
    }
}

impl Key {
    /// A key filed under the same place or spelling as this one.
    pub fn copied(&self) -> (copy: Key)
        ensures
            copy@ == self@,
    {
        match self {
            Key::Declared(span) => Key::Declared(*span),
            Key::Prelude(name) => Key::Prelude(name.clone()),
            Key::Reached(name) => Key::Reached(name.clone()),
        }
    }

    /// The key of a use of `name`, which `definition` says where to find.
    pub fn of(definition: Definition, name: &Name) -> (key: Key)
        ensures
            key@ == spec_key_of(definition, name.text@),
    {
        match definition.origin {
            Origin::Declared(span) => Key::Declared(span),
            Origin::Prelude => Key::Prelude(name.text.clone()),
        }
    }

    /// The key of the declaration `name` is the name of.
    pub fn at(name: &Name) -> (key: Key)
        ensures
            key@ == KeyView::Declared(name.span),
    {
        Key::Declared(name.span)
    }

    /// The key of a name another module declares, which is `demo.User` as this module writes it.
    pub fn reached(name: &str) -> (key: Key)
        ensures
            key@ == KeyView::Reached(name@),
    {
        Key::Reached(name.to_string())
    }

    /// The key of a name the prelude supplies, which is its spelling.
    pub fn prelude(name: &str) -> (key: Key)
        ensures
            key@ == KeyView::Prelude(name@),
    {
        Key::Prelude(name.to_string())
    }
}

/// One constructor: where it is declared, what it labels, and what it carries.
pub struct Built {
    pub key: Key,
    pub labels: Vec<String>,
    pub carries: Vec<Type>,
}

/// The stand-in a parameter written as `name` is, where it is declared.
pub open spec fn written_stand_in(name: Name) -> TypeView {
    TypeView::Parameter(name.text@, Origin::Declared(name.span))
}

/// The stand-ins a declaration writing `parameters` is written over.
pub fn quantified(parameters: &Vec<Name>) -> (over: Vec<Quantified>)
    ensures
        stand_ins(over@) == parameters@.map_values(|name: Name| written_stand_in(name)),
{
    let mut over: Vec<Quantified> = Vec::new();
    let mut i: usize = 0;
    while i < parameters.len()
        invariant
            i <= parameters@.len(),
            over@.len() == i,
            forall|j: int| 0 <= j < i ==> stand_in(#[trigger] over@[j]) == written_stand_in(parameters@[j]),
        decreases parameters.len() - i,
    {
        over.push(Quantified::Parameter(TypeParameter::written(&parameters[i])));
        i = i + 1;
    }
    assert(stand_ins(over@) =~= parameters@.map_values(|name: Name| written_stand_in(name)));
    over
}

/// The stand-ins a function is written over, which are its type parameters constrained or not.
pub fn written_over(parameters: &Vec<WrittenParameter>) -> (over: Vec<Quantified>)
    ensures
        stand_ins(over@) == parameters@.map_values(
            |parameter: WrittenParameter| written_stand_in(parameter.name),
        ),
{
    let mut over: Vec<Quantified> = Vec::new();
    let mut i: usize = 0;
    while i < parameters.len()
        invariant
            i <= parameters@.len(),
            over@.len() == i,
            forall|j: int| 0 <= j < i ==> stand_in(#[trigger] over@[j]) == written_stand_in(parameters@[j].name),
        decreases parameters.len() - i,
    {
        over.push(Quantified::Parameter(TypeParameter::written(&parameters[i].name)));
        i = i + 1;
    }
    assert(stand_ins(over@) =~= parameters@.map_values(
        |parameter: WrittenParameter| written_stand_in(parameter.name),
    ));
    over
}

/// The parameter `name` is, which `definition` says where it was declared.
pub fn parameter_of(definition: Definition, name: &Name) -> (parameter: TypeParameter)
    ensures
        parameter.name@ == name.text@,
        parameter.origin == definition.origin,
{
    TypeParameter { name: name.text.clone(), origin: definition.origin }
}

} // verus!
