//! What a trait declares, and what the instance of a type owes it.
//!
//! Three shapes are resolved here: a trait's signatures, read against the one type parameter it
//! is written over; an instance, read against the trait it names; and a constraint, which names a
//! trait where a type parameter is introduced.
use vstd::prelude::*;

use crate::ast::{DeriveDeclaration, Function, InstanceDeclaration, Name, Signature};
use crate::ast::{TraitDeclaration, TypeParameter};
use crate::definition::{DefinitionKind, Namespace, Origin};
use crate::error::{ResolveError, ResolveErrorKind};
use crate::prelude::{derivable_names, first_where, is_derivable, lemma_first_where, Supplied};
use crate::resolve::model;
use crate::resolve::{Resolved, Resolver};
use crate::text::{copied_strings, holds_text, texts};

verus! {

/// Whether a trait the prelude supplies is the one called `name`.
pub open spec fn supplied_named(name: Seq<char>) -> spec_fn(Supplied) -> bool {
    |one: Supplied| one.name@ == name
}

/// Whether a trait this module declares is the one called `name`.
pub open spec fn declared_named(name: Seq<char>) -> spec_fn((String, Vec<String>)) -> bool {
    |one: (String, Vec<String>)| one.0@ == name
}

/// The methods of the prelude's trait called `name`, and none where it has no such trait.
pub open spec fn methods_supplied(traits: Seq<Supplied>, name: Seq<char>) -> Seq<Seq<char>> {
    match first_where(traits, supplied_named(name)) {
        Some(k) => texts(traits[k].methods@),
        None => Seq::empty(),
    }
}

/// The methods of this module's trait called `name`, and none where it declares no such trait.
pub open spec fn methods_declared(traits: Seq<(String, Vec<String>)>, name: Seq<char>) -> Seq<
    Seq<char>,
> {
    match first_where(traits, declared_named(name)) {
        Some(k) => texts(traits[k].1@),
        None => Seq::empty(),
    }
}

/// The texts of the claims of instances: each trait with the type it has an instance for.
pub open spec fn claims(instances: Seq<(String, String)>) -> Seq<(Seq<char>, Seq<char>)> {
    instances.map_values(|one: (String, String)| (one.0@, one.1@))
}

/// The names the methods of an instance are written with, in order.
pub open spec fn written_names(methods: Seq<Function>) -> Seq<Seq<char>> {
    methods.map_values(|method: Function| method.name.text@)
}

/// The names the methods of a signature list are written with, in order.
pub open spec fn signature_names(methods: Seq<Signature>) -> Seq<Seq<char>> {
    methods.map_values(|method: Signature| method.name.text@)
}

/// Whether the method written at `k` is refused: its trait never declared it, or a method
/// before it already has its name.
pub open spec fn method_refused(names: Seq<Seq<char>>, declared: Seq<Seq<char>>, k: int) -> bool {
    !declared.contains(names[k]) || names.take(k).contains(names[k])
}

/// The first method written at `from` or after that is refused.
pub open spec fn first_refused(names: Seq<Seq<char>>, declared: Seq<Seq<char>>, from: int) -> Option<
    int,
>
    decreases names.len() - from,
{
    if 0 <= from < names.len() {
        if method_refused(names, declared, from) {
            Some(from)
        } else {
            first_refused(names, declared, from + 1)
        }
    } else {
        None
    }
}

/// Whether a method a trait declares is one an instance does not write.
pub open spec fn unwritten(names: Seq<Seq<char>>) -> spec_fn(String) -> bool {
    |wanted: String| !names.contains(wanted@)
}

impl Resolver {
    /// Whether the walk has left every table alone: the instances claimed, this module's traits,
    /// and the prelude's.
    pub(crate) open spec fn keeps_tables(&self, before: &Resolver) -> bool {
        &&& self.instances@ == before.instances@
        &&& self.declared_traits@ == before.declared_traits@
        &&& self.prelude_traits@ == before.prelude_traits@
    }

    /// A trait names itself among the types, and names each of its methods among the values.
    ///
    /// An instance declares nothing: two instances each write `equals`, and the name both of
    /// them answer for is the trait's.
    pub(crate) fn declare_trait(&mut self, declaration: &TraitDeclaration) -> (resolved: Resolved)
        requires
            old(self).well_formed(),
        ensures
            model::outcome(resolved, final(self).walk(), model::spec_declare_trait(old(self).walk(), *declaration)),
            final(self).well_formed(),
            final(self).keeps(old(self)),
            final(self).instances@ == old(self).instances@,
            resolved is Ok ==> final(self).both_grown_inside(old(self)),
            resolved is Ok ==> final(self).declared_traits@.len() == old(self).declared_traits@.len()
                + 1,
            resolved is Ok ==> final(self).declared_traits@.drop_last()
                == old(self).declared_traits@,
            resolved is Ok ==> final(self).declared_traits@.last().0@ == declaration.name.text@,
            resolved is Ok ==> texts(final(self).declared_traits@.last().1@) == signature_names(
                declaration.methods@,
            ),
            resolved is Err ==> final(self).declared_traits@ == old(self).declared_traits@,
    {
        self.introduce_type(&declaration.name, DefinitionKind::Trait)?;
        let mut methods: Vec<String> = Vec::new();
        let mut i: usize = 0;
        while i < declaration.methods.len()
            invariant
                methods@ == model::method_strings(declaration.methods@).take(i as int),
                model::spec_declare_trait(old(self).walk(), *declaration) == match model::spec_introduce_values(self.walk(), model::method_names(declaration.methods@), DefinitionKind::TraitMethod, i as int) { Ok(named) => Ok(model::Walk { declared: named.declared.push((declaration.name.text, model::method_strings(declaration.methods@))), ..named }), Err(error) => Err(error) },
                self.well_formed(),
                self.keeps_tables(old(self)),
                self.both_grown_inside(old(self)),
                i <= declaration.methods@.len(),
                texts(methods@) == signature_names(declaration.methods@).take(i as int),
            decreases declaration.methods.len() - i,
        {
            self.introduce_value(&declaration.methods[i].name, DefinitionKind::TraitMethod)?;
            let ghost before = methods@;
            methods.push(declaration.methods[i].name.text.clone());
            assert(texts(methods@) =~= texts(before).push(declaration.methods@[i as int].name.text@));
            assert(signature_names(declaration.methods@).take(i + 1) =~= signature_names(
                declaration.methods@,
            ).take(i as int).push(declaration.methods@[i as int].name.text@));
            i = i + 1;
        }
        assert(signature_names(declaration.methods@).take(i as int) =~= signature_names(
            declaration.methods@,
        ));
        let ghost before = self.declared_traits@;
        let ghost named = self.walk();
        proof {
            assert(model::method_strings(declaration.methods@).take(i as int) =~= model::method_strings(
                declaration.methods@,
            ));
        }
        self.declared_traits.push((declaration.name.text.clone(), methods));
        assert(self.declared_traits@.drop_last() =~= before);
        assert(self.walk().declared =~= named.declared.push(
            (declaration.name.text, model::method_strings(declaration.methods@)),
        ));
        Ok(())
    }

    /// A trait's signatures, each read against the one type parameter the trait is written over.
    pub(crate) fn trait_declaration(&mut self, declaration: &TraitDeclaration) -> (resolved:
        Resolved)
        requires
            old(self).well_formed(),
        ensures
            model::outcome(resolved, final(self).walk(), model::spec_trait_declaration(old(self).walk(), *declaration)),
            final(self).well_formed(),
            final(self).keeps_tables(old(self)),
            resolved is Ok ==> final(self).same_scopes(old(self)),
    {
        self.types.enter();
        let ghost entered = *self;
        self.introduce_type(&declaration.parameter, DefinitionKind::TypeParameter)?;
        let mut i: usize = 0;
        while i < declaration.methods.len()
            invariant
                model::spec_trait_declaration(old(self).walk(), *declaration) == match model::spec_signatures(self.walk(), declaration.methods@, i as int) { Ok(read) => Ok(model::leave_types(read)), Err(error) => Err(error) },
                self.well_formed(),
                self.keeps_tables(old(self)),
                self.types.layers().len() == entered.types.layers().len(),
                self.types.layers().drop_last() == entered.types.layers().drop_last(),
                self.values.layers() == old(self).values.layers(),
                entered.types.layers().drop_last() == old(self).types.layers(),
            decreases declaration.methods.len() - i,
        {
            self.signature(&declaration.methods[i])?;
            i = i + 1;
        }
        self.types.leave();
        Ok(())
    }

    /// One signature: the types it names, and the parameter names it takes while it names them.
    fn signature(&mut self, method: &Signature) -> (resolved: Resolved)
        requires
            old(self).well_formed(),
        ensures
            model::outcome(resolved, final(self).walk(), model::spec_signature(old(self).walk(), *method)),
            final(self).well_formed(),
            final(self).keeps_tables(old(self)),
            resolved is Ok ==> final(self).same_scopes(old(self)),
    {
        self.values.enter();
        let ghost entered = *self;
        let mut i: usize = 0;
        while i < method.parameters.len()
            invariant
                model::spec_signature(old(self).walk(), *method) == match model::spec_parameters(self.walk(), method.parameters@, i as int) { Ok(after) => match model::spec_type_ref_if(after, method.result) { Ok(read) => Ok(model::leave_values(read)), Err(error) => Err(error) }, Err(error) => Err(error) },
                self.well_formed(),
                self.keeps_tables(old(self)),
                self.grown_inside(&entered),
                entered.values.layers().drop_last() == old(self).values.layers(),
                entered.types.layers() == old(self).types.layers(),
            decreases method.parameters.len() - i,
        {
            match &method.parameters[i].type_ref {
                Some(type_ref) => self.type_ref(type_ref)?,
                None => {},
            }
            self.introduce_value(&method.parameters[i].name, DefinitionKind::Parameter)?;
            i = i + 1;
        }
        match &method.result {
            Some(result) => self.type_ref(result)?,
            None => {},
        }
        self.values.leave();
        Ok(())
    }

    /// An instance: the trait it is for, the type it is for, and a body per declared method.
    ///
    /// Each method is written over the parameters the instance declares, so resolving a method
    /// introduces them exactly as a generic function does.
    pub(crate) fn instance(&mut self, declaration: &InstanceDeclaration) -> (resolved: Resolved)
        requires
            old(self).well_formed(),
        ensures
            model::outcome(resolved, final(self).walk(), model::spec_instance(old(self).walk(), *declaration)),
            final(self).well_formed(),
            final(self).keeps(old(self)),
            final(self).declared_traits@ == old(self).declared_traits@,
            resolved is Ok ==> final(self).same_scopes(old(self)),
            resolved is Ok ==> claims(final(self).instances@) == claims(old(self).instances@).push(
                (declaration.trait_name.text@, declaration.for_type.text@),
            ),
    {
        let declared = self.trait_named(&declaration.trait_name)?;
        self.named_type(&declaration.for_type)?;
        self.claimed(&declaration.trait_name, &declaration.for_type)?;
        writes_declared_names_once(declaration, &declared)?;
        writes_every_one(declaration, &declared)?;
        let ghost claimed = *self;
        let mut i: usize = 0;
        while i < declaration.methods.len()
            invariant
                model::spec_instance(old(self).walk(), *declaration) == model::spec_functions(self.walk(), declaration.methods@, i as int),
                self.well_formed(),
                self.keeps_tables(&claimed),
                self.same_scopes(old(self)),
                claimed.prelude_traits@ == old(self).prelude_traits@,
                claimed.declared_traits@ == old(self).declared_traits@,
                claims(claimed.instances@) == claims(old(self).instances@).push(
                    (declaration.trait_name.text@, declaration.for_type.text@),
                ),
            decreases declaration.methods.len() - i,
        {
            self.function(&declaration.methods[i])?;
            i = i + 1;
        }
        Ok(())
    }

    /// A derive: each trait it names, and the type the compiler writes the instances for.
    ///
    /// A derive writes an instance, so it claims what an instance claims and is refused where an
    /// instance would be.
    pub(crate) fn derive(&mut self, declaration: &DeriveDeclaration) -> (resolved: Resolved)
        requires
            old(self).well_formed(),
        ensures
            model::outcome(resolved, final(self).walk(), model::spec_derive(old(self).walk(), *declaration)),
            final(self).well_formed(),
            final(self).keeps(old(self)),
            final(self).declared_traits@ == old(self).declared_traits@,
            final(self).same_scopes(old(self)),
            resolved is Ok ==> claims(final(self).instances@).len() == claims(
                old(self).instances@,
            ).len() + declaration.traits@.len(),
            resolved is Ok ==> forall|k: int|
                0 <= k < declaration.traits@.len() ==> derivable_names().contains(
                    #[trigger] declaration.traits@[k].text@,
                ),
    {
        self.named_type(&declaration.for_type)?;
        self.declared_here(&declaration.for_type)?;
        let mut i: usize = 0;
        while i < declaration.traits.len()
            invariant
                model::spec_derive(old(self).walk(), *declaration) == model::spec_derived(self.walk(), declaration.traits@, declaration.for_type, i as int),
                self.well_formed(),
                self.keeps(old(self)),
                self.declared_traits@ == old(self).declared_traits@,
                self.same_scopes(old(self)),
                i <= declaration.traits@.len(),
                claims(self.instances@).len() == claims(old(self).instances@).len() + i,
                forall|k: int|
                    0 <= k < i ==> derivable_names().contains(
                        #[trigger] declaration.traits@[k].text@,
                    ),
            decreases declaration.traits.len() - i,
        {
            let named = &declaration.traits[i];
            self.trait_named(named)?;
            derivable(named)?;
            self.claimed(named, &declaration.for_type)?;
            i = i + 1;
        }
        Ok(())
    }

    /// Refuses a derive for a type this module does not declare, which it writes nothing for.
    ///
    /// What a derive writes follows from the declaration it names, so the declaration has to be
    /// here to be read. A prelude type has the instances the prelude ships and no others.
    fn declared_here(&self, for_type: &Name) -> (resolved: Resolved)
        ensures
            resolved == if self.types.meaning(for_type.text@) matches Some(found)
                && found.origin is Declared {
                Ok::<(), ResolveError>(())
            } else {
                Err(
                    ResolveError {
                        kind: ResolveErrorKind::NotDeclaredHere(for_type.text),
                        span: for_type.span,
                    },
                )
            },
    {
        let declared = match self.types.look_up(&for_type.text) {
            Some(found) => match found.origin {
                Origin::Declared(_) => true,
                Origin::Prelude => false,
            },
            None => false,
        };
        if declared {
            return Ok(());
        }
        let kind = ResolveErrorKind::NotDeclaredHere(for_type.text.clone());
        Err(ResolveError::at(for_type, kind))
    }

    /// Records that this trait now has an instance for this type, refusing a second one.
    pub(crate) fn claimed(&mut self, of: &Name, for_type: &Name) -> (resolved: Resolved)
        requires
            old(self).well_formed(),
        ensures
            model::outcome(resolved, final(self).walk(), model::spec_claimed(old(self).walk(), *of, *for_type)),
            final(self).well_formed(),
            final(self).keeps(old(self)),
            final(self).same_scopes(old(self)),
            final(self).definitions@ == old(self).definitions@,
            final(self).declared_traits@ == old(self).declared_traits@,
            if claims(old(self).instances@).contains((of.text@, for_type.text@)) {
                &&& resolved == Err::<(), ResolveError>(
                    ResolveError {
                        kind: ResolveErrorKind::InstanceTwice {
                            of: of.text,
                            for_type: for_type.text,
                        },
                        span: for_type.span,
                    },
                )
                &&& final(self).instances@ == old(self).instances@
            } else {
                &&& resolved is Ok
                &&& claims(final(self).instances@) == claims(old(self).instances@).push(
                    (of.text@, for_type.text@),
                )
            },
    {
        if self.holds_claim(of, for_type) {
            let kind = ResolveErrorKind::InstanceTwice {
                of: of.text.clone(),
                for_type: for_type.text.clone(),
            };
            return Err(ResolveError::at(for_type, kind));
        }
        let ghost before = self.instances@;
        self.instances.push((of.text.clone(), for_type.text.clone()));
        assert(claims(self.instances@) =~= claims(before).push((of.text@, for_type.text@)));
        Ok(())
    }

    /// Whether this trait already has an instance for this type.
    fn holds_claim(&self, of: &Name, for_type: &Name) -> (holds: bool)
        ensures
            holds == claims(self.instances@).contains((of.text@, for_type.text@)),
    {
        let mut i: usize = 0;
        while i < self.instances.len()
            invariant
                i <= self.instances@.len(),
                forall|j: int|
                    0 <= j < i ==> #[trigger] claims(self.instances@)[j] != (
                        of.text@,
                        for_type.text@,
                    ),
            decreases self.instances.len() - i,
        {
            if self.instances[i].0 == of.text && self.instances[i].1 == for_type.text {
                assert(claims(self.instances@)[i as int] == (of.text@, for_type.text@));
                return true;
            }
            i = i + 1;
        }
        proof {
            if claims(self.instances@).contains((of.text@, for_type.text@)) {
                let k = choose|k: int|
                    0 <= k < claims(self.instances@).len() && claims(self.instances@)[k] == (
                        of.text@,
                        for_type.text@,
                    );
                assert(claims(self.instances@)[k] != (of.text@, for_type.text@));
            }
        }
        false
    }

    /// The trait a type parameter is constrained by, when the author wrote one.
    ///
    /// The constraint is read after every type parameter is in scope, so `<T: Eq<T>>` names `T`
    /// where the declaration has just introduced it.
    pub(crate) fn constrained(&mut self, parameter: &TypeParameter) -> (resolved: Resolved)
        requires
            old(self).well_formed(),
        ensures
            model::outcome(resolved, final(self).walk(), model::spec_constrained(old(self).walk(), *parameter)),
            final(self).well_formed(),
            final(self).keeps_tables(old(self)),
            final(self).same_scopes(old(self)),
    {
        match &parameter.constraint {
            None => Ok(()),
            Some(constraint) => {
                self.trait_named(&constraint.name)?;
                self.type_ref(&constraint.argument)
            },
        }
    }

    /// The names of the methods the trait `name` declares, refusing anything that is no trait.
    pub(crate) fn trait_named(&mut self, name: &Name) -> (named: Result<Vec<String>, ResolveError>)
        requires
            old(self).well_formed(),
        ensures
            match crate::resolve::model::spec_trait_named(old(self).walk(), *name) {
                Ok((after, methods)) => named matches Ok(found) && found@ == methods && final(self).walk() == after,
                Err(error) => named == Err::<Vec<String>, ResolveError>(error),
            },
            final(self).well_formed(),
            final(self).keeps_tables(old(self)),
            final(self).same_scopes(old(self)),
            match old(self).types.meaning(name.text@) {
                None => named == Err::<Vec<String>, ResolveError>(
                    ResolveError { kind: ResolveErrorKind::NoType(name.text), span: name.span },
                ) && final(self).definitions@ == old(self).definitions@,
                Some(found) => {
                    &&& final(self).definitions@ == old(self).definitions@.insert(
                        (Namespace::Type, name.span),
                        found,
                    )
                    &&& if found.kind != DefinitionKind::Trait {
                        named == Err::<Vec<String>, ResolveError>(
                            ResolveError {
                                kind: ResolveErrorKind::NotATrait(name.text),
                                span: name.span,
                            },
                        )
                    } else if found.origin is Prelude {
                        named matches Ok(methods) && texts(methods@) == methods_supplied(
                            old(self).prelude_traits@,
                            name.text@,
                        )
                    } else {
                        named matches Ok(methods) && texts(methods@) == methods_declared(
                            old(self).declared_traits@,
                            name.text@,
                        )
                    }
                },
            },
    {
        self.use_type(name)?;
        let found = match self.types.look_up(&name.text) {
            Some(found) => found,
            None => return Err(ResolveError::at(name, ResolveErrorKind::NotATrait(name.text.clone()))),
        };
        if found.kind != DefinitionKind::Trait {
            let kind = ResolveErrorKind::NotATrait(name.text.clone());
            return Err(ResolveError::at(name, kind));
        }
        match found.origin {
            Origin::Prelude => Ok(self.methods_supplied_for(name)),
            Origin::Declared(_) => Ok(self.methods_declared_at(name)),
        }
    }

    /// The methods of the prelude's trait called `name`, read off what the prelude supplies.
    fn methods_supplied_for(&self, name: &Name) -> (methods: Vec<String>)
        ensures
            texts(methods@) == methods_supplied(self.prelude_traits@, name.text@),
            methods@ == crate::resolve::model::supplied_methods(self.walk().supplied, name.text@),
    {
        let ghost wanted = supplied_named(name.text@);
        let ghost viewed = self.walk().supplied;
        let ghost wanted_view = crate::resolve::model::supplied_trait_named(name.text@);
        let mut i: usize = 0;
        while i < self.prelude_traits.len()
            invariant
                i <= self.prelude_traits@.len(),
                wanted == supplied_named(name.text@),
                wanted_view == crate::resolve::model::supplied_trait_named(name.text@),
                viewed == self.walk().supplied,
                forall|j: int| 0 <= j < i ==> !wanted(#[trigger] self.prelude_traits@[j]),
                forall|j: int| 0 <= j < i ==> !wanted_view(#[trigger] viewed[j]),
            decreases self.prelude_traits.len() - i,
        {
            assert(viewed[i as int] == (self.prelude_traits@[i as int].name@, self.prelude_traits@[i as int].methods@));
            if self.prelude_traits[i].name == name.text {
                proof {
                    lemma_first_where(self.prelude_traits@, wanted, i as int);
                    lemma_first_where(viewed, wanted_view, i as int);
                }
                return copied_strings(&self.prelude_traits[i].methods);
            }
            i = i + 1;
        }
        proof {
            if crate::prelude::first_where(viewed, wanted_view) is Some {
                crate::prelude::lemma_first_where_bounds(viewed, wanted_view);
                let k = crate::prelude::first_where(viewed, wanted_view)->0;
                assert(!wanted_view(viewed[k]));
            }
        }
        let none: Vec<String> = Vec::new();
        assert(texts(none@) =~= Seq::<Seq<char>>::empty());
        none
    }

    /// The methods of the trait this module declares at `name`, read off the declaration.
    fn methods_declared_at(&self, name: &Name) -> (methods: Vec<String>)
        ensures
            texts(methods@) == methods_declared(self.declared_traits@, name.text@),
            methods@ == crate::resolve::model::declared_methods(self.walk().declared, name.text@),
    {
        let ghost wanted = declared_named(name.text@);
        let ghost viewed = self.walk().declared;
        let ghost wanted_view = crate::resolve::model::declared_trait_named(name.text@);
        let mut i: usize = 0;
        while i < self.declared_traits.len()
            invariant
                i <= self.declared_traits@.len(),
                wanted == declared_named(name.text@),
                wanted_view == crate::resolve::model::declared_trait_named(name.text@),
                viewed == self.walk().declared,
                forall|j: int| 0 <= j < i ==> !wanted(#[trigger] self.declared_traits@[j]),
                forall|j: int| 0 <= j < i ==> !wanted_view(#[trigger] viewed[j]),
            decreases self.declared_traits.len() - i,
        {
            assert(viewed[i as int] == (self.declared_traits@[i as int].0, self.declared_traits@[i as int].1@));
            if self.declared_traits[i].0 == name.text {
                proof {
                    lemma_first_where(self.declared_traits@, wanted, i as int);
                    lemma_first_where(viewed, wanted_view, i as int);
                }
                return copied_strings(&self.declared_traits[i].1);
            }
            i = i + 1;
        }
        proof {
            if crate::prelude::first_where(viewed, wanted_view) is Some {
                crate::prelude::lemma_first_where_bounds(viewed, wanted_view);
                let k = crate::prelude::first_where(viewed, wanted_view)->0;
                assert(!wanted_view(viewed[k]));
            }
        }
        let none: Vec<String> = Vec::new();
        assert(texts(none@) =~= Seq::<Seq<char>>::empty());
        none
    }
}

/// Refuses a trait that is not one a type derives, naming the trait the module wrote.
fn derivable(named: &Name) -> (resolved: Resolved)
    ensures
        resolved == if derivable_names().contains(named.text@) {
            Ok::<(), ResolveError>(())
        } else {
            Err(ResolveError { kind: ResolveErrorKind::NotDerivable(named.text), span: named.span })
        },
{
    if is_derivable(named.text.as_str()) {
        return Ok(());
    }
    let kind = ResolveErrorKind::NotDerivable(named.text.clone());
    Err(ResolveError::at(named, kind))
}

/// Refuses the first method an instance writes that its trait never declared, or writes twice.
///
/// The two are one walk over the names an instance writes, because an instance's method names
/// are its trait's: a name here is one the trait declares and has yet to be written, or it is a
/// refusal. A name written twice would put no second name in scope, so one of the two bodies
/// would be reached and the other lost.
fn writes_declared_names_once(declaration: &InstanceDeclaration, declared: &Vec<String>) -> (resolved:
    Resolved)
    ensures
        resolved == model::spec_names_once(*declaration, declared@),
        match first_refused(written_names(declaration.methods@), texts(declared@), 0) {
            None => resolved is Ok,
            Some(k) => resolved == Err::<(), ResolveError>(
                ResolveError {
                    kind: if !texts(declared@).contains(
                        written_names(declaration.methods@)[k],
                    ) {
                        ResolveErrorKind::MethodUndeclared {
                            of: declaration.trait_name.text,
                            method: declaration.methods@[k].name.text,
                        }
                    } else {
                        ResolveErrorKind::MethodTwice {
                            of: declaration.trait_name.text,
                            method: declaration.methods@[k].name.text,
                        }
                    },
                    span: declaration.methods@[k].name.span,
                },
            ),
        },
{
    let ghost names = written_names(declaration.methods@);
    let mut written: Vec<String> = Vec::new();
    let mut i: usize = 0;
    while i < declaration.methods.len()
        invariant
            i <= declaration.methods@.len(),
            names == written_names(declaration.methods@),
            texts(written@) == names.take(i as int),
            first_refused(names, texts(declared@), 0) == first_refused(
                names,
                texts(declared@),
                i as int,
            ),
        decreases declaration.methods.len() - i,
    {
        let name = &declaration.methods[i].name;
        let of = declaration.trait_name.text.clone();
        if !holds_text(declared, &name.text) {
            let kind = ResolveErrorKind::MethodUndeclared { of, method: name.text.clone() };
            return Err(ResolveError::at(name, kind));
        }
        if holds_text(&written, &name.text) {
            let kind = ResolveErrorKind::MethodTwice { of, method: name.text.clone() };
            return Err(ResolveError::at(name, kind));
        }
        let ghost before = written@;
        written.push(name.text.clone());
        assert(texts(written@) =~= texts(before).push(name.text@));
        assert(names.take(i + 1) =~= names.take(i as int).push(names[i as int]));
        i = i + 1;
    }
    Ok(())
}

/// Refuses the first method an instance's trait declares that the instance does not write.
fn writes_every_one(declaration: &InstanceDeclaration, declared: &Vec<String>) -> (resolved:
    Resolved)
    ensures
        resolved == model::spec_every_one(*declaration, declared@),
        match first_where(declared@, unwritten(written_names(declaration.methods@))) {
            None => resolved is Ok,
            Some(k) => resolved == Err::<(), ResolveError>(
                ResolveError {
                    kind: ResolveErrorKind::MethodMissing {
                        of: declaration.trait_name.text,
                        method: declared@[k],
                    },
                    span: declaration.trait_name.span,
                },
            ),
        },
{
    let ghost wanted = unwritten(written_names(declaration.methods@));
    let mut i: usize = 0;
    while i < declared.len()
        invariant
            i <= declared@.len(),
            wanted == unwritten(written_names(declaration.methods@)),
            forall|j: int| 0 <= j < i ==> !wanted(#[trigger] declared@[j]),
        decreases declared.len() - i,
    {
        if !writes(&declaration.methods, &declared[i]) {
            proof {
                lemma_first_where(declared@, wanted, i as int);
            }
            let kind = ResolveErrorKind::MethodMissing {
                of: declaration.trait_name.text.clone(),
                method: declared[i].clone(),
            };
            return Err(ResolveError::at(&declaration.trait_name, kind));
        }
        i = i + 1;
    }
    Ok(())
}

/// Whether one of `methods` is written with the name `wanted`.
fn writes(methods: &Vec<Function>, wanted: &String) -> (found: bool)
    ensures
        found == written_names(methods@).contains(wanted@),
{
    let mut i: usize = 0;
    while i < methods.len()
        invariant
            i <= methods@.len(),
            forall|j: int| 0 <= j < i ==> methods@[j].name.text@ != wanted@,
        decreases methods.len() - i,
    {
        if methods[i].name.text == *wanted {
            assert(written_names(methods@)[i as int] == wanted@);
            return true;
        }
        i = i + 1;
    }
    proof {
        if written_names(methods@).contains(wanted@) {
            let k = choose|k: int|
                0 <= k < written_names(methods@).len() && written_names(methods@)[k] == wanted@;
            assert(methods@[k].name.text@ == wanted@);
        }
    }
    false
}

} // verus!
