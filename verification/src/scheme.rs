//! A type, and what it stands for freshly at each use.
use vstd::prelude::*;
use vstd::string::*;

use crate::prelude::{first_where, lemma_first_where};
use crate::table::Table;
use crate::types::{lemma_views_of, views_of, Type, TypeParameter, TypeVar, TypeView};

verus! {

/// One stand-in a scheme is polymorphic over.
#[derive(Debug, PartialEq, Eq)]
pub enum Quantified {
    /// A variable inference made and then found nothing constrained.
    Var(TypeVar),
    /// A parameter a declaration wrote between its angle brackets.
    Parameter(TypeParameter),
}

/// The type a stand-in is written as where it stands in a type.
pub open spec fn stand_in(one: Quantified) -> TypeView {
    match one {
        Quantified::Var(var) => TypeView::Var(var),
        Quantified::Parameter(parameter) => TypeView::Parameter(parameter.name@, parameter.origin),
    }
}

/// The stand-ins of a sequence, as the types they are written as.
pub open spec fn stand_ins(quantified: Seq<Quantified>) -> Seq<TypeView> {
    quantified.map_values(|one: Quantified| stand_in(one))
}

/// What each stand-in is given, as the specifications read it.
pub open spec fn given_view(given: Seq<(Quantified, Type)>) -> Seq<(TypeView, TypeView)> {
    given.map_values(|one: (Quantified, Type)| (stand_in(one.0), one.1@))
}

/// What the stand-in written as `key` is given, the last word on it winning.
pub open spec fn given_to(given: Seq<(TypeView, TypeView)>, key: TypeView) -> Option<TypeView>
    decreases given.len(),
{
    if given.len() == 0 {
        None
    } else if given.last().0 == key {
        Some(given.last().1)
    } else {
        given_to(given.drop_last(), key)
    }
}

/// `within` with every stand-in `given` names replaced by what it is given.
pub open spec fn replaced(within: TypeView, given: Seq<(TypeView, TypeView)>) -> TypeView
    decreases within, 0int,
{
    match within {
        TypeView::Var(_) | TypeView::Parameter(_, _) => match given_to(given, within) {
            Some(at) => at,
            None => within,
        },
        TypeView::Named(name, arguments) => TypeView::Named(
            name,
            replaced_among(arguments, given, arguments.len() as int),
        ),
        TypeView::Function(parameters, result) => TypeView::Function(
            replaced_among(parameters, given, parameters.len() as int),
            Box::new(replaced(*result, given)),
        ),
        _ => within,
    }
}

/// The first `n` of `types`, each replaced.
pub open spec fn replaced_among(types: Seq<TypeView>, given: Seq<(TypeView, TypeView)>, n: int) -> Seq<
    TypeView,
>
    decreases types, n,
{
    if n <= 0 || n > types.len() {
        Seq::empty()
    } else {
        replaced_among(types, given, n - 1).push(replaced(types[n - 1], given))
    }
}

/// The first `n` replaced hold one type for each, each that type replaced.
pub proof fn lemma_replaced_among(types: Seq<TypeView>, given: Seq<(TypeView, TypeView)>, n: int)
    requires
        0 <= n <= types.len(),
    ensures
        replaced_among(types, given, n).len() == n,
        forall|k: int|
            0 <= k < n ==> #[trigger] replaced_among(types, given, n)[k] == replaced(
                types[k],
                given,
            ),
    decreases n,
{
    if n > 0 {
        lemma_replaced_among(types, given, n - 1);
    }
}

/// One constraint a declaration wrote: a trait, and the type it is asked of.
///
/// `fn holds<T: Eq<T>>` requires `Eq` of `T`, so every use of `holds` requires it of whatever
/// that use settled `T` on.
#[derive(Debug, PartialEq, Eq)]
pub struct Required {
    pub trait_name: String,
    pub at: Type,
}

/// A type together with the stand-ins it is polymorphic over.
///
/// `fn identity<T>(value: T) -> T` is a scheme over one parameter, so each call of it is free to
/// use a type of its own.
#[derive(Debug, PartialEq, Eq)]
pub struct Scheme {
    pub quantified: Vec<Quantified>,
    pub body: Type,
    /// The traits a use of this must answer for, each written over what this quantifies.
    pub required: Vec<Required>,
}

/// One use of a scheme: the type it has there, what it asks for, and what it settled.
#[derive(Debug, PartialEq, Eq)]
pub struct AtOneUse {
    pub found: Type,
    /// Each trait the use must answer for, at the type this use settled it at.
    pub required: Vec<Required>,
    /// What each stand-in the declaration wrote settled on, in the order it wrote them.
    pub settling: Vec<Type>,
    /// The trait constraining each of those stand-ins, in the same order.
    pub constrained: Vec<Option<String>>,
    /// The type the method written for this use has, which is not the type the use has.
    ///
    /// A generic is written at the types its written type parameters settled on and at nothing
    /// else, so a stand-in inference made is carried by whatever every value fits.
    pub written_as: Type,
}

/// The stand-ins a declaration wrote, in order, each with what `given` gives it.
pub open spec fn written_given(quantified: Seq<Quantified>, given: Seq<(TypeView, TypeView)>) -> Seq<
    TypeView,
>
    decreases quantified.len(),
{
    if quantified.len() == 0 {
        Seq::empty()
    } else {
        let rest = written_given(quantified.drop_last(), given);
        match quantified.last() {
            Quantified::Parameter(_) => match given_to(given, stand_in(quantified.last())) {
                Some(at) => rest.push(at),
                None => rest,
            },
            Quantified::Var(_) => rest,
        }
    }
}

/// Whether a constraint is written over `at`.
pub open spec fn written_over(at: TypeView) -> spec_fn((Seq<char>, TypeView)) -> bool {
    |one: (Seq<char>, TypeView)| one.1 == at
}

/// The trait of the first constraint written over `at`, where one is.
pub open spec fn required_over(required: Seq<(Seq<char>, TypeView)>, at: TypeView) -> Option<
    Seq<char>,
> {
    match first_where(required, written_over(at)) {
        Some(k) => Some(required[k].0),
        None => None,
    }
}

/// The constraints, as the specifications read them.
pub open spec fn required_view(required: Seq<Required>) -> Seq<(Seq<char>, TypeView)> {
    required.map_values(|one: Required| (one.trait_name@, one.at@))
}

/// The trait constraining each stand-in a declaration wrote, in order.
pub open spec fn constrained_of(quantified: Seq<Quantified>, required: Seq<(Seq<char>, TypeView)>) -> Seq<
    Option<Seq<char>>,
>
    decreases quantified.len(),
{
    if quantified.len() == 0 {
        Seq::empty()
    } else {
        let rest = constrained_of(quantified.drop_last(), required);
        match quantified.last() {
            Quantified::Parameter(_) => rest.push(required_over(required, stand_in(quantified.last()))),
            Quantified::Var(_) => rest,
        }
    }
}

/// What each of `given` is given once every stand-in inference made is erased.
pub open spec fn erased_view(given: Seq<(TypeView, TypeView)>) -> Seq<(TypeView, TypeView)> {
    given.map_values(
        |one: (TypeView, TypeView)|
            if one.0 is Var {
                (one.0, TypeView::Parameter("_"@, crate::definition::Origin::Prelude))
            } else {
                one
            },
    )
}

/// The stand-ins, each given the fresh variable numbered `from` on, in order.
pub open spec fn fresh_given(quantified: Seq<Quantified>, from: nat) -> Seq<(TypeView, TypeView)> {
    Seq::new(
        quantified.len(),
        |k: int| (stand_in(quantified[k]), TypeView::Var(TypeVar((from + k) as u32))),
    )
}

impl Quantified {
    /// A stand-in equal to this one.
    pub fn copied(&self) -> (copy: Quantified)
        ensures
            copy == *self,
    {
        match self {
            Quantified::Var(var) => Quantified::Var(*var),
            Quantified::Parameter(parameter) => Quantified::Parameter(parameter.copied()),
        }
    }

    /// Whether this is the stand-in `within` is written as.
    pub fn stands_as(&self, within: &Type) -> (stands: bool)
        ensures
            stands == (stand_in(*self) == within@),
    {
        match (self, within) {
            (Quantified::Var(one), Type::Var(other)) => *one == *other,
            (Quantified::Parameter(one), Type::Parameter(other)) => one.same(other),
            _ => false,
        }
    }

    /// The type this stand-in is written as.
    pub fn written(&self) -> (written: Type)
        ensures
            written@ == stand_in(*self),
    {
        match self {
            Quantified::Var(var) => Type::Var(*var),
            Quantified::Parameter(parameter) => Type::Parameter(parameter.copied()),
        }
    }
}

/// What the stand-in written as `within` is given, the last word on it winning.
fn given_for(within: &Type, given: &Vec<(Quantified, Type)>) -> (found: Option<Type>)
    ensures
        match given_to(given_view(given@), within@) {
            Some(at) => found matches Some(t) && t@ == at,
            None => found is None,
        },
{
    let mut i: usize = given.len();
    assert(given_view(given@).take(i as int) =~= given_view(given@));
    while i > 0
        invariant
            i <= given@.len(),
            given_to(given_view(given@), within@) == given_to(
                given_view(given@).take(i as int),
                within@,
            ),
        decreases i,
    {
        let ghost prefix = given_view(given@).take(i as int);
        assert(prefix.drop_last() =~= given_view(given@).take(i - 1));
        assert(prefix.last() == (stand_in(given@[i - 1].0), given@[i - 1].1@));
        if given[i - 1].0.stands_as(within) {
            return Some(given[i - 1].1.copied());
        }
        i = i - 1;
    }
    assert(given_view(given@).take(0) =~= Seq::<(TypeView, TypeView)>::empty());
    None
}

/// `within` with every stand-in `given` names replaced by what it is given.
pub fn replace(within: &Type, given: &Vec<(Quantified, Type)>) -> (found: Type)
    ensures
        found@ == replaced(within@, given_view(given@)),
    decreases within@, 1int,
{
    match within {
        Type::Var(_) | Type::Parameter(_) => match given_for(within, given) {
            Some(at) => at,
            None => within.copied(),
        },
        Type::Named { name, arguments } => {
            proof {
                assert(decreases_to!(within@ => within@->Named_1));
            }
            let each = replace_each(arguments, given, Ghost(within@));
            proof {
                lemma_views_of(arguments@);
                lemma_views_of(each@);
                lemma_replaced_among(views_of(arguments@), given_view(given@), arguments@.len() as int);
                assert(views_of(each@) =~= replaced_among(views_of(arguments@), given_view(given@), arguments@.len() as int));
            }
            Type::Named { name: name.clone(), arguments: each }
        },
        Type::Function { parameters, result } => {
            proof {
                assert(decreases_to!(within@ => within@->Function_0));
                assert(decreases_to!(within@ => within@->Function_1));
            }
            let each = replace_each(parameters, given, Ghost(within@));
            let result = replace(result, given);
            proof {
                lemma_views_of(parameters@);
                lemma_views_of(each@);
                lemma_replaced_among(views_of(parameters@), given_view(given@), parameters@.len() as int);
                assert(views_of(each@) =~= replaced_among(views_of(parameters@), given_view(given@), parameters@.len() as int));
            }
            Type::Function { parameters: each, result: Box::new(result) }
        },
        Type::Module(name) => Type::Module(name.clone()),
        Type::Unit => Type::Unit,
    }
}

/// Each of `types` replaced, where they are what `whole_type` is written with.
fn replace_each(types: &Vec<Type>, given: &Vec<(Quantified, Type)>, whole_type: Ghost<TypeView>) -> (found:
    Vec<Type>)
    requires
        decreases_to!(whole_type@ => views_of(types@)),
    ensures
        found@.len() == types@.len(),
        forall|k: int|
            0 <= k < types@.len() ==> (#[trigger] found@[k])@ == replaced(
                types@[k]@,
                given_view(given@),
            ),
    decreases whole_type@, 0int,
{
    let mut found: Vec<Type> = Vec::new();
    let mut i: usize = 0;
    while i < types.len()
        invariant
            i <= types@.len(),
            decreases_to!(whole_type@ => views_of(types@)),
            found@.len() == i,
            forall|k: int|
                0 <= k < i ==> (#[trigger] found@[k])@ == replaced(types@[k]@, given_view(given@)),
        decreases types.len() - i,
    {
        proof {
            lemma_views_of(types@);
            assert(decreases_to!(views_of(types@) => views_of(types@)[i as int]));
        }
        found.push(replace(&types[i], given));
        i = i + 1;
    }
    found
}

/// The texts a sequence of optional strings holds.
pub open spec fn optional_texts(strings: Seq<Option<String>>) -> Seq<Option<Seq<char>>> {
    strings.map_values(
        |one: Option<String>|
            match one {
                Some(text) => Some(text@),
                None => None,
            },
    )
}

/// `given`, with every stand-in inference made standing for the one type every value fits.
pub fn erasing(given: &Vec<(Quantified, Type)>) -> (erased: Vec<(Quantified, Type)>)
    ensures
        given_view(erased@) == erased_view(given_view(given@)),
{
    let mut erased: Vec<(Quantified, Type)> = Vec::new();
    let mut i: usize = 0;
    while i < given.len()
        invariant
            i <= given@.len(),
            given_view(erased@) == erased_view(given_view(given@)).take(i as int),
            erased@.len() == i,
        decreases given.len() - i,
    {
        let one = &given[i];
        let at = match &one.0 {
            Quantified::Var(_) => Type::Parameter(TypeParameter::erased()),
            Quantified::Parameter(_) => one.1.copied(),
        };
        let ghost before = erased@;
        erased.push((one.0.copied(), at));
        assert(erased@.len() == i + 1);
        assert(given_view(erased@).len() == i + 1);
        assert(given_view(erased@)[i as int] == (stand_in(erased@[i as int].0), erased@[i as int].1@));
        assert(given_view(erased@)[i as int] == erased_view(given_view(given@))[i as int]);
        assert(forall|k: int| 0 <= k < i ==> given_view(erased@)[k] == given_view(before)[k]);
        assert(given_view(erased@) =~= erased_view(given_view(given@)).take(i + 1));
        i = i + 1;
    }
    assert(erased_view(given_view(given@)).take(given@.len() as int) =~= erased_view(
        given_view(given@),
    ));
    erased
}

/// Whether `at` is the type parameter `parameter`.
fn is_parameter(at: &Type, parameter: &TypeParameter) -> (is: bool)
    ensures
        is == (at@ == TypeView::Parameter(parameter.name@, parameter.origin)),
{
    match at {
        Type::Parameter(other) => other.same(parameter),
        _ => false,
    }
}

impl Required {
    /// A constraint equal to this one.
    pub fn copied(&self) -> (copy: Required)
        ensures
            copy.trait_name@ == self.trait_name@,
            copy.at@ == self.at@,
    {
        Required { trait_name: self.trait_name.clone(), at: self.at.copied() }
    }
}

impl Scheme {
    /// A type that is the same type wherever it is used.
    pub fn monomorphic(body: Type) -> (scheme: Scheme)
        ensures
            scheme.quantified@.len() == 0,
            scheme.body@ == body@,
            scheme.required@.len() == 0,
    {
        Scheme { quantified: Vec::new(), body, required: Vec::new() }
    }

    /// A type that is fresh at each use, over the stand-ins `quantified` lists.
    pub fn over(quantified: Vec<Quantified>, body: Type) -> (scheme: Scheme)
        ensures
            scheme.quantified@ == quantified@,
            scheme.body@ == body@,
            scheme.required@.len() == 0,
    {
        Scheme { quantified, body, required: Vec::new() }
    }

    /// The same scheme, with the traits a use of it must answer for.
    pub fn requiring(self, required: Vec<Required>) -> (scheme: Scheme)
        ensures
            scheme.quantified@ == self.quantified@,
            scheme.body@ == self.body@,
            scheme.required@ == required@,
    {
        Scheme { quantified: self.quantified, body: self.body, required }
    }

    /// This scheme at one use: every stand-in replaced by a variable of its own.
    pub fn instantiate(&self, table: &mut Table) -> (found: Type)
        requires
            old(table).well_formed(),
            old(table).made() + self.quantified@.len() < u32::MAX,
        ensures
            final(table).well_formed(),
            final(table).made() == old(table).made() + self.quantified@.len(),
            final(table).entries() == old(table).entries(),
            final(table).rank() == old(table).rank(),
            final(table).written() == old(table).written(),
            found@ == replaced(self.body@, fresh_given(self.quantified@, old(table).made())),
    {
        self.at_one_use(table).found
    }

    /// This scheme at one use: the type it has there, what it asks for, and what it settled.
    pub fn at_one_use(&self, table: &mut Table) -> (used: AtOneUse)
        requires
            old(table).well_formed(),
            old(table).made() + self.quantified@.len() < u32::MAX,
        ensures
            final(table).well_formed(),
            final(table).made() == old(table).made() + self.quantified@.len(),
            final(table).entries() == old(table).entries(),
            final(table).rank() == old(table).rank(),
            final(table).written() == old(table).written(),
            ({
                let given = fresh_given(self.quantified@, old(table).made());
                &&& used.found@ == replaced(self.body@, given)
                &&& used.required@.len() == self.required@.len()
                &&& forall|k: int|
                    0 <= k < self.required@.len() ==> (#[trigger] used.required@[k]).trait_name@
                        == self.required@[k].trait_name@ && used.required@[k].at@ == replaced(
                        self.required@[k].at@,
                        given,
                    )
                &&& views_of(used.settling@) == written_given(self.quantified@, given)
                &&& optional_texts(used.constrained@) == constrained_of(
                    self.quantified@,
                    required_view(self.required@),
                )
                &&& used.written_as@ == replaced(self.body@, erased_view(given))
            }),
    {
        let ghost start = table.made();
        let ghost want = fresh_given(self.quantified@, start);
        let mut given: Vec<(Quantified, Type)> = Vec::new();
        let mut i: usize = 0;
        while i < self.quantified.len()
            invariant
                i <= self.quantified@.len(),
                table.well_formed(),
                table.made() == start + i,
                table.entries() == old(table).entries(),
                table.rank() == old(table).rank(),
                table.written() == old(table).written(),
                start == old(table).made(),
                start + self.quantified@.len() < u32::MAX,
                want == fresh_given(self.quantified@, start),
                given_view(given@) == want.take(i as int),
                given@.len() == i,
            decreases self.quantified.len() - i,
        {
            let fresh = table.fresh();
            let ghost before = given@;
            given.push((self.quantified[i].copied(), fresh));
            assert(want[i as int] == (stand_in(self.quantified@[i as int]), TypeView::Var(TypeVar((start + i) as u32))));
            assert(given_view(given@)[i as int] == want[i as int]);
            assert(forall|k: int| 0 <= k < i ==> given_view(given@)[k] == given_view(before)[k]);
            assert(given_view(given@) =~= want.take(i + 1));
            i = i + 1;
        }
        assert(want.take(self.quantified@.len() as int) =~= want);
        let mut required: Vec<Required> = Vec::new();
        let mut j: usize = 0;
        while j < self.required.len()
            invariant
                j <= self.required@.len(),
                given_view(given@) == want,
                required@.len() == j,
                forall|k: int|
                    0 <= k < j ==> (#[trigger] required@[k]).trait_name@
                        == self.required@[k].trait_name@ && required@[k].at@ == replaced(
                        self.required@[k].at@,
                        want,
                    ),
            decreases self.required.len() - j,
        {
            let one = &self.required[j];
            required.push(Required { trait_name: one.trait_name.clone(), at: replace(&one.at, &given) });
            j = j + 1;
        }
        let found = replace(&self.body, &given);
        let settling = self.written_stand_ins(&given);
        let constrained = self.constrained_stand_ins();
        let erased = erasing(&given);
        let written_as = replace(&self.body, &erased);
        AtOneUse { found, required, settling, constrained, written_as }
    }

    /// What this use gave each stand-in the declaration wrote, in the order it wrote them.
    ///
    /// A stand-in inference made is not among them: a generic is written once per set of types
    /// its written type parameters settled on, and named after those alone.
    fn written_stand_ins(&self, given: &Vec<(Quantified, Type)>) -> (settling: Vec<Type>)
        ensures
            views_of(settling@) == written_given(self.quantified@, given_view(given@)),
    {
        let ghost view = given_view(given@);
        let mut settling: Vec<Type> = Vec::new();
        let mut i: usize = 0;
        while i < self.quantified.len()
            invariant
                i <= self.quantified@.len(),
                view == given_view(given@),
                views_of(settling@) == written_given(self.quantified@.take(i as int), view),
            decreases self.quantified.len() - i,
        {
            proof {
                lemma_views_of(settling@);
                assert(self.quantified@.take(i + 1).drop_last() =~= self.quantified@.take(i as int));
            }
            let one = &self.quantified[i];
            match one {
                Quantified::Parameter(_) => {
                    let written = one.written();
                    match given_for(&written, given) {
                        Some(at) => {
                            let ghost before = settling@;
                            settling.push(at);
                            proof {
                                lemma_views_of(settling@);
                                lemma_views_of(before);
                                assert(views_of(settling@) =~= views_of(before).push(settling@.last()@));
                            }
                        },
                        None => {},
                    }
                },
                Quantified::Var(_) => {},
            }
            i = i + 1;
        }
        assert(self.quantified@.take(self.quantified@.len() as int) =~= self.quantified@);
        settling
    }

    /// The trait constraining each stand-in the declaration wrote, in the order it wrote them.
    ///
    /// A constrained one reaches the instance of whatever it settled on, so the method written for
    /// it is named after the whole of that type rather than after its head.
    fn constrained_stand_ins(&self) -> (constrained: Vec<Option<String>>)
        ensures
            optional_texts(constrained@) == constrained_of(
                self.quantified@,
                required_view(self.required@),
            ),
    {
        let ghost required = required_view(self.required@);
        let mut constrained: Vec<Option<String>> = Vec::new();
        let mut i: usize = 0;
        while i < self.quantified.len()
            invariant
                i <= self.quantified@.len(),
                required == required_view(self.required@),
                optional_texts(constrained@) == constrained_of(self.quantified@.take(i as int), required),
            decreases self.quantified.len() - i,
        {
            proof {
                assert(self.quantified@.take(i + 1).drop_last() =~= self.quantified@.take(i as int));
            }
            match &self.quantified[i] {
                Quantified::Parameter(parameter) => {
                    let ghost before = constrained@;
                    constrained.push(self.required_of(parameter));
                    assert(optional_texts(constrained@) =~= optional_texts(before).push(
                        optional_texts(constrained@).last(),
                    ));
                },
                Quantified::Var(_) => {},
            }
            i = i + 1;
        }
        assert(self.quantified@.take(self.quantified@.len() as int) =~= self.quantified@);
        constrained
    }

    /// The trait one of this scheme's constraints is written over `parameter` by, where one is.
    fn required_of(&self, parameter: &TypeParameter) -> (found: Option<String>)
        ensures
            match required_over(
                required_view(self.required@),
                TypeView::Parameter(parameter.name@, parameter.origin),
            ) {
                Some(name) => found matches Some(text) && text@ == name,
                None => found is None,
            },
    {
        let ghost view = required_view(self.required@);
        let ghost wanted = written_over(TypeView::Parameter(parameter.name@, parameter.origin));
        let mut i: usize = 0;
        while i < self.required.len()
            invariant
                i <= self.required@.len(),
                view == required_view(self.required@),
                wanted == written_over(TypeView::Parameter(parameter.name@, parameter.origin)),
                forall|j: int| 0 <= j < i ==> !wanted(#[trigger] view[j]),
            decreases self.required.len() - i,
        {
            if is_parameter(&self.required[i].at, parameter) {
                proof {
                    lemma_first_where(view, wanted, i as int);
                }
                return Some(self.required[i].trait_name.clone());
            }
            i = i + 1;
        }
        None
    }

    /// This scheme with `one` of its stand-ins settled on `given`, which is what an instance is.
    pub fn settling(&self, one: &Quantified, given: Type) -> (settled: Type)
        ensures
            settled@ == replaced(self.body@, seq![(stand_in(*one), given@)]),
    {
        let mut pairs: Vec<(Quantified, Type)> = Vec::new();
        pairs.push((one.copied(), given));
        assert(given_view(pairs@) =~= seq![(stand_in(*one), pairs@[0].1@)]);
        replace(&self.body, &pairs)
    }

    /// The same scheme, with `rename` applied to every type it holds.
    ///
    /// A module offering its surface writes each of its own types as a name reached through it,
    /// and a scheme is what a function offers, so this is how one crosses that boundary.
    pub fn renamed<F: Fn(&Type) -> Type>(&self, rename: &F) -> (scheme: Scheme)
        requires
            forall|t: &Type| #[trigger] rename.requires((t,)),
        ensures
            scheme.quantified@ == self.quantified@,
            rename.ensures((&self.body,), scheme.body),
            scheme.required@.len() == self.required@.len(),
            forall|k: int|
                0 <= k < self.required@.len() ==> (#[trigger] scheme.required@[k]).trait_name@
                    == self.required@[k].trait_name@ && rename.ensures((&self.required@[k].at,), scheme.required@[k].at),
    {
        let mut quantified: Vec<Quantified> = Vec::new();
        let mut i: usize = 0;
        while i < self.quantified.len()
            invariant
                i <= self.quantified@.len(),
                quantified@ == self.quantified@.take(i as int),
            decreases self.quantified.len() - i,
        {
            quantified.push(self.quantified[i].copied());
            proof {
                assert(quantified@ =~= self.quantified@.take(i + 1));
            }
            i = i + 1;
        }
        proof {
            assert(self.quantified@.take(i as int) =~= self.quantified@);
        }
        let body = rename(&self.body);
        let mut required: Vec<Required> = Vec::new();
        let mut j: usize = 0;
        while j < self.required.len()
            invariant
                j <= self.required@.len(),
                forall|t: &Type| #[trigger] rename.requires((t,)),
                required@.len() == j,
                forall|k: int|
                    0 <= k < j ==> (#[trigger] required@[k]).trait_name@ == self.required@[k].trait_name@
                        && rename.ensures((&self.required@[k].at,), required@[k].at),
            decreases self.required.len() - j,
        {
            let one = &self.required[j];
            let at = rename(&one.at);
            required.push(Required { trait_name: one.trait_name.clone(), at });
            j = j + 1;
        }
        Scheme { quantified, body, required }
    }

    /// The traits a use of this must answer for, still written over what this quantifies.
    pub fn required(&self) -> (required: &Vec<Required>)
        ensures
            *required == self.required,
    {
        &self.required
    }

    /// The type this quantifies, with its stand-ins still standing in.
    pub fn body(&self) -> (body: &Type)
        ensures
            *body == self.body,
    {
        &self.body
    }

    /// The stand-ins this is polymorphic over.
    pub fn quantified(&self) -> (quantified: &Vec<Quantified>)
        ensures
            *quantified == self.quantified,
    {
        &self.quantified
    }
}

} // verus!
