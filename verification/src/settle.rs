//! What a function settles once its body has been walked.
//!
//! A trait asked of a type, a statement whose value nothing takes, and a `?` that could not yet
//! say which kind it hands back each wait on the function they are written in. They are answered
//! once its body has said everything it can, so the report lands where the source wrote them.
use vstd::prelude::*;

use crate::ast::{Function, Name, Parameter, Signature, Span};
use crate::calls::{expect, not_discardable, propagated, spec_propagated, Propagated};
use crate::definition::Definition;
use crate::environment::key::{spec_key_of, Key, KeyView};
use crate::environment::Environment;
use crate::laws::law_unified_stays_unified;
use crate::lookup::fresh_for;
use crate::naming::{first_flag, named_for_its_result, opens_with, questions};
use crate::scheme::{fresh_given, replaced, required_view, stand_ins, Required};
use crate::table::{lemma_outer, mentions, mentions_among, outer, Entries, Table};
use crate::text::same_text;
use crate::type_error::{TypeError, TypeErrorKind};
use crate::types::{lemma_views_of, plain, same_type, views_of, Type, TypeVar, TypeView, BOOL, OPTION, RESULT};
use crate::unify::{extends, grew, lemma_extends, lemma_grew};

verus! {

/// How a trait came to be asked for, which is what an unanswered one is worded by.
#[derive(Clone, Copy, Debug)]
pub enum Asked {
    /// A call of one of the trait's methods, which reaches the instance for that type.
    Method,
    /// A use of something whose type parameter the declaration constrained by the trait.
    Constraint,
    /// An operator, written as the text it carries, which is the method of its trait.
    Operator(&'static str),
}

/// One trait a use must answer for, at the type that use asked it of.
#[derive(Debug)]
pub struct Requirement {
    pub required: Required,
    /// Where the use is written, which is what an unanswered trait is reported against.
    pub written: Span,
    pub how: Asked,
}

/// The type the name `name`, defined by `definition`, has at this one use: its scheme with a
/// variable of its own for each stand-in, numbered from where the table has got to, and each
/// trait that use must answer for at the types it settled.
///
/// A trait's method asks its own trait as a method call does; anything else written over a
/// constrained parameter asks the trait its constraint names.
pub fn value(environment: &Environment, table: &mut Table, definition: Definition, name: &Name) -> (used:
    (Type, Vec<Requirement>))
    requires
        old(table).well_formed(),
        environment@.values.contains_key(spec_key_of(definition, name.text@)),
        old(table).made() + environment@.values[spec_key_of(definition, name.text@)].quantified.len()
            < u32::MAX,
    ensures
        ({
            let key = spec_key_of(definition, name.text@);
            let scheme = environment@.values[key];
            let given = fresh_for(scheme.quantified, old(table).made());
            &&& final(table).well_formed()
            &&& final(table).entries() == old(table).entries()
            &&& final(table).written() == old(table).written()
            &&& final(table).made() == old(table).made() + scheme.quantified.len()
            &&& used.0@ == replaced(scheme.body, given)
            &&& used.1@.len() == scheme.required.len()
            &&& forall|k: int|
                0 <= k < used.1@.len() ==> {
                    let asked = #[trigger] used.1@[k];
                    &&& asked.required.trait_name@ == scheme.required[k].0
                    &&& asked.required.at@ == replaced(scheme.required[k].1, given)
                    &&& asked.written == name.span
                    &&& (environment@.methods.contains_key(key) ==> asked.how is Method)
                    &&& (!environment@.methods.contains_key(key) ==> asked.how is Constraint)
                }
        }),
{
    let key = Key::of(definition, name);
    let scheme = environment.scheme(&key).unwrap();
    let used = scheme.at_one_use(table);
    proof {
        assert(fresh_given(scheme.quantified@, old(table).made()) =~= fresh_for(
            stand_ins(scheme.quantified@),
            old(table).made(),
        ));
    }
    let how = match environment.of_a_trait(&key) {
        Some(_) => Asked::Method,
        None => Asked::Constraint,
    };
    let mut asked: Vec<Requirement> = Vec::new();
    let mut i: usize = 0;
    while i < used.required.len()
        invariant
            i <= used.required@.len(),
            asked@.len() == i,
            forall|k: int|
                0 <= k < i ==> {
                    let one = #[trigger] asked@[k];
                    &&& one.required.trait_name@ == used.required@[k].trait_name@
                    &&& one.required.at@ == used.required@[k].at@
                    &&& one.written == name.span
                    &&& one.how == how
                },
        decreases used.required.len() - i,
    {
        asked.push(Requirement { required: used.required[i].copied(), written: name.span, how });
        i = i + 1;
    }
    (used.found, asked)
}

/// Whether `error` is the refusal of `requirement` once what it was asked of settled on `at`.
pub open spec fn refuses(error: TypeError, requirement: Requirement, at: TypeView) -> bool {
    &&& error.spec_span() == requirement.written
    &&& match requirement.how {
        Asked::Operator(written_as) => error.spec_kind() matches TypeErrorKind::NoOperator {
            written_as: written,
            of,
            at: settled,
        } && written@ == written_as@ && of@ == requirement.required.trait_name@ && settled@ == at,
        _ => error.spec_kind() matches TypeErrorKind::NoInstance { of, at: settled } && of@
            == requirement.required.trait_name@ && settled@ == at,
    }
}

/// The refusal a trait nothing answers amounts to, worded by how it came to be asked.
pub fn unanswered(requirement: &Requirement, at: Type) -> (refused: TypeError)
    ensures
        refuses(refused, *requirement, at@),
{
    let of = requirement.required.trait_name.clone();
    let kind = match requirement.how {
        Asked::Operator(written_as) => TypeErrorKind::NoOperator { written_as, of, at },
        Asked::Method | Asked::Constraint => TypeErrorKind::NoInstance { of, at },
    };
    TypeError::at(requirement.written, kind)
}

/// Whether the trait `of` is answered at `at`, as the specifications read it.
///
/// A named type is answered by the one instance there is for it; a type parameter of the
/// function being inferred is answered by a constraint that function declares over it; nothing
/// else names an instance at all.
pub open spec fn spec_answers(
    instances: Set<(Seq<char>, Seq<char>)>,
    promised: Seq<(Seq<char>, TypeView)>,
    of: Seq<char>,
    at: TypeView,
) -> bool {
    match at {
        TypeView::Named(name, _) => instances.contains((of, name)),
        TypeView::Parameter(_, _) => exists|k: int|
            0 <= k < promised.len() && #[trigger] promised[k] == (of, at),
        _ => false,
    }
}

/// Whether the trait `of` is answered at `at`, which is where a constraint is resolved.
pub fn answers(environment: &Environment, promised: &Vec<Required>, of: &String, at: &Type) -> (answered:
    bool)
    ensures
        answered == spec_answers(environment@.instances, required_view(promised@), of@, at@),
        at@ is Parameter ==> (answered <==> exists|k: int|
            0 <= k < promised@.len() && (#[trigger] promised@[k]).trait_name@ == of@ && promised@[k].at@
                == at@),
        at@ is Named ==> (answered <==> environment@.instances.contains((of@, at@->Named_0))),
        !(at@ is Parameter || at@ is Named) ==> !answered,
{
    proof {
        assert forall|k: int| 0 <= k < promised@.len() implies #[trigger] required_view(promised@)[k] == (
            promised@[k].trait_name@,
            promised@[k].at@,
        ) by {}
    }
    match at {
        Type::Named { name, .. } => {
            proof {
                assert(at@ is Named);
                assert(!(at@ is Parameter));
            }
            environment.has_instance(of, name)
        },
        Type::Parameter(_) => {
            let ghost promises = required_view(promised@);
            let mut i: usize = 0;
            while i < promised.len()
                invariant
                    i <= promised@.len(),
                    promises == required_view(promised@),
                    promises.len() == promised@.len(),
                    at@ is Parameter,
                    forall|k: int| 0 <= k < i ==> promises[k] != (of@, at@),
                decreases promised.len() - i,
            {
                let promise = &promised[i];
                assert(promises[i as int] == (promise.trait_name@, promise.at@));
                if same_text(promise.trait_name.as_str(), of.as_str()) && same_type(&promise.at, at) {
                    assert(promises[i as int] == (of@, at@));
                    assert(promised@[i as int].trait_name@ == of@ && promised@[i as int].at@ == at@);
                    return true;
                }
                i = i + 1;
            }
            proof {
                assert forall|k: int| 0 <= k < promised@.len() implies !((#[trigger] promised@[k]).trait_name@
                    == of@ && promised@[k].at@ == at@) by {
                    assert(promises[k] == (promised@[k].trait_name@, promised@[k].at@));
                }
            }
            false
        },
        _ => false,
    }
}

/// Whether the trait `requirement` asks for is answered at what the table settled it on.
pub open spec fn answered_in(
    table: Table,
    instances: Set<(Seq<char>, Seq<char>)>,
    promised: Seq<(Seq<char>, TypeView)>,
    requirement: Requirement,
) -> bool {
    spec_answers(
        instances,
        promised,
        requirement.required.trait_name@,
        table.spec_solved(requirement.required.at@),
    )
}

/// Where each of the first `n` requirements that called a method is written, beside the type
/// it reached its instance at.
pub open spec fn methods_reached(table: Table, requirements: Seq<Requirement>, n: int) -> Seq<
    (Span, TypeView),
>
    decreases n,
{
    if n <= 0 || n > requirements.len() {
        Seq::empty()
    } else {
        let before = methods_reached(table, requirements, n - 1);
        let requirement = requirements[n - 1];
        match requirement.how {
            Asked::Method => before.push(
                (requirement.written, table.spec_solved(requirement.required.at@)),
            ),
            _ => before,
        }
    }
}

/// The traits a function asked for, each answered by an instance or refused, and where each
/// method call reached its instance, at the type it reached it at.
///
/// The first one nothing answers is the refusal; otherwise every call of a method is recorded
/// with the type its instance is for.
pub fn settle_requirements(
    table: &Table,
    environment: &Environment,
    promised: &Vec<Required>,
    requirements: &Vec<Requirement>,
) -> (settled: Result<Vec<(Span, Type)>, TypeError>)
    requires
        table.well_formed(),
    ensures
        match settled {
            Ok(methods) => {
                &&& forall|k: int|
                    0 <= k < requirements@.len() ==> answered_in(
                        *table,
                        environment@.instances,
                        required_view(promised@),
                        #[trigger] requirements@[k],
                    )
                &&& methods@.map_values(|method: (Span, Type)| (method.0, method.1@))
                    == methods_reached(*table, requirements@, requirements@.len() as int)
            },
            Err(error) => exists|k: int|
                0 <= k < requirements@.len() && (forall|j: int|
                    0 <= j < k ==> answered_in(
                        *table,
                        environment@.instances,
                        required_view(promised@),
                        #[trigger] requirements@[j],
                    )) && !answered_in(
                    *table,
                    environment@.instances,
                    required_view(promised@),
                    requirements@[k],
                ) && refuses(error, requirements@[k], table.spec_solved(requirements@[k].required.at@)),
        },
{
    let ghost promises = required_view(promised@);
    let mut methods: Vec<(Span, Type)> = Vec::new();
    let mut i: usize = 0;
    while i < requirements.len()
        invariant
            i <= requirements@.len(),
            table.well_formed(),
            promises == required_view(promised@),
            forall|j: int|
                0 <= j < i ==> answered_in(
                    *table,
                    environment@.instances,
                    promises,
                    #[trigger] requirements@[j],
                ),
            methods@.map_values(|method: (Span, Type)| (method.0, method.1@)) == methods_reached(
                *table,
                requirements@,
                i as int,
            ),
        decreases requirements.len() - i,
    {
        let requirement = &requirements[i];
        let at = table.solved(&requirement.required.at);
        if !answers(environment, promised, &requirement.required.trait_name, &at) {
            let refused = unanswered(requirement, at);
            assert(!answered_in(*table, environment@.instances, promises, requirements@[i as int]));
            return Err(refused);
        }
        let ghost before = methods@;
        match requirement.how {
            Asked::Method => {
                methods.push((requirement.written, at));
                assert(methods@.map_values(|method: (Span, Type)| (method.0, method.1@))
                    =~= before.map_values(|method: (Span, Type)| (method.0, method.1@)).push(
                    (requirement.written, table.spec_solved(requirement.required.at@)),
                ));
            },
            _ => {},
        }
        i = i + 1;
    }
    Ok(methods)
}

/// Whether `error` refuses a statement of type `found`, written at `at`, that was to have no
/// value: either the `()` it defaulted to did not fit, or it settled on a type that is not `()`.
pub open spec fn refuses_discard(error: TypeError, table: Table, found: TypeView, at: Span) -> bool {
    &&& error.spec_span() == at
    &&& {
        ||| error.spec_kind() matches TypeErrorKind::Mismatch { expected, found: given } && expected@
            == TypeView::Unit && given@ == table.spec_solved(found)
        ||| error.spec_kind() matches TypeErrorKind::Discarded(left) && left@ == table.spec_solved(
            found,
        ) && left@ != TypeView::Unit
    }
}

/// The statements of one function that nothing takes the value of, each held to `()`.
///
/// A statement inference never settled takes `()`, so `todo("not yet")` stands as a statement;
/// one that settled on anything else leaves a value behind and is refused where it is written.
/// Where every one of them settles, each is `()` from then on.
pub fn settle_discards(table: &mut Table, discards: &Vec<(Type, Span)>) -> (settled: Result<
    (),
    TypeError,
>)
    requires
        old(table).well_formed(),
        forall|k: int| 0 <= k < discards@.len() ==> old(table).holds_made(#[trigger] discards@[k].0@),
    ensures
        grew(*final(table), *old(table)),
        settled is Ok ==> forall|k: int|
            0 <= k < discards@.len() ==> final(table).spec_solved(#[trigger] discards@[k].0@)
                == TypeView::Unit,
        settled matches Err(error) ==> exists|k: int|
            0 <= k < discards@.len() && refuses_discard(
                error,
                *final(table),
                #[trigger] discards@[k].0@,
                discards@[k].1,
            ) && forall|j: int|
                0 <= j < k ==> final(table).spec_solved(#[trigger] discards@[j].0@) == TypeView::Unit,
        (forall|k: int|
            0 <= k < discards@.len() ==> old(table).spec_solved(#[trigger] discards@[k].0@)
                == TypeView::Unit) ==> settled is Ok && final(table).entries() == old(table).entries(),
{
    proof {
        table.lemma_well_formed();
        assert(extends(table.entries(), table.entries())) by {
            assert(table.entries().take(table.entries().len() as int) =~= table.entries());
        }
    }
    let unit = Type::Unit;
    let mut i: usize = 0;
    while i < discards.len()
        invariant
            i <= discards@.len(),
            grew(*table, *old(table)),
            unit@ == TypeView::Unit,
            forall|k: int| 0 <= k < discards@.len() ==> old(table).holds_made(#[trigger] discards@[k].0@),
            forall|k: int| 0 <= k < i ==> table.spec_solved(#[trigger] discards@[k].0@) == TypeView::Unit,
            (forall|k: int|
                0 <= k < discards@.len() ==> old(table).spec_solved(#[trigger] discards@[k].0@)
                    == TypeView::Unit) ==> table.entries() == old(table).entries(),
        decreases discards.len() - i,
    {
        let (found, at) = &discards[i];
        let ghost before = *table;
        proof {
            table.lemma_well_formed();
            lemma_outer(table.entries(), table.rank(), Set::empty(), false, found@);
        }
        let settled = table.shallow(found);
        match settled {
            Type::Var(_) => {
                assert(table.holds_made(found@));
                assert(table.holds_made(unit@)) by {
                    assert forall|x: TypeVar| mentions(unit@, x) implies x.0 < table.made() by {}
                }
                proof {
                    if forall|k: int|
                        0 <= k < discards@.len() ==> old(table).spec_solved(#[trigger] discards@[k].0@)
                            == TypeView::Unit {
                        assert(old(table).spec_solved(discards@[i as int].0@) == TypeView::Unit);
                        assert(table.rank() == old(table).rank());
                        assert(false);
                    }
                    assert(before.spec_solved(unit@) == TypeView::Unit);
                    assert(outer(before.entries(), before.rank(), unit@) == TypeView::Unit);
                }
                let met = expect(table, &unit, found, *at);
                proof {
                    lemma_grew(*table, before, *old(table));
                    table.lemma_well_formed();
                    assert(table.spec_solved(unit@) == TypeView::Unit);
                }
                if let Err(error) = met {
                    proof {
                        assert(!mentions(before.spec_solved(unit@), settled->Var_0));
                        assert forall|j: int| 0 <= j < i implies table.spec_solved(
                            #[trigger] discards@[j].0@,
                        ) == TypeView::Unit by {
                            law_unified_stays_unified(*table, before, discards@[j].0@, unit@);
                        }
                    }
                    assert(refuses_discard(error, *table, discards@[i as int].0@, discards@[i as int].1));
                    return Err(error);
                }
                proof {
                    assert forall|k: int| 0 <= k < i + 1 implies table.spec_solved(
                        #[trigger] discards@[k].0@,
                    ) == TypeView::Unit by {
                        if k < i {
                            law_unified_stays_unified(*table, before, discards@[k].0@, unit@);
                        }
                    }
                }
            },
            _ => {
                let whole = table.solved(&settled);
                match not_discardable(&whole) {
                    Some(kind) => {
                        let error = TypeError::at(*at, kind);
                        assert(refuses_discard(error, *table, discards@[i as int].0@, discards@[i as int].1));
                        return Err(error);
                    },
                    None => {},
                }
            },
        }
        i = i + 1;
    }
    Ok(())
}

/// One `?`, and what it was written on, waiting on the kind its function gives back.
#[derive(Debug)]
pub struct Propagation {
    /// The type of what the `?` is written on, which is one of the two kinds.
    pub found: Type,
    /// The type the `?` leaves behind, which is what that kind carries.
    pub held: Type,
    /// Where what the `?` is written on is written, which a mismatch there points at.
    pub inner: Span,
    /// Where the `?` is written, which a function of the wrong kind is reported at.
    pub at: Span,
}

/// `Option<value>`, as the specifications read it.
pub open spec fn option_of(value: TypeView) -> TypeView {
    TypeView::Named(OPTION@, seq![value])
}

/// `Result<value, error>`, as the specifications read it.
pub open spec fn result_of(value: TypeView, error: TypeView) -> TypeView {
    TypeView::Named(RESULT@, seq![value, error])
}

/// Whether a type built of `one` and `other` holds no variable but those they hold.
proof fn lemma_holds_pair(table: Table, one: TypeView, other: TypeView)
    requires
        table.holds_made(one),
        table.holds_made(other),
    ensures
        table.holds_made(option_of(one)),
        table.holds_made(result_of(one, other)),
{
    assert forall|x: TypeVar| mentions(option_of(one), x) implies x.0 < table.made() by {
        let only = seq![one];
        assert(only[0] == one);
        assert(mentions_among(only, 1, x) == (mentions_among(only, 0, x) || mentions(one, x)));
    }
    assert forall|x: TypeVar| mentions(result_of(one, other), x) implies x.0 < table.made() by {
        let both = seq![one, other];
        assert(both[0] == one);
        assert(both[1] == other);
        assert(mentions_among(both, 1, x) == (mentions_among(both, 0, x) || mentions(one, x)));
        assert(mentions_among(both, 2, x) == (mentions_among(both, 1, x) || mentions(other, x)));
    }
}

/// One `?`, held to the kind it propagates on both sides: what it is given, and what it leaves
/// the function whose result is `result`.
///
/// The two sides of a `Result` share an error type, so a `?` never propagates into a function
/// that names another one. An `Option` carries nothing to share, so a `None` goes into any
/// function that gives one back. The variables it makes for what it does not know are the next
/// ones the table makes: the error first, then the value the function gives back.
pub fn propagate(table: &mut Table, result: &Type, waiting: &Propagation, kind: Propagated) -> (met:
    Result<(), TypeError>)
    requires
        old(table).well_formed(),
        old(table).made() + 2 < u32::MAX,
        old(table).holds_made(result@),
        old(table).holds_made(waiting.found@),
        old(table).holds_made(waiting.held@),
    ensures
        final(table).well_formed(),
        extends(final(table).entries(), old(table).entries()),
        final(table).written() == old(table).written(),
        final(table).made() == old(table).made() + match kind {
            Propagated::Absence => 1int,
            Propagated::Failure => 2int,
        },
        met is Ok ==> match kind {
            Propagated::Absence => {
                &&& final(table).spec_solved(waiting.found@) == final(table).spec_solved(
                    option_of(waiting.held@),
                )
                &&& final(table).spec_solved(result@) == final(table).spec_solved(
                    option_of(TypeView::Var(TypeVar(old(table).made() as u32))),
                )
            },
            Propagated::Failure => {
                let error = TypeView::Var(TypeVar(old(table).made() as u32));
                let value = TypeView::Var(TypeVar((old(table).made() + 1) as u32));
                &&& final(table).spec_solved(waiting.found@) == final(table).spec_solved(
                    result_of(waiting.held@, error),
                )
                &&& final(table).spec_solved(result@) == final(table).spec_solved(
                    result_of(value, error),
                )
            },
        },
        met matches Err(error) ==> error.spec_span() == waiting.inner || error.spec_span()
            == waiting.at,
{
    let ghost start = *table;
    let (written_on, given_back) = match kind {
        Propagated::Absence => {
            let fresh = table.fresh();
            (Type::option(waiting.held.copied()), Type::option(fresh))
        },
        Propagated::Failure => {
            let error = table.fresh();
            let value = table.fresh();
            (
                Type::result(waiting.held.copied(), error.copied()),
                Type::result(value, error),
            )
        },
    };
    let ghost made = *table;
    proof {
        let error = TypeView::Var(TypeVar(start.made() as u32));
        let value = TypeView::Var(TypeVar((start.made() + 1) as u32));
        assert(table.holds_made(error)) by {
            assert forall|x: TypeVar| mentions(error, x) implies x.0 < table.made() by {}
        }
        lemma_holds_pair(*table, waiting.held@, error);
        lemma_holds_pair(*table, error, error);
        if kind == Propagated::Failure {
            assert(table.holds_made(value)) by {
                assert forall|x: TypeVar| mentions(value, x) implies x.0 < table.made() by {}
            }
            lemma_holds_pair(*table, value, error);
        }
        table.lemma_well_formed();
        assert(extends(table.entries(), start.entries())) by {
            assert(table.entries().take(table.entries().len() as int) =~= table.entries());
        }
    }
    let first = expect(table, &written_on, &waiting.found, waiting.inner);
    if let Err(error) = first {
        proof {
            lemma_extends_trans(table.entries(), made.entries(), start.entries());
        }
        return Err(error);
    }
    let ghost between = *table;
    let second = expect(table, result, &given_back, waiting.at);
    proof {
        lemma_extends_trans(table.entries(), between.entries(), made.entries());
        lemma_extends_trans(table.entries(), made.entries(), start.entries());
        if second is Ok {
            law_unified_stays_unified(*table, between, written_on@, waiting.found@);
        }
    }
    second
}

/// Which of the two kinds a `?` written on `found` propagates, in a function whose result is
/// `result`: the one its function gives back, or, where the function has not said, the one it
/// is written on.
pub open spec fn spec_propagates(table: Table, result: TypeView, found: TypeView) -> Option<Propagated> {
    match spec_propagated(table.spec_solved(result)) {
        Some(kind) => Some(kind),
        None => spec_propagated(table.spec_solved(found)),
    }
}

/// Which of the two kinds a `?` propagates, which is the one its function gives back.
///
/// What the `?` is written on answers where the function has not, which is how a body with no
/// signature above it still divides through `?`.
pub fn propagates(table: &Table, result: &Type, found: &Type) -> (kind: Option<Propagated>)
    requires
        table.well_formed(),
    ensures
        kind == spec_propagates(*table, result@, found@),
{
    match propagated(&table.solved(result)) {
        Some(kind) => Some(kind),
        None => propagated(&table.solved(found)),
    }
}

/// A type settled on `name` applied to something is still `name` however it is followed.
proof fn lemma_solved_named(table: Table, name: Seq<char>, arguments: Seq<TypeView>)
    requires
        table.well_formed(),
    ensures
        table.spec_solved(TypeView::Named(name, arguments)) matches TypeView::Named(solved_name, _)
            && solved_name == name,
{
    table.lemma_well_formed();
}

/// The `?`s of one function that nothing had settled when they were walked past.
///
/// They settle after the body has met the declared result, which is the last thing that can say
/// what a function with no signature gives back. One that still says nothing propagates a
/// `Result`. Where they all settle, every one of them is written on the kind its function gives
/// back, and that function gives back an `Option` or a `Result`.
pub fn settle_propagations(table: &mut Table, result: &Type, waiting: &Vec<Propagation>) -> (met:
    Result<(), TypeError>)
    requires
        old(table).well_formed(),
        old(table).made() + 2 * waiting@.len() + 2 < u32::MAX,
        old(table).holds_made(result@),
        forall|k: int|
            0 <= k < waiting@.len() ==> old(table).holds_made((#[trigger] waiting@[k]).found@)
                && old(table).holds_made(waiting@[k].held@),
    ensures
        final(table).well_formed(),
        extends(final(table).entries(), old(table).entries()),
        final(table).written() == old(table).written(),
        old(table).made() <= final(table).made() <= old(table).made() + 2 * waiting@.len(),
        met is Ok ==> forall|k: int|
            0 <= k < waiting@.len() ==> spec_propagated(final(table).spec_solved(result@)) is Some
                && spec_propagated(final(table).spec_solved((#[trigger] waiting@[k]).found@))
                == spec_propagated(final(table).spec_solved(result@)),
        met matches Err(error) ==> exists|k: int|
            0 <= k < waiting@.len() && (error.spec_span() == (#[trigger] waiting@[k]).inner
                || error.spec_span() == waiting@[k].at) && forall|j: int|
                0 <= j < k ==> spec_propagated(final(table).spec_solved(result@)) is Some
                    && spec_propagated(final(table).spec_solved((#[trigger] waiting@[j]).found@))
                    == spec_propagated(final(table).spec_solved(result@)),
{
    proof {
        assert(extends(table.entries(), table.entries())) by {
            assert(table.entries().take(table.entries().len() as int) =~= table.entries());
        }
    }
    let mut i: usize = 0;
    while i < waiting.len()
        invariant
            i <= waiting@.len(),
            table.well_formed(),
            extends(table.entries(), old(table).entries()),
            table.written() == old(table).written(),
            old(table).made() <= table.made() <= old(table).made() + 2 * i,
            old(table).made() + 2 * waiting@.len() + 2 < u32::MAX,
            old(table).holds_made(result@),
            forall|k: int|
                0 <= k < waiting@.len() ==> old(table).holds_made((#[trigger] waiting@[k]).found@)
                    && old(table).holds_made(waiting@[k].held@),
            forall|k: int|
                0 <= k < i ==> spec_propagated(table.spec_solved(result@)) is Some
                    && spec_propagated(table.spec_solved((#[trigger] waiting@[k]).found@))
                    == spec_propagated(table.spec_solved(result@)),
        decreases waiting.len() - i,
    {
        let one = &waiting[i];
        let kind = match propagates(table, result, &one.found) {
            Some(kind) => kind,
            None => Propagated::Failure,
        };
        let ghost before = *table;
        let met = propagate(table, result, one, kind);
        proof {
            lemma_extends_trans(table.entries(), before.entries(), old(table).entries());
        }
        if let Err(error) = met {
            proof {
                before.lemma_well_formed();
                table.lemma_well_formed();
                assert forall|j: int| 0 <= j < i implies spec_propagated(table.spec_solved(result@))
                    is Some && spec_propagated(table.spec_solved((#[trigger] waiting@[j]).found@))
                    == spec_propagated(table.spec_solved(result@)) by {
                    lemma_kind_stays(*table, before, waiting@[j].found@);
                    lemma_kind_stays(*table, before, result@);
                }
            }
            return Err(error);
        }
        proof {
            before.lemma_well_formed();
            table.lemma_well_formed();
            let made = before.made();
            let error = TypeView::Var(TypeVar(made as u32));
            let value = TypeView::Var(TypeVar((made + 1) as u32));
            match kind {
                Propagated::Absence => {
                    lemma_solved_named(*table, OPTION@, seq![one.held@]);
                    lemma_solved_named(*table, OPTION@, seq![error]);
                },
                Propagated::Failure => {
                    lemma_solved_named(*table, RESULT@, seq![one.held@, error]);
                    lemma_solved_named(*table, RESULT@, seq![value, error]);
                },
            }
            assert forall|k: int| 0 <= k < i implies spec_propagated(table.spec_solved(result@))
                is Some && spec_propagated(table.spec_solved((#[trigger] waiting@[k]).found@))
                == spec_propagated(table.spec_solved(result@)) by {
                lemma_kind_stays(*table, before, waiting@[k].found@);
                lemma_kind_stays(*table, before, result@);
            }
        }
        i = i + 1;
    }
    Ok(())
}

/// The kind a type was followed to stays its kind under a table that extends the one it was
/// followed under.
proof fn lemma_kind_stays(later: Table, earlier: Table, t: TypeView)
    requires
        earlier.well_formed(),
        later.well_formed(),
        extends(later.entries(), earlier.entries()),
        spec_propagated(earlier.spec_solved(t)) is Some,
    ensures
        spec_propagated(later.spec_solved(t)) == spec_propagated(earlier.spec_solved(t)),
{
    lemma_solved_stays(later, earlier, t);
    if let TypeView::Named(name, arguments) = earlier.spec_solved(t) {
        lemma_solved_named(later, name, arguments);
    }
}

/// Whatever a type was followed to, a table that extends the one it was followed under follows
/// it to the same, once more followed.
proof fn lemma_solved_stays(later: Table, earlier: Table, t: TypeView)
    requires
        earlier.well_formed(),
        later.well_formed(),
        extends(later.entries(), earlier.entries()),
    ensures
        later.spec_solved(t) == later.spec_solved(earlier.spec_solved(t)),
{
    earlier.lemma_well_formed();
    later.lemma_well_formed();
    lemma_extends(later.entries(), later.rank(), earlier.entries(), earlier.rank(), t);
}

/// The types of `taken`, each followed through `table`.
pub open spec fn solved_each(table: Table, taken: Seq<Type>) -> Seq<TypeView> {
    taken.map_values(|one: Type| table.spec_solved(one@))
}

/// Whether `checked` is what the flag rule answers for parameters written as `parameters`, of
/// the types `taken`, in a function named `named` that gives back `gives`.
pub open spec fn flags_checked(
    checked: Result<(), TypeError>,
    parameters: Seq<Parameter>,
    taken: Seq<TypeView>,
    gives: TypeView,
    named: Name,
) -> bool {
    let operation = gives == plain(BOOL@) && forall|k: int| 0 <= k < taken.len() ==> #[trigger] taken[k] == plain(BOOL@);
    let some_flag = exists|k: int| 0 <= k < taken.len() && #[trigger] taken[k] == plain(BOOL@);
    &&& (operation || !some_flag) <==> checked is Ok
    &&& checked matches Err(error) ==> (error.spec_kind() == TypeErrorKind::FlagParameter(named.text)
        && exists|k: int|
        0 <= k < taken.len() && #[trigger] taken[k] == plain(BOOL@) && error.spec_span() == parameters[k].span
            && forall|j: int| 0 <= j < k ==> taken[j] != plain(BOOL@))
}

/// The parameters of one function, each of them something a call can say more than `true` of,
/// once its body has been walked: `taken` is the type it gave each parameter and `result` its
/// result, each read as the table settled it.
///
/// An instance method has none to answer for, since its trait wrote them; a boolean operation
/// takes `Bool`s because that is what it is about.
pub fn settle_parameters(
    table: &Table,
    environment: &Environment,
    key: &Key,
    function: &Function,
    taken: &Vec<Type>,
    result: &Type,
) -> (checked: Result<(), TypeError>)
    requires
        table.well_formed(),
        taken@.len() == function.parameters@.len(),
    ensures
        environment@.written_as.contains_key(key@) ==> checked is Ok,
        !environment@.written_as.contains_key(key@) ==> flags_checked(
            checked,
            function.parameters@,
            solved_each(*table, taken@),
            table.spec_solved(result@),
            function.name,
        ),
{
    if environment.written_as(key).is_some() {
        return Ok(());
    }
    let mut solved: Vec<Type> = Vec::new();
    let mut i: usize = 0;
    while i < taken.len()
        invariant
            i <= taken@.len(),
            table.well_formed(),
            solved@.len() == i,
            forall|k: int| 0 <= k < i ==> (#[trigger] solved@[k])@ == table.spec_solved(taken@[k]@),
        decreases taken.len() - i,
    {
        solved.push(table.solved(&taken[i]));
        i = i + 1;
    }
    let gives = table.solved(result);
    let checked = first_flag(&function.parameters, &solved, &gives, &function.name);
    proof {
        let views = solved_each(*table, taken@);
        lemma_views_of(solved@);
        assert(views =~= views_of(solved@));
        assert forall|k: int| 0 <= k < solved@.len() implies (#[trigger] solved@[k])@ == views[k] by {}
    }
    checked
}

/// The parameters of one method a trait declares, held to the rule a function's are held to,
/// read off the type the environment gave the method.
///
/// This is where the rule reaches an instance method's types, because this is where they were
/// chosen: a `Bool` the trait wrote outright is a flag every instance of it would have to take.
pub fn settle_method_parameters(environment: &Environment, method: &Signature) -> (checked: Result<(), TypeError>)
    requires
        environment@.values.contains_key(KeyView::Declared(method.name.span)),
        environment@.values[KeyView::Declared(method.name.span)].body matches TypeView::Function(
            parameters,
            _,
        ) && parameters.len() == method.parameters@.len(),
    ensures
        environment@.values[KeyView::Declared(method.name.span)].body matches TypeView::Function(
            parameters,
            result,
        ) && flags_checked(checked, method.parameters@, parameters, *result, method.name),
{
    let key = Key::at(&method.name);
    let scheme = environment.scheme(&key).unwrap();
    match &scheme.body {
        Type::Function { parameters, result } => {
            proof {
                lemma_views_of(parameters@);
            }
            let checked = first_flag(&method.parameters, parameters, &**result, &method.name);
            proof {
                let views = views_of(parameters@);
                assert forall|k: int| 0 <= k < parameters@.len() implies (#[trigger] parameters@[k])@ == views[k] by {}
            }
            checked
        },
        // Not reached: a trait gives each of its methods a function type.
        _ => Ok(()),
    }
}

/// The name of one function, held to the question its result says it answers, once its body has
/// been walked and `result` is read as the table settled it.
pub fn settle_predicate(table: &Table, result: &Type, function: &Function) -> (checked: Result<(), TypeError>)
    requires
        table.well_formed(),
    ensures
        ({
            let asks = exists|k: int| 0 <= k < 4 && opens_with(function.name.text@, #[trigger] questions()[k]);
            if table.spec_solved(result@) == plain(BOOL@) && !asks {
                checked matches Err(error) && error.spec_kind() == TypeErrorKind::NotAPredicate(function.name.text)
                    && error.spec_span() == function.name.span
            } else {
                checked is Ok
            }
        }),
{
    named_for_its_result(&table.solved(result), &function.name)
}

/// A table that extends one that extends a third extends the third.
proof fn lemma_extends_trans(last: Entries, middle: Entries, first: Entries)
    requires
        extends(last, middle),
        extends(middle, first),
    ensures
        extends(last, first),
{
    assert(last.take(first.len() as int) =~= last.take(middle.len() as int).take(first.len() as int));
}

} // verus!
