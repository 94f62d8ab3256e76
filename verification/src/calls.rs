//! The rules a call and a statement are held to once their types are known: what two types that
//! must be one are refused with, how arguments are named, and what a `?` hands back.
use vstd::prelude::*;

use crate::ast::{Argument, Expr, ExprKind, Function, Name, Span};
use crate::laws::{
    law_agreeing_pairs_unify_settling_nothing, law_one_type_unifies_settling_nothing, law_unified_stays_unified,
};
use crate::table::{mentions, mentions_among, outer, Table};
use crate::text::same_text;
use crate::type_error::{TypeError, TypeErrorKind};
use crate::types::{lemma_views_of, same_type, views_of, Type, TypeVar, TypeView, OPTION, RESULT};
use crate::unify::{
    arguments_unify, extends, grew, lemma_grew, lemma_grew_same, lemma_pairs_size, next_bound, pairs_size, room, size,
    unifies, unifies_as, unify, Clash,
};

verus! {

/// The way unifying failed that a refusal reports, where it reports one, and `Ok` for any other
/// refusal or none.
pub open spec fn clash_of_kind(kind: TypeErrorKind) -> Result<(), Clash> {
    if kind == TypeErrorKind::Infinite {
        Err(Clash::Infinite)
    } else if kind is Mismatch {
        Err(Clash::Mismatch)
    } else {
        Ok(())
    }
}

/// Whether `kind` is a refusal of two types that do not unify.
pub open spec fn refuses_unifying(kind: TypeErrorKind) -> bool {
    kind == TypeErrorKind::Infinite || kind is Mismatch
}

/// The way unification failed that a refusal from `expect` reports, or `Ok` where it met.
pub open spec fn clash_of(met: Result<(), TypeError>) -> Result<(), Clash> {
    match met {
        Ok(()) => Ok(()),
        Err(error) => if error.spec_kind() == TypeErrorKind::Infinite {
            Err(Clash::Infinite)
        } else {
            Err(Clash::Mismatch)
        },
    }
}

/// Makes `expected` and `found` one type, or says which of the two the source wrote.
pub fn expect(table: &mut Table, expected: &Type, found: &Type, at: Span) -> (met: Result<(), TypeError>)
    requires
        old(table).well_formed(),
        old(table).holds_made(expected@),
        old(table).holds_made(found@),
    ensures
        grew(*final(table), *old(table)),
        met is Ok ==> final(table).spec_solved(expected@) == final(table).spec_solved(found@),
        met matches Err(error) ==> error.spec_span() == at && (error.spec_kind() == TypeErrorKind::Infinite
            || (error.spec_kind() matches TypeErrorKind::Mismatch { expected: wanted, found: given }
            && wanted@ == final(table).spec_solved(expected@) && given@ == final(table).spec_solved(
            found@,
        ))),
        unifies_as(*old(table), expected@, found@, clash_of(met), *final(table)),
        unifies(*old(table), expected@, found@, clash_of(met), *final(table)),
{
    let unified = unify(table, expected, found);
    proof {
        if unified is Ok {
            let u: () = unified->Ok_0;
            assert(u == ());
            assert(unified == Ok::<(), Clash>(()));
        }
    }
    match unified {
        Ok(()) => {
            let met: Result<(), TypeError> = Ok(());
            proof {
                let u: () = met->Ok_0;
                assert(u == ());
                assert(clash_of(met) == unified);
            }
            met
        },
        Err(Clash::Infinite) => Err(TypeError::at(at, TypeErrorKind::Infinite)),
        Err(Clash::Mismatch) => {
            proof {
                table.lemma_well_formed();
            }
            let kind = TypeErrorKind::Mismatch { expected: table.solved(expected), found: table.solved(found) };
            Err(TypeError::at(at, kind))
        },
    }
}

/// Whether the parameter at `k` has the type of one before it.
pub open spec fn repeated(parameters: Seq<Type>, k: int) -> bool {
    exists|j: int| 0 <= j < k && #[trigger] parameters[j]@ == parameters[k]@
}

/// A call that names none of its arguments, which the types alone must then hold apart.
///
/// A call names its arguments when the declaration gives two of its parameters one type; one
/// that names none is refused at the first parameter whose type one before it already has.
pub fn held_apart(function: &Name, parameters: &Vec<Type>, at: Span) -> (checked: Result<(), TypeError>)
    ensures
        match checked {
            Ok(()) => forall|k: int| 0 <= k < parameters@.len() ==> !repeated(parameters@, k),
            Err(error) => exists|k: int|
                0 <= k < parameters@.len() && repeated(parameters@, k) && (forall|j: int|
                    0 <= j < k ==> !repeated(parameters@, j)) && (error.spec_kind() matches TypeErrorKind::Unnamed {
                    function: named,
                    repeated: found,
                } && named@ == function.text@ && found@ == parameters@[k]@) && error.spec_span() == at,
        },
{
    let mut i: usize = 0;
    while i < parameters.len()
        invariant
            i <= parameters@.len(),
            forall|k: int| 0 <= k < i ==> !repeated(parameters@, k),
        decreases parameters.len() - i,
    {
        let mut j: usize = 0;
        while j < i
            invariant
                j <= i < parameters@.len(),
                forall|k: int| 0 <= k < i ==> !repeated(parameters@, k),
                forall|k: int| 0 <= k < j ==> parameters@[k]@ != parameters@[i as int]@,
            decreases i - j,
        {
            if same_type(&parameters[j], &parameters[i]) {
                let kind = TypeErrorKind::Unnamed {
                    function: function.text.clone(),
                    repeated: parameters[i].copied(),
                };
                let error = TypeError::at(at, kind);
                assert(repeated(parameters@, i as int));
                assert(0 <= i < parameters@.len() && repeated(parameters@, i as int) && (forall|m: int|
                    0 <= m < i ==> !repeated(parameters@, m)) && (error.spec_kind() matches TypeErrorKind::Unnamed {
                    function: named,
                    repeated: found,
                } && named@ == function.text@ && found@ == parameters@[i as int]@) && error.spec_span() == at);
                return Err(error);
            }
            j = j + 1;
        }
        i = i + 1;
    }
    Ok(())
}

/// Where a named argument is written: from its name to the end of its value.
pub open spec fn argument_span(label: Name, value: Expr) -> Span {
    Span { start: label.span.start, end: value.span.end }
}

/// Whether the argument at `k` names a parameter other than the one at its place.
pub open spec fn misnamed(declared: Function, written: Seq<Argument>, k: int) -> bool {
    written[k].label matches Some(label) && label.text@ != declared.parameters@[k].name.text@
}

/// A call that names its arguments, which it writes in the order the declaration lists them.
pub fn in_order(declared: &Function, written: &Vec<Argument>) -> (checked: Result<(), TypeError>)
    ensures
        ({
            let paired = if written@.len() < declared.parameters@.len() {
                written@.len()
            } else {
                declared.parameters@.len()
            };
            match checked {
                Ok(()) => forall|k: int| 0 <= k < paired ==> !misnamed(*declared, written@, k),
                Err(error) => exists|k: int|
                    0 <= k < paired && misnamed(*declared, written@, k) && (forall|j: int|
                        0 <= j < k ==> !misnamed(*declared, written@, j)) && (error.spec_kind() matches TypeErrorKind::Misnamed {
                        written: named,
                        parameter,
                    } && named@ == written@[k].label->Some_0.text@ && parameter@
                        == declared.parameters@[k].name.text@) && error.spec_span() == argument_span(
                        written@[k].label->Some_0,
                        written@[k].value,
                    ),
            }
        }),
{
    let paired = if written.len() < declared.parameters.len() {
        written.len()
    } else {
        declared.parameters.len()
    };
    let mut k: usize = 0;
    while k < paired
        invariant
            k <= paired,
            paired <= written@.len(),
            paired <= declared.parameters@.len(),
            paired == if written@.len() < declared.parameters@.len() {
                written@.len()
            } else {
                declared.parameters@.len()
            },
            forall|j: int| 0 <= j < k ==> !misnamed(*declared, written@, j),
        decreases paired - k,
    {
        let argument = &written[k];
        if let Some(label) = &argument.label {
            let parameter = &declared.parameters[k];
            if !same_text(label.text.as_str(), parameter.name.text.as_str()) {
                let kind = TypeErrorKind::Misnamed {
                    written: label.text.clone(),
                    parameter: parameter.name.text.clone(),
                };
                let error = TypeError::at(Span { start: label.span.start, end: argument.value.span.end }, kind);
                assert(misnamed(*declared, written@, k as int));
                return Err(error);
            }
        }
        k = k + 1;
    }
    Ok(())
}

/// The name a call is a call of, when the thing being called is written as one.
pub fn name_of(callee: &Expr) -> (name: Option<&Name>)
    ensures
        name == match callee.kind {
            ExprKind::Name(written) => Some(&written),
            ExprKind::Field { field, .. } => Some(&field),
            _ => None,
        },
{
    match &callee.kind {
        ExprKind::Name(name) => Some(name),
        ExprKind::Field { field, .. } => Some(field),
        _ => None,
    }
}

/// Which case a `?` hands back, neither of which ever becomes the other.
#[derive(Clone, Copy, Debug, PartialEq, Eq, Structural)]
pub enum Propagated {
    /// An `Option`, whose `None` says there is nothing and has nothing more to say.
    Absence,
    /// A `Result`, whose `Err` says what the caller could not have worked out.
    Failure,
}

/// Which kind `settled` is, as the specifications read it.
pub open spec fn spec_propagated(settled: TypeView) -> Option<Propagated> {
    match settled {
        TypeView::Named(name, _) => if name == OPTION@ {
            Some(Propagated::Absence)
        } else if name == RESULT@ {
            Some(Propagated::Failure)
        } else {
            None
        },
        _ => None,
    }
}

/// Which kind `settled` is, when it is one of the two a `?` propagates.
pub fn propagated(settled: &Type) -> (kind: Option<Propagated>)
    ensures
        kind == spec_propagated(settled@),
{
    match settled {
        Type::Named { name, .. } => {
            if same_text(name.as_str(), OPTION) {
                Some(Propagated::Absence)
            } else if same_text(name.as_str(), RESULT) {
                Some(Propagated::Failure)
            } else {
                None
            }
        },
        _ => None,
    }
}

/// What is wrong with leaving a `found` behind, which is that nothing is there to take it.
pub fn not_discardable(found: &Type) -> (wrong: Option<TypeErrorKind>)
    ensures
        found@ == TypeView::Unit <==> wrong is None,
        wrong matches Some(kind) ==> kind matches TypeErrorKind::Discarded(left) && left@ == found@,
{
    match found {
        Type::Unit => None,
        _ => Some(TypeErrorKind::Discarded(found.copied())),
    }
}

/// The name a call is a call of, as the specifications read it.
pub open spec fn spec_name_of(callee: Expr) -> Option<Name> {
    match callee.kind {
        ExprKind::Name(written) => Some(written),
        ExprKind::Field { field, .. } => Some(field),
        _ => None,
    }
}

/// What a call gives back, once the type of what is called and the type of each argument are
/// known.
///
/// Something already known to be a function has each argument held to the parameter at its
/// place, and gives back its result; one passed the wrong number of arguments is refused at its
/// name, where it is written as one. Anything else is not yet known to be a function, and is held
/// to a function from the arguments to a result of its own, which the rest of the body settles.
/// `passed` is where each argument is written and `at` the whole call.
pub fn called(
    table: &mut Table,
    callee: &Expr,
    signature: &Type,
    given: Vec<Type>,
    passed: &Vec<Span>,
    at: Span,
) -> (typed: Result<Type, TypeError>)
    requires
        old(table).well_formed(),
        old(table).made() < u32::MAX,
        old(table).holds_made(signature@),
        forall|k: int| 0 <= k < given@.len() ==> old(table).holds_made(#[trigger] given@[k]@),
        passed@.len() == given@.len(),
    ensures
        final(table).well_formed(),
        extends(final(table).entries(), old(table).entries()),
        final(table).written() == old(table).written(),
        ({
            let shape = outer(old(table).entries(), old(table).rank(), signature@);
            if shape is Function && shape->Function_0.len() == given@.len() {
                &&& final(table).made() == old(table).made()
                &&& match typed {
                    Ok(result) => result@ == *shape->Function_1 && forall|k: int|
                        0 <= k < given@.len() ==> final(table).spec_solved(shape->Function_0[k])
                            == final(table).spec_solved(#[trigger] given@[k]@),
                    Err(error) => exists|k: int| 0 <= k < passed@.len() && error.spec_span() == #[trigger] passed@[k],
                }
                &&& typed matches Err(error) ==> refuses_unifying(error.spec_kind())
                &&& (forall|k: int|
                    0 <= k < given@.len() ==> old(table).spec_solved(shape->Function_0[k]) == old(
                        table,
                    ).spec_solved(#[trigger] given@[k]@)) ==> typed is Ok && final(table).entries()
                    == old(table).entries()
                &&& arguments_unify(
                    *old(table),
                    pairs_size(*old(table), shape->Function_0, views_of(given@), given@.len() as int) + 1,
                    shape->Function_0,
                    views_of(given@),
                    0,
                    match typed {
                        Ok(_) => Ok(()),
                        Err(error) => clash_of_kind(error.spec_kind()),
                    },
                    *final(table),
                )
            } else if shape is Function && spec_name_of(*callee) is Some {
                &&& *final(table) == *old(table)
                &&& typed matches Err(error)
                &&& error.spec_span() == spec_name_of(*callee)->0.span
                &&& error.spec_kind() matches TypeErrorKind::WrongArgumentCount(count)
                &&& count.name@ == spec_name_of(*callee)->0.text@
                &&& count.takes == shape->Function_0.len()
                &&& count.given == given@.len()
            } else {
                let made = TypeView::Var(TypeVar(old(table).made() as u32));
                &&& final(table).made() == old(table).made() + 1
                &&& match typed {
                    Ok(result) => result@ == made && final(table).spec_solved(signature@)
                        == final(table).spec_solved(TypeView::Function(views_of(given@), Box::new(made))),
                    Err(error) => error.spec_span() == at,
                }
            }
        }),
{
    proof {
        table.lemma_well_formed();
        table.lemma_made_outer(signature@);
        assert(table.entries().take(table.entries().len() as int) =~= table.entries());
    }
    let shape = table.shallow(signature);
    let ghost form = shape@;
    let (parameters, result) = match shape {
        Type::Function { parameters, result } => (parameters, result),
        _ => {
            return applied(table, signature, given, at);
        },
    };
    proof {
        lemma_views_of(parameters@);
    }
    if parameters.len() != given.len() {
        return match name_of(callee) {
            Some(name) => Err(crate::records::miscounted(name, parameters.len(), given.len())),
            None => applied(table, signature, given, at),
        };
    }
    let ghost start = *table;
    let ghost taken = views_of(parameters@);
    let ghost supplied = views_of(given@);
    let ghost first_bound: nat = pairs_size(start, taken, supplied, given@.len() as int) + 1;
    let ghost mut current: nat = first_bound;
    proof {
        lemma_views_of(given@);
        assert forall|k: int| 0 <= k < given@.len() implies size(start.spec_solved(#[trigger] taken[k]))
            + size(start.spec_solved(supplied[k])) < current by {
            lemma_pairs_size(start, taken, supplied, given@.len() as int, k);
        }
    }
    let mut i: usize = 0;
    while i < given.len()
        invariant
            i <= given@.len(),
            parameters@.len() == given@.len(),
            taken == views_of(parameters@),
            supplied == views_of(given@),
            start.well_formed(),
            supplied.len() == given@.len(),
            forall|k: int| 0 <= k < given@.len() ==> #[trigger] supplied[k] == given@[k]@,
            first_bound == pairs_size(start, taken, supplied, given@.len() as int) + 1,
            forall|k: int|
                i <= k < given@.len() ==> size(table.spec_solved(#[trigger] taken[k])) + size(
                    table.spec_solved(supplied[k]),
                ) < current,
            forall|r: Result<(), Clash>, a: Table|
                #[trigger] arguments_unify(*table, current, taken, supplied, i as int, r, a) ==> arguments_unify(
                    start,
                    first_bound,
                    taken,
                    supplied,
                    0,
                    r,
                    a,
                ),
            passed@.len() == given@.len(),
            start == *old(table),
            form == outer(old(table).entries(), old(table).rank(), signature@),
            form == TypeView::Function(views_of(parameters@), Box::new(result@)),
            views_of(parameters@).len() == parameters@.len(),
            forall|k: int| 0 <= k < parameters@.len() ==> #[trigger] views_of(parameters@)[k] == parameters@[k]@,
            start.holds_made(form),
            grew(*table, start),
            forall|k: int| 0 <= k < given@.len() ==> start.holds_made(#[trigger] given@[k]@),
            forall|k: int|
                0 <= k < i ==> table.spec_solved(form->Function_0[k]) == table.spec_solved(#[trigger] given@[k]@),
        decreases given.len() - i,
    {
        let ghost before = *table;
        proof {
            assert(views_of(parameters@)[i as int] == parameters@[i as int]@);
            assert forall|x: TypeVar| mentions(parameters@[i as int]@, x) implies x.0 < table.made() by {
                crate::lookup::lemma_mentions_among_at(form->Function_0, i as int, form->Function_0.len() as int, x);
                assert(mentions(form, x));
            }
        }
        proof {
            assert(size(before.spec_solved(taken[i as int])) + size(before.spec_solved(supplied[i as int])) < current);
        }
        let met = expect(table, &parameters[i], &given[i], passed[i]);
        proof {
            lemma_grew(*table, before, start);
        }
        if let Err(error) = met {
            proof {
                assert(unifies(before, taken[i as int], supplied[i as int], clash_of_kind(error.spec_kind()), *table));
                assert(arguments_unify(before, current, taken, supplied, i as int, clash_of_kind(error.spec_kind()), *table));
                assert(arguments_unify(start, first_bound, taken, supplied, 0, clash_of_kind(error.spec_kind()), *table));
                if forall|k: int| 0 <= k < given@.len() ==> start.spec_solved(form->Function_0[k]) == start.spec_solved(#[trigger] given@[k]@) {
                    assert forall|k: int| 0 <= k < taken.len() implies start.spec_solved(#[trigger] taken[k]) == start.spec_solved(supplied[k]) by {
                        assert(given@[k]@ == supplied[k]);
                    }
                    lemma_agreeing_call(start, first_bound, taken, supplied, clash_of_kind(error.spec_kind()), *table);
                }
            }
            assert(error.spec_span() == passed@[i as int]);
            return Err(error);
        }
        proof {
            table.lemma_count();
            assert(unifies(before, taken[i as int], supplied[i as int], Ok(()), *table));
            let next = next_bound(before, *table, current, taken, supplied);
            assert forall|k: int| i + 1 <= k < given@.len() implies size(
                table.spec_solved(#[trigger] taken[k]),
            ) + size(table.spec_solved(supplied[k])) < next by {
                if table.entries().len() == before.entries().len() {
                    lemma_grew_same(*table, before);
                } else {
                    lemma_pairs_size(*table, taken, supplied, taken.len() as int, k);
                }
            }
            assert forall|r: Result<(), Clash>, a: Table|
                #[trigger] arguments_unify(*table, next, taken, supplied, i + 1, r, a) implies arguments_unify(
                    start,
                    first_bound,
                    taken,
                    supplied,
                    0,
                    r,
                    a,
                ) by {
                assert(grew(*table, before) && room(*table));
                assert(arguments_unify(before, current, taken, supplied, i as int, r, a));
            }
            current = next;
        }
        proof {
            assert forall|k: int| 0 <= k < i + 1 implies table.spec_solved(form->Function_0[k])
                == table.spec_solved(#[trigger] given@[k]@) by {
                if k < i {
                    law_unified_stays_unified(*table, before, form->Function_0[k], given@[k]@);
                }
            }
        }
        i = i + 1;
    }
    proof {
        assert(arguments_unify(*table, current, taken, supplied, i as int, Ok(()), *table));
        assert(arguments_unify(start, first_bound, taken, supplied, 0, Ok(()), *table));
        if forall|k: int| 0 <= k < given@.len() ==> start.spec_solved(form->Function_0[k]) == start.spec_solved(#[trigger] given@[k]@) {
            assert forall|k: int| 0 <= k < taken.len() implies start.spec_solved(#[trigger] taken[k]) == start.spec_solved(supplied[k]) by {
                assert(given@[k]@ == supplied[k]);
            }
            lemma_agreeing_call(start, first_bound, taken, supplied, Ok(()), *table);
        }
    }
    Ok(*result)
}

/// Where every pair of a call already agrees, the loop over them meets each; stated apart so the
/// call's own proof need not carry it.
proof fn lemma_agreeing_call(start: Table, bound: nat, taken: Seq<TypeView>, supplied: Seq<TypeView>, r: Result<(), Clash>, after: Table)
    requires
        start.well_formed(),
        arguments_unify(start, bound, taken, supplied, 0, r, after),
        taken.len() == supplied.len(),
        forall|k: int| 0 <= k < taken.len() ==> start.spec_solved(#[trigger] taken[k]) == start.spec_solved(supplied[k]),
    ensures
        r is Ok,
        after.entries() == start.entries(),
{
    law_agreeing_pairs_unify_settling_nothing(start, bound, taken, supplied, 0, r, after);
}

/// Whether each of `blocks` is already followed to the type `result` is.
pub open spec fn all_agree(table: Table, result: TypeView, blocks: Seq<(Type, Span)>) -> bool {
    forall|k: int|
        0 <= k < blocks.len() ==> table.spec_solved(#[trigger] blocks[k].0@) == table.spec_solved(
            result,
        )
}

/// Every branch of an `if` gives the value the whole `if` gives, once each branch's block has
/// been walked: `result` is what the last block gives, or `()` where there is none, and each of
/// `blocks` is what one branch gives and where its block is written.
pub fn branches_agree(table: &mut Table, result: &Type, blocks: &Vec<(Type, Span)>) -> (met: Result<(), TypeError>)
    requires
        old(table).well_formed(),
        old(table).holds_made(result@),
        forall|k: int| 0 <= k < blocks@.len() ==> old(table).holds_made(#[trigger] blocks@[k].0@),
    ensures
        grew(*final(table), *old(table)),
        met is Ok ==> forall|k: int|
            0 <= k < blocks@.len() ==> final(table).spec_solved(#[trigger] blocks@[k].0@) == final(
                table).spec_solved(result@),
        met matches Err(error) ==> exists|k: int|
            0 <= k < blocks@.len() && error.spec_span() == #[trigger] blocks@[k].1 && (forall|j: int|
                0 <= j < k ==> final(table).spec_solved(#[trigger] blocks@[j].0@)
                    == final(table).spec_solved(result@)) && (error.spec_kind() == TypeErrorKind::Infinite
                || (error.spec_kind() matches TypeErrorKind::Mismatch { expected: wanted, found: given }
                && wanted@ == final(table).spec_solved(result@) && given@ == final(table).spec_solved(
                blocks@[k].0@,
            ))),
        all_agree(*old(table), result@, blocks@) ==> met is Ok
            && final(table).entries() == old(table).entries(),
{
    proof {
        assert(table.entries().take(table.entries().len() as int) =~= table.entries());
    }
    let mut i: usize = 0;
    while i < blocks.len()
        invariant
            i <= blocks@.len(),
            grew(*table, *old(table)),
            old(table).holds_made(result@),
            forall|k: int| 0 <= k < blocks@.len() ==> old(table).holds_made(#[trigger] blocks@[k].0@),
            forall|k: int|
                0 <= k < i ==> table.spec_solved(#[trigger] blocks@[k].0@) == table.spec_solved(result@),
            all_agree(*old(table), result@, blocks@) ==> table.entries() == old(table).entries(),
        decreases blocks.len() - i,
    {
        let ghost before = *table;
        proof {
            if all_agree(*old(table), result@, blocks@) {
                assert(table.rank() == old(table).rank());
                assert(old(table).spec_solved(blocks@[i as int].0@) == old(table).spec_solved(result@));
            }
        }
        let met = expect(table, result, &blocks[i].0, blocks[i].1);
        proof {
            lemma_grew(*table, before, *old(table));
        }
        if let Err(error) = met {
            proof {
                assert forall|j: int| 0 <= j < i implies table.spec_solved(#[trigger] blocks@[j].0@)
                    == table.spec_solved(result@) by {
                    law_unified_stays_unified(*table, before, blocks@[j].0@, result@);
                }
            }
            assert(error.spec_span() == blocks@[i as int].1);
            return Err(error);
        }
        proof {
            assert forall|k: int| 0 <= k < i + 1 implies table.spec_solved(#[trigger] blocks@[k].0@)
                == table.spec_solved(result@) by {
                if k < i {
                    law_unified_stays_unified(*table, before, blocks@[k].0@, result@);
                }
            }
        }
        i = i + 1;
    }
    Ok(())
}

/// What a `for … in` binds, once the type of what it walks is known: each item of the `List`
/// it walks, which is a variable of its own until that list says what it holds.
pub fn walked_over(table: &mut Table, over: &Type, at: Span) -> (item: Result<Type, TypeError>)
    requires
        old(table).well_formed(),
        old(table).made() < u32::MAX,
        old(table).holds_made(over@),
    ensures
        final(table).well_formed(),
        extends(final(table).entries(), old(table).entries()),
        final(table).written() == old(table).written(),
        final(table).made() == old(table).made() + 1,
        match item {
            Ok(found) => found@ == TypeView::Var(TypeVar(old(table).made() as u32)) && final(table).spec_solved(
                over@,
            ) == final(table).spec_solved(TypeView::Named(crate::types::LIST@, seq![found@])),
            Err(error) => error.spec_span() == at,
        },
{
    let item = table.fresh();
    let list = Type::list(item.copied());
    proof {
        assert(table.entries().take(table.entries().len() as int) =~= table.entries());
        assert forall|x: TypeVar| mentions(list@, x) implies x.0 < table.made() by {
            let only = seq![item@];
            assert(only[0] == item@);
            assert(mentions_among(only, 1, x) == (mentions_among(only, 0, x) || mentions(item@, x)));
        }
    }
    expect(table, &list, over, at)?;
    Ok(item)
}

/// What a `return` leaves behind, once the type of what it gives back is known: `found` is held to
/// the function's result, and since control has left the block, what follows may be any type at
/// all, a variable of its own.
pub fn returned(table: &mut Table, result: &Type, found: &Type, at: Span) -> (left: Result<Type, TypeError>)
    requires
        old(table).well_formed(),
        old(table).made() < u32::MAX,
        old(table).holds_made(result@),
        old(table).holds_made(found@),
    ensures
        final(table).well_formed(),
        extends(final(table).entries(), old(table).entries()),
        final(table).written() == old(table).written(),
        match left {
            Ok(after) => final(table).made() == old(table).made() + 1 && after@ == TypeView::Var(
                TypeVar(old(table).made() as u32),
            ) && final(table).spec_solved(result@) == final(table).spec_solved(found@),
            Err(error) => final(table).made() == old(table).made() && error.spec_span() == at
                && refuses_unifying(error.spec_kind()),
        },
        exists|middle: Table|
            #[trigger] grew(middle, *old(table)) && unifies(
                *old(table),
                result@,
                found@,
                match left {
                    Ok(_) => Ok(()),
                    Err(error) => clash_of_kind(error.spec_kind()),
                },
                middle,
            ) && final(table).entries() == middle.entries() && final(table).whole() == middle.whole(),
        old(table).spec_solved(result@) == old(table).spec_solved(found@) ==> left is Ok
            && final(table).entries() == old(table).entries(),
{
    proof {
        assert(table.entries().take(table.entries().len() as int) =~= table.entries());
    }
    let met = expect(table, result, found, at);
    proof {
        if old(table).spec_solved(result@) == old(table).spec_solved(found@) {
            law_one_type_unifies_settling_nothing(*old(table), result@, found@, clash_of(met), *table);
        }
    }
    let ghost middle = *table;
    match met {
        Ok(()) => {
            let made = table.fresh();
            proof {
                assert(clash_of(met) == Ok::<(), Clash>(()));
                assert(grew(middle, *old(table)));
            }
            Ok(made)
        },
        Err(error) => {
            proof {
                assert(grew(middle, *old(table)));
            }
            Err(error)
        },
    }
}

/// A call of something whose type is not yet a function, which unification has to settle: it is
/// held to a function from the arguments given to a result of its own.
fn applied(table: &mut Table, called: &Type, given: Vec<Type>, at: Span) -> (typed: Result<Type, TypeError>)
    requires
        old(table).well_formed(),
        old(table).made() < u32::MAX,
        old(table).holds_made(called@),
        forall|k: int| 0 <= k < given@.len() ==> old(table).holds_made(#[trigger] given@[k]@),
    ensures
        final(table).well_formed(),
        extends(final(table).entries(), old(table).entries()),
        final(table).written() == old(table).written(),
        final(table).made() == old(table).made() + 1,
        ({
            let made = TypeView::Var(TypeVar(old(table).made() as u32));
            match typed {
                Ok(result) => result@ == made && final(table).spec_solved(called@) == final(table).spec_solved(
                    TypeView::Function(views_of(given@), Box::new(made)),
                ),
                Err(error) => error.spec_span() == at,
            }
        }),
{
    let result = table.fresh();
    let ghost middle = *table;
    proof {
        lemma_views_of(given@);
        assert(middle.entries().take(middle.entries().len() as int) =~= middle.entries());
    }
    let function = Type::function(given, result.copied());
    proof {
        assert forall|x: TypeVar| mentions(function@, x) implies x.0 < table.made() by {
            assert(mentions(function@, x) == (mentions_among(views_of(given@), views_of(given@).len() as int, x)
                || mentions(result@, x)));
            if mentions(result@, x) {
                assert(x.0 == old(table).made());
            }
            if mentions_among(views_of(given@), views_of(given@).len() as int, x) {
                crate::lookup::lemma_mentions_among_holds(views_of(given@), x);
                let k = choose|k: int| 0 <= k < views_of(given@).len() && mentions(views_of(given@)[k], x);
                assert(views_of(given@)[k] == given@[k]@);
            }
        }
    }
    let met = expect(table, called, &function, at);
    match met {
        Ok(()) => Ok(result),
        Err(error) => Err(error),
    }
}

} // verus!
