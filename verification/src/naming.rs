//! How a function is named and what it takes, which say what a call of it means.
//!
//! A function whose result is `Bool` answers a question, so its name asks one: `active(user)`
//! reads as a command at every call site, and `is_active(user)` reads as the question it is. And
//! `open(true)` says nothing, so no parameter is a bare `Bool`, but for a boolean operation.
use vstd::prelude::*;

use crate::ast::{Name, Parameter};
use crate::text::begins_with;
use crate::type_error::{TypeError, TypeErrorKind};
use crate::types::{lemma_views_of, plain, Type, TypeView, BOOL};

verus! {

/// The four prefixes a name asks its question with, which are all the questions a program asks.
pub open spec fn questions() -> Seq<Seq<char>> {
    seq!["is_"@, "has_"@, "can_"@, "should_"@]
}

/// Whether `name` begins with `prefix`.
pub open spec fn opens_with(name: Seq<char>, prefix: Seq<char>) -> bool {
    prefix.len() <= name.len() && name.subrange(0, prefix.len() as int) == prefix
}

/// Whether `name` begins with one of the four prefixes, which is how it asks its question.
pub fn asks_a_question(name: &str) -> (asks: bool)
    ensures
        asks == exists|k: int| 0 <= k < 4 && opens_with(name@, #[trigger] questions()[k]),
{
    let asks = begins_with(name, "is_") || begins_with(name, "has_") || begins_with(name, "can_")
        || begins_with(name, "should_");
    proof {
        if asks {
            if opens_with(name@, "is_"@) {
                assert(opens_with(name@, questions()[0]));
            } else if opens_with(name@, "has_"@) {
                assert(opens_with(name@, questions()[1]));
            } else if opens_with(name@, "can_"@) {
                assert(opens_with(name@, questions()[2]));
            } else {
                assert(opens_with(name@, questions()[3]));
            }
        } else {
            assert forall|k: int| 0 <= k < 4 implies !opens_with(name@, #[trigger] questions()[k]) by {
                if k == 0 {
                } else if k == 1 {
                } else if k == 2 {
                } else {
                }
            }
        }
    }
    asks
}

/// Whether `t` is a bare `Bool`.
pub fn is_boolean(t: &Type) -> (boolean: bool)
    ensures
        boolean == (t@ == plain(BOOL@)),
{
    match t {
        Type::Named { name, arguments } => {
            proof {
                lemma_views_of(arguments@);
                if arguments@.len() == 0 {
                    assert(crate::types::views_of(arguments@) =~= Seq::<TypeView>::empty());
                }
            }
            crate::text::same_text(name.as_str(), BOOL) && arguments.len() == 0
        },
        _ => false,
    }
}

/// Whether a signature is a boolean operation, which is the one carve-out the flag rule has.
///
/// `Bool` is what such a function is about rather than something it is told, so a parameter of it
/// is an operand. A `Bool` among other types, or one whose function gives back something else, is
/// a choice the call makes and says nothing about.
pub fn operates_on_booleans(taken: &Vec<Type>, gives: &Type) -> (operates: bool)
    ensures
        operates == (gives@ == plain(BOOL@) && forall|k: int|
            0 <= k < taken@.len() ==> (#[trigger] taken@[k])@ == plain(BOOL@)),
{
    if !is_boolean(gives) {
        return false;
    }
    let mut i: usize = 0;
    while i < taken.len()
        invariant
            i <= taken@.len(),
            forall|k: int| 0 <= k < i ==> (#[trigger] taken@[k])@ == plain(BOOL@),
        decreases taken.len() - i,
    {
        if !is_boolean(&taken[i]) {
            return false;
        }
        i = i + 1;
    }
    true
}

/// A parameter a call of `named` could say no more than `true` of.
pub fn flag(written: &Parameter, named: &Name) -> (refused: TypeError)
    ensures
        refused.spec_kind() == TypeErrorKind::FlagParameter(named.text),
        refused.spec_span() == written.span,
{
    let kind = TypeErrorKind::FlagParameter(named.text.clone());
    TypeError::at(written.span, kind)
}

/// A function whose result is `Bool` and whose name asks nothing, refused at its name.
pub fn not_a_predicate(named: &Name) -> (refused: TypeError)
    ensures
        refused.spec_kind() == TypeErrorKind::NotAPredicate(named.text),
        refused.spec_span() == named.span,
{
    let kind = TypeErrorKind::NotAPredicate(named.text.clone());
    TypeError::at(named.span, kind)
}

/// The name of one function, held to the question its result says it answers, where `result` is
/// the type inference settled its result on.
pub fn named_for_its_result(result: &Type, named: &Name) -> (checked: Result<(), TypeError>)
    ensures
        result@ == plain(BOOL@) && !(exists|k: int|
            0 <= k < 4 && opens_with(named.text@, #[trigger] questions()[k])) ==> (checked matches Err(
            error,
        ) && error.spec_kind() == TypeErrorKind::NotAPredicate(named.text) && error.spec_span()
            == named.span),
        !(result@ == plain(BOOL@) && !(exists|k: int|
            0 <= k < 4 && opens_with(named.text@, #[trigger] questions()[k]))) ==> checked is Ok,
{
    if !is_boolean(result) || asks_a_question(named.text.as_str()) {
        return Ok(());
    }
    Err(not_a_predicate(named))
}

/// The first of `parameters` that is a bare `Bool`, where `taken` is what inference settled each
/// on and `gives` what it settled the result on, unless the function is a boolean operation.
pub fn first_flag(parameters: &Vec<Parameter>, taken: &Vec<Type>, gives: &Type, named: &Name) -> (checked:
    Result<(), TypeError>)
    requires
        parameters@.len() == taken@.len(),
    ensures
        ({
            let operation = gives@ == plain(BOOL@) && forall|k: int|
                0 <= k < taken@.len() ==> (#[trigger] taken@[k])@ == plain(BOOL@);
            let some_flag = exists|k: int| 0 <= k < taken@.len() && (#[trigger] taken@[k])@ == plain(BOOL@);
            &&& (operation || !some_flag) <==> checked is Ok
            &&& checked matches Err(error) ==> (error.spec_kind() == TypeErrorKind::FlagParameter(
                named.text,
            ) && exists|k: int|
                0 <= k < taken@.len() && (#[trigger] taken@[k])@ == plain(BOOL@) && error.spec_span()
                    == parameters@[k].span && forall|j: int| 0 <= j < k ==> taken@[j]@ != plain(BOOL@))
        }),
{
    if operates_on_booleans(taken, gives) {
        return Ok(());
    }
    let mut i: usize = 0;
    while i < taken.len()
        invariant
            i <= taken@.len(),
            parameters@.len() == taken@.len(),
            forall|k: int| 0 <= k < i ==> (#[trigger] taken@[k])@ != plain(BOOL@),
            !(gives@ == plain(BOOL@) && forall|k: int|
                0 <= k < taken@.len() ==> (#[trigger] taken@[k])@ == plain(BOOL@)),
        decreases taken.len() - i,
    {
        if is_boolean(&taken[i]) {
            let refused = flag(&parameters[i], named);
            proof {
                assert((taken@[i as int])@ == plain(BOOL@));
                assert(0 <= i < taken@.len() && (taken@[i as int])@ == plain(BOOL@) && refused.spec_span()
                    == parameters@[i as int].span && forall|j: int| 0 <= j < i ==> taken@[j]@ != plain(BOOL@));
            }
            return Err(refused);
        }
        i = i + 1;
    }
    Ok(())
}

} // verus!
