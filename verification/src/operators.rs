//! Which trait each operator is, and what an operator gives back.
//!
//! An operator is a call of its trait's method, so what inference does with one is what it does
//! with any call: it holds the two sides to one type, asks the trait of that type, and gives back
//! what the trait's method gives back.
use vstd::prelude::*;

use crate::ast::{BinaryOperator, Expr, ExprKind, Span, UnaryOperator};
use crate::calls::{clash_of, clash_of_kind, expect, refuses_unifying};
use crate::laws::{law_one_type_unifies_settling_nothing, law_unified_stays_unified};
use crate::prelude::{ADD, DIV, EQ, MUL, NEG, ORD, REM, SUB};
use crate::table::{followed_among, mentions, mentions_among, Table};
use crate::type_error::{TypeError, TypeErrorKind};
use crate::types::{plain, Type, TypeVar, TypeView, BOOL, OPTION};
use crate::unify::{
    arguments_unify, grew, lemma_grew, lemma_grew_same, lemma_pairs_size, next_bound, pairs_size, room, size,
    unifies, Clash,
};

verus! {

/// The trait one operator is, beside the way the reader wrote it.
pub struct Operator {
    pub of: &'static str,
    pub written_as: &'static str,
}

impl Operator {
    /// The operator written `written_as`, which is the trait `of`.
    pub fn new(of: &'static str, written_as: &'static str) -> (operator: Operator)
        ensures
            operator.of == of,
            operator.written_as == written_as,
    {
        Operator { of, written_as }
    }
}

/// The trait an operator is and how it is written, as the specifications read it, or nothing
/// where it is `Bool`'s alone.
pub open spec fn spec_asked_by(operator: BinaryOperator) -> Option<(Seq<char>, Seq<char>)> {
    match operator {
        BinaryOperator::Or | BinaryOperator::And => None,
        BinaryOperator::Equal => Some((EQ@, "=="@)),
        BinaryOperator::NotEqual => Some((EQ@, "!="@)),
        BinaryOperator::Less => Some((ORD@, "<"@)),
        BinaryOperator::LessOrEqual => Some((ORD@, "<="@)),
        BinaryOperator::Greater => Some((ORD@, ">"@)),
        BinaryOperator::GreaterOrEqual => Some((ORD@, ">="@)),
        BinaryOperator::Add => Some((ADD@, "+"@)),
        BinaryOperator::Subtract => Some((SUB@, "-"@)),
        BinaryOperator::Multiply => Some((MUL@, "*"@)),
        BinaryOperator::Divide => Some((DIV@, "/"@)),
        BinaryOperator::Remainder => Some((REM@, "%"@)),
    }
}

/// The trait an operator is, and how it is written, or nothing where it is `Bool`'s alone.
///
/// `&&` and `||` each decide whether to run the other side, which no call can, so they stay
/// `Bool`'s alone.
pub fn asked_by(operator: BinaryOperator) -> (asked: Option<Operator>)
    ensures
        match spec_asked_by(operator) {
            Some((of, written_as)) => asked matches Some(found) && found.of@ == of
                && found.written_as@ == written_as,
            None => asked is None,
        },
{
    let asked = match operator {
        BinaryOperator::Or | BinaryOperator::And => return None,
        BinaryOperator::Equal => Operator::new(EQ, "=="),
        BinaryOperator::NotEqual => Operator::new(EQ, "!="),
        BinaryOperator::Less => Operator::new(ORD, "<"),
        BinaryOperator::LessOrEqual => Operator::new(ORD, "<="),
        BinaryOperator::Greater => Operator::new(ORD, ">"),
        BinaryOperator::GreaterOrEqual => Operator::new(ORD, ">="),
        BinaryOperator::Add => Operator::new(ADD, "+"),
        BinaryOperator::Subtract => Operator::new(SUB, "-"),
        BinaryOperator::Multiply => Operator::new(MUL, "*"),
        BinaryOperator::Divide => Operator::new(DIV, "/"),
        BinaryOperator::Remainder => Operator::new(REM, "%"),
    };
    Some(asked)
}

/// What an operator over `found` gives back, as the specifications read it.
pub open spec fn spec_gives_back(operator: BinaryOperator, found: TypeView) -> TypeView {
    match operator {
        BinaryOperator::Equal | BinaryOperator::NotEqual | BinaryOperator::Less
        | BinaryOperator::LessOrEqual | BinaryOperator::Greater
        | BinaryOperator::GreaterOrEqual => plain(BOOL@),
        BinaryOperator::Divide | BinaryOperator::Remainder => TypeView::Named(
            OPTION@,
            seq![found],
        ),
        _ => found,
    }
}

/// What an operator gives back, which is what its trait's method gives back: a comparison a
/// `Bool`, a division an `Option`, since there is none by zero, and the rest what they are over.
pub fn gives_back(operator: BinaryOperator, found: Type) -> (given: Type)
    ensures
        given@ == spec_gives_back(operator, found@),
{
    match operator {
        BinaryOperator::Equal | BinaryOperator::NotEqual | BinaryOperator::Less
        | BinaryOperator::LessOrEqual | BinaryOperator::Greater
        | BinaryOperator::GreaterOrEqual => Type::boolean(),
        BinaryOperator::Divide | BinaryOperator::Remainder => Type::option(found),
        BinaryOperator::Or | BinaryOperator::And | BinaryOperator::Add | BinaryOperator::Subtract
        | BinaryOperator::Multiply => found,
    }
}

/// Refuses a division by a `0` the compiler can already see, which has no answer to give.
pub fn divides_by_zero(right: &Expr) -> (checked: Result<(), TypeError>)
    ensures
        match right.kind {
            ExprKind::Integer(0) => checked matches Err(error) && error.spec_kind()
                == TypeErrorKind::DivisorIsZero && error.spec_span() == right.span,
            _ => checked is Ok,
        },
{
    match right.kind {
        ExprKind::Integer(0) => Err(TypeError::at(right.span, TypeErrorKind::DivisorIsZero)),
        _ => Ok(()),
    }
}

/// One operator waiting on the type its operands settled on, which its trait is asked of.
#[derive(Debug)]
pub struct Operated {
    /// The trait the operator is.
    pub of: &'static str,
    /// What the reader wrote, which is how a type with no instance of `of` is refused.
    pub written_as: &'static str,
    pub at: Type,
    /// The whole expression, which is what a refused operator points the reader at.
    pub written: Span,
}

impl Operated {
    /// `+=` adds, so it asks `Add` of the type of what is being assigned to.
    pub fn adds_to(assigned: Type, at: Span) -> (operated: Operated)
        ensures
            operated.of == ADD,
            operated.written_as@ == "+="@,
            operated.at@ == assigned@,
            operated.written == at,
    {
        Operated { of: ADD, written_as: "+=", at: assigned, written: at }
    }
}

/// A type named and applied to nothing mentions no variable.
pub proof fn lemma_plain_holds_nothing(table: Table, name: Seq<char>)
    ensures
        table.holds_made(plain(name)),
{
    assert forall|x: TypeVar| mentions(plain(name), x) implies x.0 < table.made() by {
        assert(mentions(plain(name), x) == mentions_among(Seq::<TypeView>::empty(), 0, x));
    }
}

/// A type named and applied to nothing is itself however it is followed.
pub proof fn lemma_plain_solved(table: Table, name: Seq<char>)
    requires
        table.well_formed(),
    ensures
        table.spec_solved(plain(name)) == plain(name),
{
    table.lemma_well_formed();
    let none = followed_among(table.entries(), table.rank(), Set::empty(), false, Seq::<TypeView>::empty(), 0);
    assert(none =~= Seq::<TypeView>::empty());
}

/// What a prefix operator over an operand of type `found` gives back, once the operand's type is
/// known: `!` asks nothing of a type and gives a `Bool`, and prefix `-` asks `Neg` of the one it is
/// written over and gives that type back.
///
/// `operand` is where the operand is written, which a `!` over something not a `Bool` points at;
/// `at` is the whole expression, which an operator with no instance points at.
pub fn unary(table: &mut Table, operator: UnaryOperator, found: Type, operand: Span, at: Span) -> (typed:
    Result<(Type, Option<Operated>), TypeError>)
    requires
        old(table).well_formed(),
        old(table).holds_made(found@),
    ensures
        grew(*final(table), *old(table)),
        match operator {
            UnaryOperator::Not => match typed {
                Ok((given, asked)) => given@ == plain(BOOL@) && asked is None && final(table).spec_solved(
                    found@,
                ) == plain(BOOL@),
                Err(error) => error.spec_span() == operand,
            },
            UnaryOperator::Negate => {
                &&& *final(table) == *old(table)
                &&& typed matches Ok((given, asked))
                &&& given@ == found@
                &&& asked matches Some(operated)
                &&& operated.of == NEG
                &&& operated.written_as@ == "-"@
                &&& operated.at@ == found@
                &&& operated.written == at
            },
        },
        operator == UnaryOperator::Not ==> unifies(*old(table), plain(BOOL@), found@, operands_clash(typed), *final(table)),
        typed matches Err(error) ==> refuses_unifying(error.spec_kind()),
{
    proof {
        assert(table.entries().take(table.entries().len() as int) =~= table.entries());
    }
    match operator {
        UnaryOperator::Not => {
            let boolean = Type::boolean();
            proof {
                lemma_plain_holds_nothing(*table, BOOL@);
            }
            let met = expect(table, &boolean, &found, operand);
            if let Err(error) = met {
                return Err(error);
            }
            proof {
                assert(clash_of(met) == Ok::<(), Clash>(()));
            }
            proof {
                table.lemma_well_formed();
                lemma_plain_solved(*table, BOOL@);
            }
            Ok((Type::boolean(), None))
        },
        UnaryOperator::Negate => {
            let operated = Operated { of: NEG, written_as: "-", at: found.copied(), written: at };
            Ok((found, Some(operated)))
        },
    }
}

/// Whether `operator` divides by a `0` written as its right operand, which has no answer to give.
pub open spec fn divides_by_a_written_zero(operator: BinaryOperator, right: Expr) -> bool {
    (operator == BinaryOperator::Divide || operator == BinaryOperator::Remainder) && right.kind
        == ExprKind::Integer(0)
}

/// The way unifying an operator's operands failed, where the operator was refused for that, and
/// `Ok` where it was not.
pub open spec fn operands_clash(typed: Result<(Type, Option<Operated>), TypeError>) -> Result<(), Clash> {
    match typed {
        Ok(_) => Ok(()),
        Err(error) => clash_of_kind(error.spec_kind()),
    }
}

/// What a binary operator over operands of types `found` and `other` gives back, once both
/// types are known.
///
/// `&&` and `||` hold both sides to `Bool` and give a `Bool`. Every other operator holds the two
/// sides to one type, asks its trait of that type, and gives back what the trait's method gives
/// back; a division or remainder by a `0` written in the source is refused. `left` is where the
/// left operand is written, `right` the right operand itself, and `at` the whole expression.
pub fn binary(
    table: &mut Table,
    operator: BinaryOperator,
    found: Type,
    other: Type,
    left: Span,
    right: &Expr,
    at: Span,
) -> (typed: Result<(Type, Option<Operated>), TypeError>)
    requires
        old(table).well_formed(),
        old(table).holds_made(found@),
        old(table).holds_made(other@),
    ensures
        grew(*final(table), *old(table)),
        match spec_asked_by(operator) {
            None => match typed {
                Ok((given, asked)) => given@ == plain(BOOL@) && asked is None && final(table).spec_solved(
                    found@,
                ) == plain(BOOL@) && final(table).spec_solved(other@) == plain(BOOL@),
                Err(error) => error.spec_span() == left || error.spec_span() == right.span,
            },
            Some((of, written_as)) => match typed {
                Ok((given, asked)) => {
                    &&& final(table).spec_solved(found@) == final(table).spec_solved(other@)
                    &&& !((operator == BinaryOperator::Divide || operator == BinaryOperator::Remainder)
                        && right.kind == ExprKind::Integer(0))
                    &&& given@ == spec_gives_back(operator, found@)
                    &&& asked matches Some(operated)
                    &&& operated.of@ == of
                    &&& operated.written_as@ == written_as
                    &&& operated.at@ == found@
                    &&& operated.written == at
                },
                Err(error) => error.spec_span() == right.span,
            },
        },
        typed matches Err(error) ==> refuses_unifying(error.spec_kind()) || (error.spec_kind()
            == TypeErrorKind::DivisorIsZero && divides_by_a_written_zero(operator, *right)
            && spec_asked_by(operator) is Some),
        spec_asked_by(operator) is Some ==> unifies(*old(table), found@, other@, operands_clash(typed), *final(table)),
        spec_asked_by(operator) is Some && old(table).spec_solved(found@) == old(table).spec_solved(other@)
            && !divides_by_a_written_zero(operator, *right) ==> typed is Ok,
        spec_asked_by(operator) is None ==> arguments_unify(
            *old(table),
            pairs_size(*old(table), seq![plain(BOOL@), plain(BOOL@)], seq![found@, other@], 2) + 1,
            seq![plain(BOOL@), plain(BOOL@)],
            seq![found@, other@],
            0,
            operands_clash(typed),
            *final(table),
        ),
{
    proof {
        assert(table.entries().take(table.entries().len() as int) =~= table.entries());
    }
    let asked = match asked_by(operator) {
        None => {
            let boolean = Type::boolean();
            proof {
                lemma_plain_holds_nothing(*table, BOOL@);
            }
            let ghost start = *table;
            let ghost bools = seq![plain(BOOL@), plain(BOOL@)];
            let ghost operands = seq![found@, other@];
            let ghost bound: nat = pairs_size(start, bools, operands, 2) + 1;
            proof {
                lemma_pairs_size(start, bools, operands, 2, 0);
                lemma_pairs_size(start, bools, operands, 2, 1);
                assert(boolean@ == bools[0]);
            }
            let first = expect(table, &boolean, &found, left);
            if let Err(error) = first {
                proof {
                    assert(unifies(start, bools[0], operands[0], clash_of_kind(error.spec_kind()), *table));
                    assert(arguments_unify(start, bound, bools, operands, 0, clash_of_kind(error.spec_kind()), *table));
                }
                return Err(error);
            }
            let ghost between = *table;
            proof {
                table.lemma_count();
                assert(unifies(start, bools[0], operands[0], Ok(()), between));
            }
            let ghost next = next_bound(start, between, bound, bools, operands);
            proof {
                if between.entries().len() == start.entries().len() {
                    lemma_grew_same(between, start);
                } else {
                    lemma_pairs_size(between, bools, operands, 2, 1);
                }
                assert(size(between.spec_solved(bools[1])) + size(between.spec_solved(operands[1])) < next);
            }
            let met = expect(table, &boolean, &other, right.span);
            proof {
                lemma_grew(*table, between, start);
                assert(unifies(between, bools[1], operands[1], clash_of(met), *table));
                table.lemma_count();
                if met is Ok {
                    assert(clash_of(met) == Ok::<(), Clash>(()));
                    assert(grew(*table, between) && room(*table));
                    assert(arguments_unify(*table, next_bound(between, *table, next, bools, operands), bools, operands, 2, Ok(()), *table));
                }
                assert(arguments_unify(between, next, bools, operands, 1, clash_of(met), *table));
                assert(grew(between, start) && room(between));
                assert(arguments_unify(start, bound, bools, operands, 0, clash_of(met), *table));
            }
            met?;
            proof {
                law_unified_stays_unified(*table, between, boolean@, found@);
                table.lemma_well_formed();
                lemma_plain_solved(*table, BOOL@);
            }
            return Ok((Type::boolean(), None));
        },
        Some(asked) => asked,
    };
    let met = expect(table, &found, &other, right.span);
    proof {
        if old(table).spec_solved(found@) == old(table).spec_solved(other@) {
            law_one_type_unifies_settling_nothing(*old(table), found@, other@, clash_of(met), *table);
        }
    }
    if let Err(error) = met {
        return Err(error);
    }
    proof {
        assert(clash_of(met) == Ok::<(), Clash>(()));
    }
    if operator == BinaryOperator::Divide || operator == BinaryOperator::Remainder {
        divides_by_zero(right)?;
    }
    let operated = Operated { of: asked.of, written_as: asked.written_as, at: found.copied(), written: at };
    Ok((gives_back(operator, found), Some(operated)))
}

} // verus!
