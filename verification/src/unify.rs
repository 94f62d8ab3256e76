//! Making two types one type, or saying that they are not.
use vstd::prelude::*;

use crate::table::{
    followed, followed_among, height, height_among, holds_var, index_of, is_key, keys_unique,
    lemma_body_height, lemma_followed_among, lemma_height_among, lemma_mentions_among, lemma_outer,
    mentions, mentions_among, outer, ranked, solved, Entries, Rank, Table,
};
use crate::types::{lemma_views_of, views_of, Type, TypeVar, TypeView};

verus! {

/// The two ways unification fails.
#[derive(Clone, Copy, Debug, PartialEq, Eq, Structural)]
pub enum Clash {
    /// The two are different types.
    Mismatch,
    /// One of the two would have to contain itself.
    Infinite,
}

/// How many constructors `t` is written with, which unification takes apart one at a time.
pub open spec fn size(t: TypeView) -> nat
    decreases t, 0int,
{
    match t {
        TypeView::Named(_, arguments) => 1 + size_among(arguments, arguments.len() as int),
        TypeView::Function(parameters, result) => 1 + size_among(
            parameters,
            parameters.len() as int,
        ) + size(*result),
        _ => 1,
    }
}

/// How many constructors the first `n` of `types` are written with together.
pub open spec fn size_among(types: Seq<TypeView>, n: int) -> nat
    decreases types, n,
{
    if n <= 0 || n > types.len() {
        0
    } else {
        size_among(types, n - 1) + size(types[n - 1])
    }
}

/// Each of the first `n` is written with no more constructors than all of them together.
pub proof fn lemma_size_among(types: Seq<TypeView>, n: int, k: int)
    requires
        0 <= k < n <= types.len(),
    ensures
        size(types[k]) <= size_among(types, n),
    decreases n,
{
    if k < n - 1 {
        lemma_size_among(types, n - 1, k);
    }
}

/// Whether `big` holds everything `small` settles, settled the same way, and maybe more.
pub open spec fn extends(big: Entries, small: Entries) -> bool {
    small.len() <= big.len() && big.take(small.len() as int) == small
}

/// Where `big` holds everything `small` settles, following under `big` what was already
/// followed under `small` is following under `big` alone.
pub proof fn lemma_extends(
    big: Entries,
    big_rank: Rank,
    small: Entries,
    small_rank: Rank,
    t: TypeView,
)
    requires
        ranked(big, big_rank),
        ranked(small, small_rank),
        keys_unique(big),
        extends(big, small),
    ensures
        solved(big, big_rank, solved(small, small_rank, t)) == solved(big, big_rank, t),
    decreases height(small, small_rank, t), t, 0int,
{
    let none = Set::<TypeVar>::empty();
    match t {
        TypeView::Var(v) => if is_key(small, v) {
            lemma_body_height(small, small_rank, v);
            let k = index_of(small, v);
            assert(big[k] == small[k]);
            assert(is_key(big, v));
            assert(index_of(big, v) == k);
            lemma_extends(big, big_rank, small, small_rank, small[k].1);
            assert(solved(small, small_rank, t) == solved(small, small_rank, small[k].1));
            assert(solved(big, big_rank, t) == solved(big, big_rank, big[k].1));
            assert(solved(big, big_rank, solved(small, small_rank, t)) == solved(big, big_rank, t));
        } else {
            assert(solved(small, small_rank, t) == t);
            assert(solved(big, big_rank, solved(small, small_rank, t)) == solved(big, big_rank, t));
        },
        TypeView::Named(name, arguments) => {
            lemma_extends_among(big, big_rank, small, small_rank, arguments, arguments.len() as int);
            lemma_followed_among(small, small_rank, none, false, arguments, arguments.len() as int);
        },
        TypeView::Function(parameters, result) => {
            lemma_extends_among(big, big_rank, small, small_rank, parameters, parameters.len() as int);
            lemma_followed_among(small, small_rank, none, false, parameters, parameters.len() as int);
            lemma_extends(big, big_rank, small, small_rank, *result);
        },
        _ => {},
    }
}

/// The same, for the first `n` of a sequence of types, one by one.
pub proof fn lemma_extends_among(
    big: Entries,
    big_rank: Rank,
    small: Entries,
    small_rank: Rank,
    types: Seq<TypeView>,
    n: int,
)
    requires
        ranked(big, big_rank),
        ranked(small, small_rank),
        keys_unique(big),
        extends(big, small),
        0 <= n <= types.len(),
    ensures
        followed_among(
            big,
            big_rank,
            Set::empty(),
            false,
            followed_among(small, small_rank, Set::empty(), false, types, n),
            n,
        ) == followed_among(big, big_rank, Set::empty(), false, types, n),
    decreases height_among(small, small_rank, types, n), types, n,
{
    let none = Set::<TypeVar>::empty();
    if n > 0 {
        lemma_extends_among(big, big_rank, small, small_rank, types, n - 1);
        lemma_extends(big, big_rank, small, small_rank, types[n - 1]);
        let inner = followed_among(small, small_rank, none, false, types, n);
        let shorter = followed_among(small, small_rank, none, false, types, n - 1);
        lemma_followed_among(small, small_rank, none, false, types, n);
        lemma_followed_among(small, small_rank, none, false, types, n - 1);
        lemma_followed_among(big, big_rank, none, false, inner, n);
        lemma_followed_among(big, big_rank, none, false, shorter, n - 1);
        lemma_followed_among(big, big_rank, none, false, types, n);
        lemma_followed_among(big, big_rank, none, false, types, n - 1);
        assert(followed_among(big, big_rank, none, false, inner, n) =~= followed_among(
            big,
            big_rank,
            none,
            false,
            types,
            n,
        )) by {
            assert forall|k: int| 0 <= k < n implies followed_among(
                big,
                big_rank,
                none,
                false,
                inner,
                n,
            )[k] == followed_among(big, big_rank, none, false, types, n)[k] by {
                if k < n - 1 {
                    assert(inner[k] == shorter[k]);
                    assert(followed_among(big, big_rank, none, false, shorter, n - 1)[k]
                        == followed_among(big, big_rank, none, false, types, n - 1)[k]);
                }
            }
        }
    }
}

/// Following the outermost variable under a smaller table changes nothing a larger one follows.
pub proof fn lemma_outer_extends(
    big: Entries,
    big_rank: Rank,
    small: Entries,
    small_rank: Rank,
    t: TypeView,
)
    requires
        ranked(big, big_rank),
        ranked(small, small_rank),
        keys_unique(big),
        extends(big, small),
    ensures
        solved(big, big_rank, outer(small, small_rank, t)) == solved(big, big_rank, t),
{
    lemma_outer(small, small_rank, Set::empty(), false, t);
    lemma_extends(big, big_rank, small, small_rank, t);
    lemma_extends(big, big_rank, small, small_rank, outer(small, small_rank, t));
}

/// What holds of a table after one step of unification, given what held before it.
pub open spec fn grew(after: Table, before: Table) -> bool {
    &&& after.well_formed()
    &&& after.made() == before.made()
    &&& after.written() == before.written()
    &&& extends(after.entries(), before.entries())
    &&& after.entries() == before.entries() ==> after.rank() == before.rank()
}

/// A table grew from itself.
proof fn lemma_grew_refl(table: Table)
    requires
        table.well_formed(),
    ensures
        grew(table, table),
{
    assert(table.entries().take(table.entries().len() as int) =~= table.entries());
}

/// A table settling what another settles, and nothing else, extends it.
proof fn lemma_extends_refl(entries: Entries)
    ensures
        extends(entries, entries),
{
    assert(entries.take(entries.len() as int) =~= entries);
}

/// A table that grew from one that grew from a third grew from the third.
pub proof fn lemma_grew(last: Table, middle: Table, first: Table)
    requires
        grew(last, middle),
        grew(middle, first),
    ensures
        grew(last, first),
{
    assert(last.entries().take(first.entries().len() as int) =~= last.entries().take(
        middle.entries().len() as int,
    ).take(first.entries().len() as int));
    if last.entries() == first.entries() {
        assert(middle.entries().len() == first.entries().len());
        assert(middle.entries() =~= middle.entries().take(first.entries().len() as int));
        assert(last.entries().len() == middle.entries().len());
        assert(last.entries() =~= last.entries().take(middle.entries().len() as int));
    }
}

/// A table that grew and settled nothing more is the table it grew from, ranks and all.
pub proof fn lemma_grew_same(after: Table, before: Table)
    requires
        grew(after, before),
        after.entries().len() == before.entries().len(),
    ensures
        after.entries() == before.entries(),
        after.rank() == before.rank(),
{
    assert(after.entries() =~= after.entries().take(before.entries().len() as int));
}

/// Whether a whole number may not be `to`: it is no variable and no type a whole number is
/// written at.
pub open spec fn takes_no_number(table: Table, to: TypeView) -> bool {
    !(to is Var) && !(to matches TypeView::Named(name, _) && table.written().contains(name))
}

/// What meeting the unsettled variable `var` with `to` comes to: refused as infinite where `to`
/// holds it, refused as a mismatch where `var` stands for a whole number and `to` takes none,
/// the table unchanged either way; and otherwise `var` settled on `to`.
pub open spec fn meets_var(before: Table, var: TypeVar, to: TypeView, unified: Result<(), Clash>, after: Table) -> bool {
    if mentions(before.spec_solved(to), var) {
        unified == Err::<(), Clash>(Clash::Infinite) && after.entries() == before.entries()
    } else if before.whole().contains(var) && takes_no_number(before, to) {
        unified == Err::<(), Clash>(Clash::Mismatch) && after.entries() == before.entries()
            && after.whole() == before.whole()
    } else {
        unified is Ok && after.entries() == before.entries().push((var, to))
    }
}

/// Whether two types that are no variables differ where they begin: another constructor, another
/// name or parameter or module, or another number of arguments.
pub open spec fn heads_clash(one: TypeView, other: TypeView) -> bool {
    match (one, other) {
        (TypeView::Unit, TypeView::Unit) => false,
        (TypeView::Parameter(a, o), TypeView::Parameter(b, p)) => !(a == b && o == p),
        (TypeView::Module(a), TypeView::Module(b)) => a != b,
        (TypeView::Named(n, xs), TypeView::Named(m, ys)) => !(n == m && xs.len() == ys.len()),
        (TypeView::Function(ps, _), TypeView::Function(qs, _)) => ps.len() != qs.len(),
        _ => true,
    }
}

/// What unifying `expected` with `found` comes to where the two are told apart where they
/// begin, each followed past its settled variables first: two types already followed to one type
/// are one, with nothing settled; a variable meets the other type as `meets_var` says; and two
/// types that begin differently are a mismatch, with nothing settled.
pub open spec fn unifies_as(
    before: Table,
    expected: TypeView,
    found: TypeView,
    unified: Result<(), Clash>,
    after: Table,
) -> bool {
    let one = outer(before.entries(), before.rank(), expected);
    let other = outer(before.entries(), before.rank(), found);
    &&& before.spec_solved(expected) == before.spec_solved(found) ==> unified is Ok
        && after.entries() == before.entries()
    &&& (one is Var && other != one) ==> meets_var(before, one->Var_0, other, unified, after)
    &&& (!(one is Var) && other is Var) ==> meets_var(before, other->Var_0, one, unified, after)
    &&& (!(one is Var) && !(other is Var) && heads_clash(one, other)) ==> unified == Err::<
        (),
        Clash,
    >(Clash::Mismatch) && after.entries() == before.entries()
}

/// Whether `after` holds what `before` holds: the same entries, whole numbers, types a whole
/// number is written at, and variables made.
pub open spec fn unchanged(after: Table, before: Table) -> bool {
    &&& after.entries() == before.entries()
    &&& after.whole() == before.whole()
    &&& after.written() == before.written()
    &&& after.made() == before.made()
}

/// Whether a table can still settle what it has made: it has settled no more variables than it made.
pub open spec fn room(table: Table) -> bool {
    table.entries().len() <= table.made()
}

/// What meeting the unsettled variable `var` with `to` leaves in the table, all of it: as
/// `meets_var` says, with nothing else changed but that a whole number met with a variable makes
/// that variable a whole number too.
pub open spec fn settles_var(
    before: Table,
    var: TypeVar,
    to: TypeView,
    unified: Result<(), Clash>,
    after: Table,
) -> bool {
    &&& meets_var(before, var, to, unified, after)
    &&& after.written() == before.written()
    &&& after.made() == before.made()
    &&& after.whole() == if unified is Ok && before.whole().contains(var) && to is Var {
        before.whole().insert(to->Var_0)
    } else {
        before.whole()
    }
}

/// How many constructors the first `n` pairs of `theirs` and `ours` are written with, solved in
/// `table`, all together.
pub open spec fn pairs_size(table: Table, theirs: Seq<TypeView>, ours: Seq<TypeView>, n: int) -> nat
    decreases n,
{
    if n <= 0 || n > theirs.len() || n > ours.len() {
        0
    } else {
        pairs_size(table, theirs, ours, n - 1) + size(table.spec_solved(theirs[n - 1])) + size(
            table.spec_solved(ours[n - 1]),
        )
    }
}

/// The bound the pairs left are measured against once one pair has been unified: the same where
/// nothing was settled, and otherwise one more than all of them together.
pub open spec fn next_bound(
    before: Table,
    after: Table,
    bound: nat,
    theirs: Seq<TypeView>,
    ours: Seq<TypeView>,
) -> nat {
    if after.entries().len() == before.entries().len() {
        bound
    } else {
        pairs_size(after, theirs, ours, theirs.len() as int) + 1
    }
}

/// What unifying `expected` with `found` in `before` comes to, with the table it leaves: the two
/// are told apart where they begin, each followed past its settled variables. A variable meets
/// the other type as `settles_var` says, and one that meets itself is already one type. Two types
/// that begin differently are a mismatch. Two named types of one name and number of arguments
/// unify their arguments in order, and stop at the first that does not unify; two function types
/// of one number of parameters do the same with their parameters and then unify their results.
/// Anything else that begins the same way is already one type.
pub open spec fn unifies(
    before: Table,
    expected: TypeView,
    found: TypeView,
    unified: Result<(), Clash>,
    after: Table,
) -> bool
    decreases before.made() - before.entries().len(), size(before.spec_solved(expected)) + size(
        before.spec_solved(found),
    ), 1int, 0int,
{
    let one = outer(before.entries(), before.rank(), expected);
    let other = outer(before.entries(), before.rank(), found);
    let bound = size(before.spec_solved(expected)) + size(before.spec_solved(found));
    if one is Var {
        if other == one {
            unified is Ok && unchanged(after, before)
        } else {
            settles_var(before, one->Var_0, other, unified, after)
        }
    } else if other is Var {
        settles_var(before, other->Var_0, one, unified, after)
    } else if heads_clash(one, other) {
        unified == Err::<(), Clash>(Clash::Mismatch) && unchanged(after, before)
    } else {
        match (one, other) {
            (TypeView::Named(_, theirs), TypeView::Named(_, ours)) => arguments_unify(
                before,
                bound,
                theirs,
                ours,
                0,
                unified,
                after,
            ),
            (TypeView::Function(theirs, result), TypeView::Function(ours, other_result)) => {
                ||| (unified is Err && arguments_unify(before, bound, theirs, ours, 0, unified, after))
                ||| exists|middle: Table|
                    #[trigger] grew(middle, before) && room(middle) && arguments_unify(
                        before,
                        bound,
                        theirs,
                        ours,
                        0,
                        Ok(()),
                        middle,
                    ) && (middle.made() - middle.entries().len() < before.made()
                        - before.entries().len() || size(middle.spec_solved(*result)) + size(
                        middle.spec_solved(*other_result),
                    ) < bound) && unifies(middle, *result, *other_result, unified, after)
            },
            _ => unified is Ok && unchanged(after, before),
        }
    }
}

/// What unifying each of `theirs` with the one of `ours` beside it, from the one at `i` on and in
/// order, comes to in `before`: `Ok` once every pair is one type, or the first pair's refusal,
/// with the table each leaves. Every pair left is measured below `bound`.
pub open spec fn arguments_unify(
    before: Table,
    bound: nat,
    theirs: Seq<TypeView>,
    ours: Seq<TypeView>,
    i: int,
    unified: Result<(), Clash>,
    after: Table,
) -> bool
    decreases before.made() - before.entries().len(), bound, 0int, theirs.len() - i,
{
    if i < 0 || i >= theirs.len() || i >= ours.len() {
        unified is Ok && unchanged(after, before)
    } else if size(before.spec_solved(theirs[i])) + size(before.spec_solved(ours[i])) < bound {
        ||| (unified is Err && unifies(before, theirs[i], ours[i], unified, after))
        ||| exists|middle: Table|
            #[trigger] grew(middle, before) && room(middle) && unifies(
                before,
                theirs[i],
                ours[i],
                Ok(()),
                middle,
            ) && arguments_unify(
                middle,
                next_bound(before, middle, bound, theirs, ours),
                theirs,
                ours,
                i + 1,
                unified,
                after,
            )
    } else {
        false
    }
}

/// Each of the first `n` pairs is written with no more constructors than all of them together.
pub proof fn lemma_pairs_size(table: Table, theirs: Seq<TypeView>, ours: Seq<TypeView>, n: int, k: int)
    requires
        0 <= k < n <= theirs.len(),
        n <= ours.len(),
    ensures
        size(table.spec_solved(theirs[k])) + size(table.spec_solved(ours[k])) <= pairs_size(
            table,
            theirs,
            ours,
            n,
        ),
    decreases n,
{
    if k < n - 1 {
        lemma_pairs_size(table, theirs, ours, n - 1, k);
    }
}

/// Makes `expected` and `found` the same type, settling whatever variables that takes.
///
/// Where it works, the two are followed to one type, and stay so whatever is settled after.
pub fn unify(table: &mut Table, expected: &Type, found: &Type) -> (unified: Result<(), Clash>)
    requires
        old(table).well_formed(),
        old(table).holds_made(expected@),
        old(table).holds_made(found@),
    ensures
        grew(*final(table), *old(table)),
        unified is Ok ==> final(table).spec_solved(expected@) == final(table).spec_solved(found@),
        unifies_as(*old(table), expected@, found@, unified, *final(table)),
        unifies(*old(table), expected@, found@, unified, *final(table)),
    decreases old(table).made() - old(table).entries().len(), size(
        old(table).spec_solved(expected@),
    ) + size(old(table).spec_solved(found@)), 1int,
{
    proof {
        table.lemma_count();
        table.lemma_well_formed();
        lemma_grew_refl(*table);
    }
    let ghost start = *table;
    let ghost entries = table.entries();
    let ghost rank = table.rank();
    let ghost none = Set::<TypeVar>::empty();
    let expected_outer = table.shallow(expected);
    let found_outer = table.shallow(found);
    proof {
        lemma_outer(entries, rank, none, false, expected@);
        lemma_outer(entries, rank, none, false, found@);
        table.lemma_made_outer(expected@);
        table.lemma_made_outer(found@);
    }
    match &expected_outer {
        Type::Var(one) => {
            match &found_outer {
                Type::Var(other) => {
                    if *one == *other {
                        return Ok(());
                    }
                },
                _ => {},
            }
            proof {
                assert(mentions(expected_outer@, *one));
            }
            let settled = settle(table, *one, &found_outer);
            proof {
                if settled is Ok {
                    table.lemma_well_formed();
                    lemma_outer_extends(table.entries(), table.rank(), entries, rank, expected@);
                    lemma_outer_extends(table.entries(), table.rank(), entries, rank, found@);
                }
            }
            return settled;
        },
        _ => {},
    }
    match &found_outer {
        Type::Var(var) => {
            proof {
                assert(mentions(found_outer@, *var));
            }
            let settled = settle(table, *var, &expected_outer);
            proof {
                if settled is Ok {
                    table.lemma_well_formed();
                    lemma_outer_extends(table.entries(), table.rank(), entries, rank, expected@);
                    lemma_outer_extends(table.entries(), table.rank(), entries, rank, found@);
                }
            }
            return settled;
        },
        _ => {},
    }
    match (&expected_outer, &found_outer) {
        (Type::Unit, Type::Unit) => Ok(()),
        (Type::Parameter(one), Type::Parameter(other)) => {
            if one.same(other) {
                Ok(())
            } else {
                Err(Clash::Mismatch)
            }
        },
        (Type::Module(one), Type::Module(other)) => {
            if *one == *other {
                Ok(())
            } else {
                Err(Clash::Mismatch)
            }
        },
        (
            Type::Named { name: one, arguments: theirs },
            Type::Named { name: other, arguments: ours },
        ) => {
            proof {
                lemma_agreeing_heads(start, expected@, found@, expected_outer@, found_outer@, theirs@, ours@);
                lemma_views_of(theirs@);
                lemma_views_of(ours@);
            }
            if !(*one == *other && theirs.len() == ours.len()) {
                return Err(Clash::Mismatch);
            }
            proof {
                lemma_arguments_below(entries, rank, expected@, expected_outer@, theirs@);
                lemma_arguments_below(entries, rank, found@, found_outer@, ours@);
                assert forall|k: int| 0 <= k < theirs@.len() implies size(
                    solved(entries, rank, (#[trigger] theirs@[k])@),
                ) + size(solved(entries, rank, ours@[k]@)) < size(solved(entries, rank, expected@))
                    + size(solved(entries, rank, found@)) by {}
                lemma_made_arguments(start, expected_outer@, theirs@);
                lemma_made_arguments(start, found_outer@, ours@);
            }
            each(
                table,
                theirs,
                ours,
                Ghost(size(solved(entries, rank, expected@)) + size(solved(entries, rank, found@))),
            )?;
            proof {
                table.lemma_well_formed();
                lemma_outer_extends(table.entries(), table.rank(), entries, rank, expected@);
                lemma_outer_extends(table.entries(), table.rank(), entries, rank, found@);
                lemma_views_of(theirs@);
                lemma_views_of(ours@);
                lemma_followed_among(table.entries(), table.rank(), none, false, views_of(theirs@), theirs@.len() as int);
                lemma_followed_among(table.entries(), table.rank(), none, false, views_of(ours@), ours@.len() as int);
                assert(followed_among(table.entries(), table.rank(), none, false, views_of(theirs@), theirs@.len() as int)
                    =~= followed_among(table.entries(), table.rank(), none, false, views_of(ours@), ours@.len() as int));
            }
            Ok(())
        },
        (
            Type::Function { parameters: theirs, result: one },
            Type::Function { parameters: ours, result: other },
        ) => {
            proof {
                lemma_agreeing_heads(start, expected@, found@, expected_outer@, found_outer@, theirs@, ours@);
                lemma_views_of(theirs@);
                lemma_views_of(ours@);
            }
            if theirs.len() != ours.len() {
                return Err(Clash::Mismatch);
            }
            proof {
                lemma_arguments_below(entries, rank, expected@, expected_outer@, theirs@);
                lemma_arguments_below(entries, rank, found@, found_outer@, ours@);
                lemma_result_below(entries, rank, expected@, expected_outer@);
                lemma_result_below(entries, rank, found@, found_outer@);
                assert forall|k: int| 0 <= k < theirs@.len() implies size(
                    solved(entries, rank, (#[trigger] theirs@[k])@),
                ) + size(solved(entries, rank, ours@[k]@)) < size(solved(entries, rank, expected@))
                    + size(solved(entries, rank, found@)) by {}
                lemma_made_arguments(start, expected_outer@, theirs@);
                lemma_made_arguments(start, found_outer@, ours@);
                lemma_made_result(start, expected_outer@);
                lemma_made_result(start, found_outer@);
            }
            each(
                table,
                theirs,
                ours,
                Ghost(size(solved(entries, rank, expected@)) + size(solved(entries, rank, found@))),
            )?;
            let ghost middle = *table;
            proof {
                if start.spec_solved(expected@) == start.spec_solved(found@) {
                    lemma_grew_same(*table, start);
                }
                table.lemma_count();
                if table.entries().len() == start.entries().len() {
                    lemma_grew_same(*table, start);
                    assert(size(table.spec_solved((**one)@)) + size(table.spec_solved((**other)@))
                        < size(solved(entries, rank, expected@)) + size(solved(entries, rank, found@)));
                } else {
                    assert(table.made() - table.entries().len() < start.made() - start.entries().len());
                }
            }
            let last = unify(table, one, other);
            proof {
                lemma_grew(*table, middle, start);
                middle.lemma_count();
                let bound = size(start.spec_solved(expected@)) + size(start.spec_solved(found@));
                assert(grew(middle, start) && room(middle));
                assert(arguments_unify(
                    start,
                    bound,
                    views_of(theirs@),
                    views_of(ours@),
                    0,
                    Ok(()),
                    middle,
                ));
                assert(unifies(middle, (**one)@, (**other)@, last, *table));
                assert(size(middle.spec_solved((**one)@)) + size(middle.spec_solved((**other)@)) < bound
                    || middle.made() - middle.entries().len() < start.made() - start.entries().len());
                if last is Ok {
                    assert(last == Ok::<(), Clash>(last->Ok_0));
                    let u: () = last->Ok_0;
                    assert(u == ());
                    assert(last == Ok::<(), Clash>(()));
                }
            }
            if let Err(clash) = last {
                return Err(clash);
            }
            proof {
                table.lemma_well_formed();
                middle.lemma_well_formed();
                lemma_outer_extends(table.entries(), table.rank(), entries, rank, expected@);
                lemma_outer_extends(table.entries(), table.rank(), entries, rank, found@);
                lemma_views_of(theirs@);
                lemma_views_of(ours@);
                lemma_followed_among(table.entries(), table.rank(), none, false, views_of(theirs@), theirs@.len() as int);
                lemma_followed_among(table.entries(), table.rank(), none, false, views_of(ours@), ours@.len() as int);
                assert forall|k: int| 0 <= k < theirs@.len() implies solved(
                    table.entries(),
                    table.rank(),
                    (#[trigger] theirs@[k])@,
                ) == solved(table.entries(), table.rank(), ours@[k]@) by {
                    lemma_extends(table.entries(), table.rank(), middle.entries(), middle.rank(), theirs@[k]@);
                    lemma_extends(table.entries(), table.rank(), middle.entries(), middle.rank(), ours@[k]@);
                }
                assert(followed_among(table.entries(), table.rank(), none, false, views_of(theirs@), theirs@.len() as int)
                    =~= followed_among(table.entries(), table.rank(), none, false, views_of(ours@), ours@.len() as int));
            }
            Ok(())
        },
        _ => Err(Clash::Mismatch),
    }
}

/// Two types followed to one type agree where they begin: where both begin with a named type
/// or both with a function, their names, their numbers of arguments and each argument agree, and
/// so do the results of two function types.
proof fn lemma_agreeing_heads(
    table: Table,
    expected: TypeView,
    found: TypeView,
    one: TypeView,
    other: TypeView,
    theirs: Seq<Type>,
    ours: Seq<Type>,
)
    requires
        table.well_formed(),
        one == outer(table.entries(), table.rank(), expected),
        other == outer(table.entries(), table.rank(), found),
        one matches TypeView::Named(_, written) ==> written == views_of(theirs),
        one matches TypeView::Function(written, _) ==> written == views_of(theirs),
        other matches TypeView::Named(_, written) ==> written == views_of(ours),
        other matches TypeView::Function(written, _) ==> written == views_of(ours),
        (one is Named && other is Named) || (one is Function && other is Function),
    ensures
        table.spec_solved(expected) == table.spec_solved(found) ==> {
            &&& !heads_clash(one, other)
            &&& pairs_agree(table, theirs, ours)
            &&& one is Function ==> table.spec_solved(*one->Function_1) == table.spec_solved(
                *other->Function_1,
            )
        },
{
    table.lemma_well_formed();
    let entries = table.entries();
    let rank = table.rank();
    let none = Set::<TypeVar>::empty();
    if table.spec_solved(expected) == table.spec_solved(found) {
        lemma_outer(entries, rank, none, false, expected);
        lemma_outer(entries, rank, none, false, found);
        lemma_views_of(theirs);
        lemma_views_of(ours);
        lemma_followed_among(entries, rank, none, false, views_of(theirs), theirs.len() as int);
        lemma_followed_among(entries, rank, none, false, views_of(ours), ours.len() as int);
        let left = followed_among(entries, rank, none, false, views_of(theirs), theirs.len() as int);
        let right = followed_among(entries, rank, none, false, views_of(ours), ours.len() as int);
        assert(left == right);
        assert forall|k: int| 0 <= k < theirs.len() implies table.spec_solved(
            (#[trigger] theirs[k])@,
        ) == table.spec_solved(ours[k]@) by {
            assert(left[k] == right[k]);
        }
    }
}

/// The arguments of the type a type is followed to each stand smaller than it.
proof fn lemma_arguments_below(
    entries: Entries,
    rank: Rank,
    t: TypeView,
    outermost: TypeView,
    arguments: Seq<Type>,
)
    requires
        ranked(entries, rank),
        outermost == outer(entries, rank, t),
        outermost matches TypeView::Named(_, written) ==> written == views_of(arguments),
        outermost matches TypeView::Function(written, _) ==> written == views_of(arguments),
        outermost is Named || outermost is Function,
    ensures
        forall|k: int|
            0 <= k < arguments.len() ==> size(solved(entries, rank, (#[trigger] arguments[k])@))
                < size(solved(entries, rank, t)),
{
    let none = Set::<TypeVar>::empty();
    lemma_outer(entries, rank, none, false, t);
    lemma_views_of(arguments);
    let views = views_of(arguments);
    lemma_followed_among(entries, rank, none, false, views, arguments.len() as int);
    let after = followed_among(entries, rank, none, false, views, arguments.len() as int);
    assert forall|k: int| 0 <= k < arguments.len() implies size(
        solved(entries, rank, (#[trigger] arguments[k])@),
    ) < size(solved(entries, rank, t)) by {
        lemma_size_among(after, arguments.len() as int, k);
        assert(after[k] == solved(entries, rank, arguments[k]@));
    }
}

/// The result of the function type a type is followed to stands smaller than it.
proof fn lemma_result_below(entries: Entries, rank: Rank, t: TypeView, outermost: TypeView)
    requires
        ranked(entries, rank),
        outermost == outer(entries, rank, t),
        outermost is Function,
    ensures
        size(solved(entries, rank, *outermost->Function_1)) < size(solved(entries, rank, t)),
{
    lemma_outer(entries, rank, Set::empty(), false, t);
}

/// The arguments of a type a table made are types it made.
proof fn lemma_made_arguments(table: Table, outermost: TypeView, arguments: Seq<Type>)
    requires
        table.holds_made(outermost),
        outermost matches TypeView::Named(_, written) ==> written == views_of(arguments),
        outermost matches TypeView::Function(written, _) ==> written == views_of(arguments),
        outermost is Named || outermost is Function,
    ensures
        forall|k: int| 0 <= k < arguments.len() ==> table.holds_made((#[trigger] arguments[k])@),
{
    lemma_views_of(arguments);
    assert forall|k: int| 0 <= k < arguments.len() implies table.holds_made(
        (#[trigger] arguments[k])@,
    ) by {
        assert forall|x: TypeVar| mentions(arguments[k]@, x) implies x.0 < table.made() by {
            lemma_mentions_among(views_of(arguments), arguments.len() as int, x);
            assert(mentions(views_of(arguments)[k], x));
            assert(mentions(outermost, x));
        }
    }
}

/// The result of a function type a table made is a type it made.
proof fn lemma_made_result(table: Table, outermost: TypeView)
    requires
        table.holds_made(outermost),
        outermost is Function,
    ensures
        table.holds_made(*outermost->Function_1),
{
    assert forall|x: TypeVar| mentions(*outermost->Function_1, x) implies x.0 < table.made() by {
        assert(mentions(outermost, x));
    }
}

/// Settles `var` on `to`, unless `to` is a type that holds `var` and so cannot be finite.
///
/// A variable standing for a whole number settles on less than an ordinary one: only on a type a
/// whole number may be written at. A clash here is therefore the ordinary clash of two types, and
/// is reported as one, because such a variable reads as the `Int` it would have defaulted to.
fn settle(table: &mut Table, var: TypeVar, to: &Type) -> (settled: Result<(), Clash>)
    requires
        old(table).well_formed(),
        !is_key(old(table).entries(), var),
        var.0 < old(table).made(),
        old(table).holds_made(to@),
    ensures
        grew(*final(table), *old(table)),
        settled == Err::<(), Clash>(Clash::Infinite) <==> mentions(
            old(table).spec_solved(to@),
            var,
        ),
        settled is Ok ==> final(table).entries() == old(table).entries().push((var, to@)),
        settled is Ok ==> final(table).spec_solved(TypeView::Var(var)) == final(table).spec_solved(to@),
        meets_var(*old(table), var, to@, settled, *final(table)),
        settles_var(*old(table), var, to@, settled, *final(table)),
{
    proof {
        lemma_extends_refl(table.entries());
    }
    let mut held: Vec<TypeVar> = Vec::new();
    table.unsettled(to, &mut held);
    if holds_var(&held, var) {
        return Err(Clash::Infinite);
    }
    if table.is_a_whole_number(var) && !stands_for_a_whole_number(table, to) {
        return Err(Clash::Mismatch);
    }
    table.settle(var, to.copied());
    proof {
        table.lemma_well_formed();
        let entries = table.entries();
        assert(entries[entries.len() - 1].0 == var);
        assert(is_key(entries, var));
        assert(index_of(entries, var) == entries.len() - 1);
        assert(old(table).entries() =~= entries.take(old(table).entries().len() as int));
    }
    Ok(())
}

/// Whether a whole number may be what `to` stands for, which settling one on it needs.
///
/// A variable may: two whole numbers meeting are one whole number, and whatever settles the one
/// that is left settles both. Everything else is a type, and takes a whole number or does not.
fn stands_for_a_whole_number(table: &mut Table, to: &Type) -> (stands: bool)
    requires
        old(table).well_formed(),
    ensures
        final(table).well_formed(),
        final(table).entries() == old(table).entries(),
        final(table).rank() == old(table).rank(),
        final(table).made() == old(table).made(),
        final(table).written() == old(table).written(),
        !(to@ is Var) ==> final(table).whole() == old(table).whole(),
        to@ is Var ==> final(table).whole() == old(table).whole().insert(to@->Var_0),
        stands == (to@ is Var || (to@ matches TypeView::Named(name, _) && old(table).written().contains(name))),
{
    match to {
        Type::Var(other) => {
            table.note_a_whole_number(*other);
            true
        },
        _ => table.takes_a_whole_number(to),
    }
}

/// Whether each of `theirs` is already followed to the type the one of `ours` beside it is.
pub open spec fn pairs_agree(table: Table, theirs: Seq<Type>, ours: Seq<Type>) -> bool {
    forall|k: int|
        0 <= k < theirs.len() ==> table.spec_solved((#[trigger] theirs[k])@) == table.spec_solved(
            ours[k]@,
        )
}

/// Makes each of `theirs` the same type as the one of `ours` beside it, in order.
fn each(table: &mut Table, theirs: &Vec<Type>, ours: &Vec<Type>, bound: Ghost<nat>) -> (unified:
    Result<(), Clash>)
    requires
        old(table).well_formed(),
        theirs@.len() == ours@.len(),
        forall|k: int| 0 <= k < theirs@.len() ==> old(table).holds_made((#[trigger] theirs@[k])@),
        forall|k: int| 0 <= k < ours@.len() ==> old(table).holds_made((#[trigger] ours@[k])@),
        old(table).entries().len() <= old(table).made(),
        forall|k: int|
            0 <= k < theirs@.len() ==> size(old(table).spec_solved((#[trigger] theirs@[k])@)) + size(
                old(table).spec_solved(ours@[k]@),
            ) < bound@,
    ensures
        grew(*final(table), *old(table)),
        unified is Ok ==> forall|k: int|
            0 <= k < theirs@.len() ==> final(table).spec_solved((#[trigger] theirs@[k])@) == final(table).spec_solved(ours@[k]@),
        pairs_agree(*old(table), theirs@, ours@) ==> unified is Ok && final(table).entries() == old(table).entries(),
        arguments_unify(*old(table), bound@, views_of(theirs@), views_of(ours@), 0, unified, *final(table)),
    decreases old(table).made() - old(table).entries().len(), bound@, 0int,
{
    let ghost start = *table;
    let ghost xs = views_of(theirs@);
    let ghost ys = views_of(ours@);
    let ghost mut current: nat = bound@;
    proof {
        lemma_grew_refl(*table);
        lemma_views_of(theirs@);
        lemma_views_of(ours@);
    }
    let mut i: usize = 0;
    while i < theirs.len()
        invariant
            i <= theirs@.len(),
            theirs@.len() == ours@.len(),
            xs == views_of(theirs@),
            ys == views_of(ours@),
            xs.len() == theirs@.len(),
            ys.len() == ours@.len(),
            forall|k: int| 0 <= k < theirs@.len() ==> #[trigger] xs[k] == theirs@[k]@,
            forall|k: int| 0 <= k < ours@.len() ==> #[trigger] ys[k] == ours@[k]@,
            forall|k: int|
                i <= k < theirs@.len() ==> size(table.spec_solved(#[trigger] xs[k])) + size(
                    table.spec_solved(ys[k]),
                ) < current,
            forall|r: Result<(), Clash>, a: Table|
                #[trigger] arguments_unify(*table, current, xs, ys, i as int, r, a) ==> arguments_unify(
                    start,
                    bound@,
                    xs,
                    ys,
                    0,
                    r,
                    a,
                ),
            grew(*table, start),
            start == *old(table),
            start.well_formed(),
            start.entries().len() <= start.made(),
            forall|k: int| 0 <= k < theirs@.len() ==> start.holds_made((#[trigger] theirs@[k])@),
            forall|k: int| 0 <= k < ours@.len() ==> start.holds_made((#[trigger] ours@[k])@),
            forall|k: int|
                0 <= k < theirs@.len() ==> size(start.spec_solved((#[trigger] theirs@[k])@)) + size(
                    start.spec_solved(ours@[k]@),
                ) < bound@,
            forall|k: int|
                0 <= k < i ==> table.spec_solved((#[trigger] theirs@[k])@) == table.spec_solved(
                    ours@[k]@,
                ),
            pairs_agree(start, theirs@, ours@) ==> table.entries() == start.entries(),
        decreases theirs.len() - i,
    {
        let ghost before = *table;
        proof {
            assert(size(before.spec_solved(xs[i as int])) + size(before.spec_solved(ys[i as int])) < current);
            table.lemma_count();
            if table.entries().len() == start.entries().len() {
                lemma_grew_same(*table, start);
                assert(size(table.spec_solved(theirs@[i as int]@)) + size(table.spec_solved(ours@[i as int]@))
                    < bound@);
            } else {
                assert(table.made() - table.entries().len() < start.made() - start.entries().len());
            }
        }
        proof {
            if pairs_agree(start, theirs@, ours@) {
                lemma_grew_same(*table, start);
                assert(table.spec_solved(theirs@[i as int]@) == table.spec_solved(ours@[i as int]@));
            }
        }
        let one = unify(table, &theirs[i], &ours[i]);
        proof {
            lemma_grew(*table, before, start);
        }
        proof {
            if one is Ok {
                assert(one == Ok::<(), Clash>(one->Ok_0));
                let u: () = one->Ok_0;
                assert(u == ());
                assert(one == Ok::<(), Clash>(()));
            }
        }
        if let Err(clash) = one {
            proof {
                assert(unifies(before, xs[i as int], ys[i as int], Err(clash), *table));
                assert(arguments_unify(before, current, xs, ys, i as int, Err(clash), *table));
            }
            return Err(clash);
        }
        proof {
            table.lemma_well_formed();
            before.lemma_well_formed();
            table.lemma_count();
            let next = next_bound(before, *table, current, xs, ys);
            assert(unifies(before, xs[i as int], ys[i as int], Ok(()), *table));
            assert forall|k: int| i + 1 <= k < theirs@.len() implies size(
                table.spec_solved(#[trigger] xs[k]),
            ) + size(table.spec_solved(ys[k])) < next by {
                if table.entries().len() == before.entries().len() {
                    lemma_grew_same(*table, before);
                } else {
                    lemma_pairs_size(*table, xs, ys, xs.len() as int, k);
                }
            }
            assert forall|r: Result<(), Clash>, a: Table|
                #[trigger] arguments_unify(*table, next, xs, ys, i + 1, r, a) implies arguments_unify(
                    start,
                    bound@,
                    xs,
                    ys,
                    0,
                    r,
                    a,
                ) by {
                assert(grew(*table, before) && room(*table));
                assert(unifies(before, xs[i as int], ys[i as int], Ok(()), *table));
                assert(arguments_unify(*table, next_bound(before, *table, current, xs, ys), xs, ys, i + 1, r, a));
                assert(arguments_unify(before, current, xs, ys, i as int, r, a));
            }
            current = next;
            assert forall|k: int| 0 <= k < i + 1 implies table.spec_solved(
                (#[trigger] theirs@[k])@,
            ) == table.spec_solved(ours@[k]@) by {
                if k < i {
                    lemma_extends(table.entries(), table.rank(), before.entries(), before.rank(), theirs@[k]@);
                    lemma_extends(table.entries(), table.rank(), before.entries(), before.rank(), ours@[k]@);
                }
            }
        }
        i = i + 1;
    }
    proof {
        assert(arguments_unify(*table, current, xs, ys, i as int, Ok(()), *table));
    }
    Ok(())
}

} // verus!
