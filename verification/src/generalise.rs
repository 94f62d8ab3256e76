//! Let-polymorphism: a binding is as polymorphic as the value it was given.
//!
//! A variable is free to quantify only where nothing else still holds it. A name in scope, a
//! field waiting on its receiver, an operator waiting on its operands, and a trait waiting to be
//! answered each hold their variables as firmly as one another: quantify one of those and every
//! later use gets a copy the thing waiting will never reach.
use vstd::prelude::*;

use crate::environment::key::Key;
use crate::environment::{scheme_view, Environment, EnvironmentView};
use crate::laws::law_solving_twice;
use crate::scheme::{stand_ins, Quantified, Scheme};
use crate::table::{holds_var, mentions, Table};
use crate::types::{Type, TypeVar, TypeView};

verus! {

/// Whether `x` is free to quantify in `body`: the table left it unsettled there, and none of
/// `holding` still holds it.
pub open spec fn free_to_quantify(table: Table, body: TypeView, holding: Seq<Type>, x: TypeVar) -> bool {
    &&& mentions(table.spec_solved(body), x)
    &&& forall|k: int| 0 <= k < holding.len() ==> !mentions(table.spec_solved(#[trigger] holding[k]@), x)
}

/// The variables of `body` that nothing in `holding` holds, which are the ones free to quantify,
/// each named once.
pub fn free_in(table: &Table, body: &Type, holding: &Vec<Type>) -> (free: Vec<TypeVar>)
    requires
        table.well_formed(),
    ensures
        free@.no_duplicates(),
        forall|x: TypeVar| #[trigger] free@.contains(x) <==> free_to_quantify(*table, body@, holding@, x),
{
    let mut found: Vec<TypeVar> = Vec::new();
    table.unsettled(body, &mut found);
    if found.len() == 0 {
        proof {
            assert forall|x: TypeVar| !free_to_quantify(*table, body@, holding@, x) by {
                if mentions(table.spec_solved(body@), x) {
                    assert(found@.contains(x));
                }
            }
        }
        return found;
    }
    let mut held: Vec<TypeVar> = Vec::new();
    let mut i: usize = 0;
    while i < holding.len()
        invariant
            i <= holding@.len(),
            table.well_formed(),
            forall|x: TypeVar|
                #[trigger] held@.contains(x) <==> exists|k: int|
                    0 <= k < i && mentions(table.spec_solved(#[trigger] holding@[k]@), x),
        decreases holding.len() - i,
    {
        let ghost before = held@;
        table.unsettled(&holding[i], &mut held);
        proof {
            assert forall|x: TypeVar| #[trigger] held@.contains(x) <==> exists|k: int|
                0 <= k < i + 1 && mentions(table.spec_solved(#[trigger] holding@[k]@), x) by {
                if held@.contains(x) && !before.contains(x) {
                    assert(mentions(table.spec_solved(holding@[i as int]@), x));
                }
            }
        }
        i = i + 1;
    }
    let mut free: Vec<TypeVar> = Vec::new();
    let mut j: usize = 0;
    while j < found.len()
        invariant
            j <= found@.len(),
            found@.no_duplicates(),
            free@.no_duplicates(),
            forall|x: TypeVar|
                #[trigger] free@.contains(x) <==> exists|k: int|
                    0 <= k < j && found@[k] == x && !held@.contains(x),
        decreases found.len() - j,
    {
        let var = found[j];
        if !holds_var(&held, var) {
            proof {
                assert(!free@.contains(var)) by {
                    if free@.contains(var) {
                        let k = choose|k: int| 0 <= k < j && found@[k] == var && !held@.contains(var);
                        assert(found@[k] == found@[j as int]);
                    }
                }
            }
            let ghost before = free@;
            free.push(var);
            proof {
                assert forall|x: TypeVar| #[trigger] free@.contains(x) <==> exists|k: int|
                    0 <= k < j + 1 && found@[k] == x && !held@.contains(x) by {
                    if free@.contains(x) {
                        if x == var {
                            assert(found@[j as int] == x);
                        } else {
                            let n = choose|n: int| 0 <= n < free@.len() && free@[n] == x;
                            assert(n < before.len());
                            assert(before[n] == x);
                            assert(before.contains(x));
                        }
                    }
                    if exists|k: int| 0 <= k < j + 1 && found@[k] == x && !held@.contains(x) {
                        let k = choose|k: int| 0 <= k < j + 1 && found@[k] == x && !held@.contains(x);
                        if k == j {
                            assert(free@[free@.len() - 1] == x);
                        } else {
                            assert(before.contains(x));
                            let n = choose|n: int| 0 <= n < before.len() && before[n] == x;
                            assert(free@[n] == x);
                        }
                    }
                }
            }
        }
        j = j + 1;
    }
    proof {
        assert forall|x: TypeVar| #[trigger] free@.contains(x) <==> free_to_quantify(
            *table,
            body@,
            holding@,
            x,
        ) by {
            if free_to_quantify(*table, body@, holding@, x) {
                assert(found@.contains(x));
                let k = choose|k: int| 0 <= k < found@.len() && found@[k] == x;
                if held@.contains(x) {
                    let m = choose|m: int|
                        0 <= m < holding@.len() && mentions(table.spec_solved(#[trigger] holding@[m]@), x);
                    assert(!mentions(table.spec_solved(holding@[m]@), x));
                }
                assert(found@[k] == x && !held@.contains(x));
            }
            if free@.contains(x) {
                let k = choose|k: int| 0 <= k < found@.len() && found@[k] == x && !held@.contains(x);
                assert(found@.contains(x));
                assert forall|m: int| 0 <= m < holding@.len() implies !mentions(
                    table.spec_solved(#[trigger] holding@[m]@),
                    x,
                ) by {
                    if mentions(table.spec_solved(holding@[m]@), x) {
                        assert(held@.contains(x));
                    }
                }
            }
        }
    }
    free
}

/// Whether `scheme` quantifies over exactly the variables free to quantify in `body`, each once,
/// and over nothing else.
pub open spec fn quantifies_the_free(scheme: Scheme, table: Table, body: TypeView, holding: Seq<Type>) -> bool {
    &&& forall|k: int| 0 <= k < scheme.quantified@.len() ==> (#[trigger] scheme.quantified@[k]) is Var
    &&& forall|k: int, j: int|
        0 <= k < j < scheme.quantified@.len() ==> #[trigger] scheme.quantified@[k]
            != #[trigger] scheme.quantified@[j]
    &&& forall|x: TypeVar|
        free_to_quantify(table, body, holding, x) <==> #[trigger] scheme.quantified@.contains(
            Quantified::Var(x),
        )
}

/// A binding is as polymorphic as the value it was given, which is let-polymorphism.
///
/// The scheme is the value's type with every settled variable followed, over each variable of it
/// that nothing in `holding` still holds; where there is none, it is that type alone.
pub fn generalised(table: &Table, bound: &Type, holding: &Vec<Type>) -> (scheme: Scheme)
    requires
        table.well_formed(),
    ensures
        scheme.body@ == table.spec_solved(bound@),
        scheme.required@.len() == 0,
        quantifies_the_free(scheme, *table, bound@, holding@),
{
    let body = table.solved(bound);
    proof {
        law_solving_twice(*table, bound@);
    }
    let over = free_in(table, &body, holding);
    if over.len() == 0 {
        let scheme = Scheme::monomorphic(body);
        proof {
            assert forall|x: TypeVar| !free_to_quantify(*table, bound@, holding@, x) by {
                if free_to_quantify(*table, bound@, holding@, x) {
                    assert(over@.contains(x));
                }
            }
        }
        return scheme;
    }
    let mut quantified: Vec<Quantified> = Vec::new();
    let mut i: usize = 0;
    while i < over.len()
        invariant
            i <= over@.len(),
            over@.no_duplicates(),
            quantified@.len() == i,
            forall|k: int| 0 <= k < i ==> #[trigger] quantified@[k] == Quantified::Var(over@[k]),
        decreases over.len() - i,
    {
        quantified.push(Quantified::Var(over[i]));
        i = i + 1;
    }
    let scheme = Scheme::over(quantified, body);
    proof {
        assert forall|k: int, j: int|
            0 <= k < j < scheme.quantified@.len() implies #[trigger] scheme.quantified@[k]
                != #[trigger] scheme.quantified@[j] by {
            assert(over@[k] != over@[j]);
        }
        assert forall|x: TypeVar| free_to_quantify(*table, bound@, holding@, x)
            <==> #[trigger] scheme.quantified@.contains(Quantified::Var(x)) by {
            if free_to_quantify(*table, bound@, holding@, x) {
                assert(over@.contains(x));
                let k = choose|k: int| 0 <= k < over@.len() && over@[k] == x;
                assert(scheme.quantified@[k] == Quantified::Var(x));
            }
            if scheme.quantified@.contains(Quantified::Var(x)) {
                let k = choose|k: int|
                    0 <= k < scheme.quantified@.len() && scheme.quantified@[k] == Quantified::Var(x);
                assert(over@[k] == x);
                assert(over@.contains(x));
            }
        }
    }
    scheme
}

/// Whether `after` is `before` followed by a variable for each of the variables free to quantify
/// in `body`, each once, and nothing else.
pub open spec fn generalised_over(
    after: Seq<TypeView>,
    before: Seq<TypeView>,
    table: Table,
    body: TypeView,
    holding: Seq<Type>,
) -> bool {
    &&& before.len() <= after.len()
    &&& after.take(before.len() as int) == before
    &&& forall|k: int| before.len() <= k < after.len() ==> (#[trigger] after[k]) is Var
    &&& forall|k: int, j: int|
        before.len() <= k < j < after.len() ==> #[trigger] after[k] != #[trigger] after[j]
    &&& forall|x: TypeVar|
        free_to_quantify(table, body, holding, x) <==> exists|k: int|
            before.len() <= k < after.len() && #[trigger] after[k] == TypeView::Var(x)
}

/// Frees the type of the name defined at `key` over whatever nothing else holds, once the
/// function declaring it has been walked.
///
/// `holding` is every type something else still holds: the names in scope, and whatever waits on
/// a type. The type is followed through the table, and what it was already over is kept, with
/// each variable free to quantify added after it; what a use of it must answer for is kept too.
/// A name with no type is left as it is.
pub fn generalise(environment: &mut Environment, table: &Table, key: Key, holding: &Vec<Type>)
    requires
        table.well_formed(),
    ensures
        !old(environment)@.values.contains_key(key@) ==> final(environment)@ == old(environment)@,
        old(environment)@.values.contains_key(key@) ==> ({
            let before = old(environment)@.values[key@];
            let after = final(environment)@.values[key@];
            &&& final(environment)@ == (EnvironmentView {
                values: old(environment)@.values.insert(key@, after),
                ..old(environment)@
            })
            &&& after.body == table.spec_solved(before.body)
            &&& after.required == before.required
            &&& generalised_over(after.quantified, before.quantified, *table, before.body, holding@)
        }),
{
    let shell = match environment.unbind(&key) {
        Some(shell) => shell,
        None => {
            proof {
                assert(old(environment)@.values.remove(key@) =~= old(environment)@.values);
            }
            return;
        },
    };
    let ghost before = scheme_view(shell);
    let body = table.solved(&shell.body);
    proof {
        law_solving_twice(*table, shell.body@);
    }
    let over = free_in(table, &body, holding);
    let Scheme { quantified, body: _, required } = shell;
    let mut quantified = quantified;
    let ghost start = quantified@;
    let mut i: usize = 0;
    while i < over.len()
        invariant
            i <= over@.len(),
            quantified@.len() == start.len() + i,
            quantified@.take(start.len() as int) == start,
            forall|k: int| 0 <= k < i ==> #[trigger] quantified@[start.len() + k] == Quantified::Var(over@[k]),
        decreases over.len() - i,
    {
        let ghost was = quantified@;
        quantified.push(Quantified::Var(over[i]));
        proof {
            assert(quantified@.take(start.len() as int) =~= was.take(start.len() as int));
            assert forall|k: int| 0 <= k < i + 1 implies #[trigger] quantified@[start.len() + k]
                == Quantified::Var(over@[k]) by {
                if k < i {
                    assert(quantified@[start.len() + k] == was[start.len() + k]);
                }
            }
        }
        i = i + 1;
    }
    let scheme = Scheme::over(quantified, body).requiring(required);
    let ghost after = scheme_view(scheme);
    environment.bind(key, scheme);
    proof {
        let views = after.quantified;
        assert(views == stand_ins(scheme.quantified@));
        assert(views.len() == quantified@.len());
        assert(views.take(start.len() as int) =~= before.quantified) by {
            assert forall|k: int| 0 <= k < start.len() implies views[k] == before.quantified[k] by {
                assert(scheme.quantified@[k] == quantified@.take(start.len() as int)[k]);
            }
        }
        assert forall|k: int| start.len() <= k < views.len() implies #[trigger] views[k] == TypeView::Var(
            over@[k - start.len()],
        ) by {
            assert(scheme.quantified@[start.len() + (k - start.len())] == Quantified::Var(over@[k - start.len()]));
        }
        assert(old(environment)@.values.remove(key@).insert(key@, after) =~= old(environment)@.values.insert(
            key@,
            after,
        ));
        assert(final(environment)@.values[key@] == after);
        assert(after.body == table.spec_solved(before.body));
        assert(after.required == before.required);
        assert forall|k: int, j: int| start.len() <= k < j < views.len() implies #[trigger] views[k]
            != #[trigger] views[j] by {
            assert(views[k] == TypeView::Var(over@[k - start.len()]));
            assert(views[j] == TypeView::Var(over@[j - start.len()]));
            assert(over@[k - start.len()] != over@[j - start.len()]);
        }
        assert forall|x: TypeVar| free_to_quantify(*table, before.body, holding@, x) <==> exists|k: int|
            start.len() <= k < views.len() && #[trigger] views[k] == TypeView::Var(x) by {
            if free_to_quantify(*table, before.body, holding@, x) {
                assert(free_to_quantify(*table, body@, holding@, x));
                assert(over@.contains(x));
                let m = choose|m: int| 0 <= m < over@.len() && over@[m] == x;
                assert(views[start.len() + m] == TypeView::Var(x));
            }
            if exists|k: int| start.len() <= k < views.len() && #[trigger] views[k] == TypeView::Var(x) {
                let k = choose|k: int| start.len() <= k < views.len() && #[trigger] views[k] == TypeView::Var(x);
                assert(views[k] == TypeView::Var(over@[k - start.len()]));
                assert(over@.contains(over@[k - start.len()]));
            }
        }
    }
}

} // verus!
