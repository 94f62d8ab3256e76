//! Whether a declared type holds a value of itself, which no whole value could be.
//!
//! A record's field of record type is laid out inside it, so a ring of those has no first value
//! to build and no end to build towards. Nothing here infers anything: it reads what a module
//! declares and refuses the first ring it finds.
use vstd::prelude::*;

use crate::ast::{Item, Program, RecordField, TypeDeclaration, TypeDefinition, TypeRef, TypeRefKind};
use crate::prelude::{first_where, lemma_first_where};
use crate::text::texts;
use crate::type_error::{TypeError, TypeErrorKind};

verus! {

/// Every record a module declares, in the order it declares them.
///
/// A record is the only declaration that holds another by value. A field written as the base of
/// a type with variants holds whichever variant it was handed, which is a reference, and so a ring
/// through one is finite and is not one.
pub open spec fn records_of(items: Seq<Item>) -> Seq<TypeDeclaration>
    decreases items.len(),
{
    if items.len() == 0 {
        Seq::empty()
    } else {
        let rest = records_of(items.drop_last());
        match items.last() {
            Item::Type(declaration) => match declaration.definition {
                TypeDefinition::Record(_) => rest.push(declaration),
                _ => rest,
            },
            _ => rest,
        }
    }
}

/// The fields of a record.
pub open spec fn fields_of(declaration: TypeDeclaration) -> Seq<RecordField> {
    match declaration.definition {
        TypeDefinition::Record(fields) => fields@,
        _ => Seq::empty(),
    }
}

/// The name a written type applies its arguments to, where it is a type of this module.
///
/// An argument is not looked into: a type argument is carried as a reference, so a ring that
/// runs through one holds nothing of itself and is finite. A type reached through another module
/// is that module's, and no record of this one.
pub open spec fn head_of(written: TypeRef) -> Option<Seq<char>> {
    match written.kind {
        TypeRefKind::Named { path, .. } => if path.module is None {
            Some(path.name.text@)
        } else {
            None
        },
        TypeRefKind::Unit => None,
    }
}

/// Whether a record is the one called `name`.
pub open spec fn record_named(name: Seq<char>) -> spec_fn(TypeDeclaration) -> bool {
    |declaration: TypeDeclaration| declaration.name.text@ == name
}

/// Whether the record at `a` holds the record at `b` by value: a field of `a` is written as the
/// first record called what `b` is.
pub open spec fn holds_record(records: Seq<TypeDeclaration>, a: int, b: int) -> bool {
    exists|k: int|
        0 <= k < fields_of(records[a]).len() && #[trigger] names_record(
            records,
            fields_of(records[a])[k],
            b,
        )
}

/// Whether `field` is written as the first record called what the record at `b` is.
#[verifier::opaque]
pub open spec fn names_record(records: Seq<TypeDeclaration>, field: RecordField, b: int) -> bool {
    head_of(field.type_ref) is Some && first_where(
        records,
        record_named(head_of(field.type_ref)->Some_0),
    ) == Some(b)
}

/// Whether `ring` runs from record to record, each holding the next and the last the first.
pub open spec fn is_record_ring(records: Seq<TypeDeclaration>, ring: Seq<int>) -> bool {
    &&& ring.len() > 0
    &&& forall|i: int| 0 <= i < ring.len() ==> 0 <= #[trigger] ring[i] < records.len()
    &&& forall|i: int| 0 <= i < ring.len() - 1 ==> holds_record(records, #[trigger] ring[i], ring[i + 1])
    &&& holds_record(records, ring.last(), ring[0])
}

/// Which record each record holds, by where each stands among the records.
pub type Holding = Seq<Seq<usize>>;

/// Whether `a` holds `b` in `holding`.
pub open spec fn edge(holding: Holding, a: int, b: int) -> bool {
    0 <= a < holding.len() && 0 <= b < holding.len() && holding[a].contains(b as usize)
}

/// Whether `ring` runs around `holding`, each holding the next and the last the first.
pub open spec fn is_ring(holding: Holding, ring: Seq<usize>) -> bool {
    &&& ring.len() > 0
    &&& forall|i: int| 0 <= i < ring.len() - 1 ==> edge(holding, #[trigger] ring[i] as int, ring[i + 1] as int)
    &&& edge(holding, ring.last() as int, ring[0] as int)
}

/// Which record each record holds, as the specifications read what the walk is handed.
pub open spec fn holding_view(holding: Seq<Vec<usize>>) -> Holding {
    holding.map_values(|one: Vec<usize>| one@)
}

/// Whether everything `holding` points at is one of its records.
pub open spec fn closed(holding: Holding) -> bool {
    forall|a: int, j: int|
        0 <= a < holding.len() && 0 <= j < holding[a].len() ==> (#[trigger] holding[a][j]) < holding.len()
}

/// Where each record stands once the walk has left it falls along every holding, so nothing the
/// walk left holds itself.
proof fn lemma_no_ring(holding: Holding, finish: Seq<nat>, ring: Seq<usize>)
    requires
        finish.len() == holding.len(),
        forall|a: int, b: int| #[trigger] edge(holding, a, b) ==> b < holding.len() && finish[b] < finish[a],
    ensures
        !is_ring(holding, ring),
{
    if is_ring(holding, ring) {
    lemma_falls(holding, finish, ring, ring.len() - 1);
    assert(finish[ring.last() as int] <= finish[ring[0] as int] - (ring.len() - 1));
    assert(edge(holding, ring.last() as int, ring[0] as int));
    }
}

/// Along a ring, each record stands lower than the one before it.
proof fn lemma_falls(holding: Holding, finish: Seq<nat>, ring: Seq<usize>, i: int)
    requires
        finish.len() == holding.len(),
        forall|a: int, b: int| #[trigger] edge(holding, a, b) ==> b < holding.len() && finish[b] < finish[a],
        is_ring(holding, ring),
        0 <= i < ring.len(),
    ensures
        finish[ring[i] as int] <= finish[ring[0] as int] - i,
    decreases i,
{
    if i > 0 {
        lemma_falls(holding, finish, ring, i - 1);
        assert(edge(holding, ring[i - 1] as int, ring[i] as int));
    }
}

/// How many records a walk has not yet gone into.
pub open spec fn left_to_reach(reached: Seq<u8>) -> nat
    decreases reached.len(),
{
    if reached.len() == 0 {
        0
    } else {
        left_to_reach(reached.drop_last()) + if reached.last() == 0 {
            1nat
        } else {
            0nat
        }
    }
}

/// A walk that went into more records has fewer left, and one that went into a new one has
/// strictly fewer.
proof fn lemma_left_to_reach(before: Seq<u8>, after: Seq<u8>)
    requires
        before.len() == after.len(),
        forall|i: int| 0 <= i < after.len() && after[i] == 0 ==> before[i] == 0,
    ensures
        left_to_reach(after) <= left_to_reach(before),
        (exists|i: int| 0 <= i < after.len() && before[i] == 0 && after[i] != 0) ==> left_to_reach(after)
            < left_to_reach(before),
    decreases before.len(),
{
    if before.len() > 0 {
        lemma_left_to_reach(before.drop_last(), after.drop_last());
        if exists|i: int| 0 <= i < after.len() && before[i] == 0 && after[i] != 0 {
            let i = choose|i: int| 0 <= i < after.len() && before[i] == 0 && after[i] != 0;
            if i < after.len() - 1 {
                assert(before.drop_last()[i] == 0 && after.drop_last()[i] != 0);
            }
        }
    }
}

/// One walk of the declarations, which goes into each record once however many hold it.
///
/// A record is unreached, on the way in (the walk is inside it: anything reaching it again has
/// come back round), or left (the walk left it having found no ring).
pub struct Walk {
    reached: Vec<u8>,
    path: Vec<usize>,
    /// When the walk left each record it has left.
    finish: Ghost<Seq<nat>>,
    /// When the walk will leave the next record it leaves.
    clock: Ghost<nat>,
}

/// Whether `path` runs along `holding`, each holding the next.
pub open spec fn runs_along(holding: Holding, path: Seq<usize>) -> bool {
    forall|i: int| 0 <= i < path.len() - 1 ==> edge(holding, #[trigger] path[i] as int, path[i + 1] as int)
}

impl Walk {
    /// What the walk knows of `holding` so far: every record it left holds only records it left
    /// before, and the records it is inside are the path it took into them.
    #[verifier::opaque]
    pub closed spec fn well_formed(&self, holding: Holding) -> bool {
        &&& holding.len() <= usize::MAX
        &&& self.reached@.len() == holding.len()
        &&& self.finish@.len() == holding.len()
        &&& closed(holding)
        &&& forall|a: int| 0 <= a < holding.len() ==> #[trigger] self.reached@[a] <= 2
        &&& forall|a: int, b: int|
            #![trigger self.reached@[a], edge(holding, a, b)]
            0 <= a < holding.len() && self.reached@[a] == 2 && edge(holding, a, b) ==> self.reached@[b]
                == 2 && self.finish@[b] < self.finish@[a]
        &&& forall|a: int|
            0 <= a < holding.len() && #[trigger] self.reached@[a] == 2 ==> self.finish@[a]
                < self.clock@
        &&& self.path@.no_duplicates()
        &&& forall|i: int|
            0 <= i < self.path@.len() ==> (#[trigger] self.path@[i]) < holding.len()
                && self.reached@[self.path@[i] as int] == 1
        &&& forall|a: int| 0 <= a < holding.len() && #[trigger] self.reached@[a] == 1 ==> self.path@.contains(a as usize)
        &&& runs_along(holding, self.path@)
    }

    /// How far the walk has got with each record.
    pub closed spec fn states(&self) -> Seq<u8> {
        self.reached@
    }

    /// What a well-formed walk looks like from outside.
    pub proof fn lemma_shape(&self, holding: Holding)
        requires
            self.well_formed(holding),
        ensures
            self.states().len() == holding.len(),
            holding.len() <= usize::MAX,
            closed(holding),
            forall|a: int| 0 <= a < holding.len() ==> #[trigger] self.states()[a] <= 2,
            forall|a: int| 0 <= a < holding.len() && #[trigger] self.states()[a] == 1 ==> self.spec_path().contains(a as usize),
            forall|k: int| 0 <= k < self.spec_path().len() ==> (#[trigger] self.spec_path()[k]) < holding.len()
                && self.states()[self.spec_path()[k] as int] == 1,
            forall|a: int, b: int|
                #![trigger self.states()[a], edge(holding, a, b)]
                0 <= a < holding.len() && self.states()[a] == 2 && edge(holding, a, b) ==> self.states()[b]
                    == 2 && self.finished()[b] < self.finished()[a],
            self.finished().len() == holding.len(),
    {
        reveal(Walk::well_formed);
    }

    /// The records the walk is inside, in the order it went into them.
    pub closed spec fn spec_path(&self) -> Seq<usize> {
        self.path@
    }

    /// When the walk left each record it has left.
    pub closed spec fn finished(&self) -> Seq<nat> {
        self.finish@
    }

    /// A walk that has gone into nothing.
    pub fn new(holding: &Vec<Vec<usize>>) -> (walk: Walk)
        requires
            closed(holding_view(holding@)),
        ensures
            walk.well_formed(holding_view(holding@)),
            walk.spec_path().len() == 0,
            forall|a: int| 0 <= a < holding@.len() ==> #[trigger] walk.states()[a] == 0,
    {
        let ghost view = holding_view(holding@);
        let mut reached: Vec<u8> = Vec::new();
        let mut i: usize = 0;
        while i < holding.len()
            invariant
                i <= holding@.len(),
                reached@.len() == i,
                forall|a: int| 0 <= a < i ==> #[trigger] reached@[a] == 0,
            decreases holding.len() - i,
        {
            reached.push(0);
            i = i + 1;
        }
        let walk = Walk {
            reached,
            path: Vec::new(),
            finish: Ghost(Seq::new(holding@.len(), |a: int| 0nat)),
            clock: Ghost(0nat),
        };
        proof {
            reveal(Walk::well_formed);
        }
        walk
    }

    /// Whether this walk has already been into `named` and come out again.
    pub fn is_walked(&self, named: usize) -> (walked: bool)
        requires
            named < self.states().len(),
        ensures
            walked == (self.states()[named as int] == 2),
    {
        self.reached[named] == 2
    }

    /// Whether this walk has not been into `named` at all.
    pub fn is_unreached(&self, named: usize) -> (unreached: bool)
        requires
            named < self.states().len(),
        ensures
            unreached == (self.states()[named as int] == 0),
    {
        self.reached[named] == 0
    }

    /// The ring the walk from `at` comes back round to, where it comes back to one.
    pub fn ring_from(&mut self, at: usize, holding: &Vec<Vec<usize>>) -> (ring: Option<Vec<usize>>)
        requires
            old(self).well_formed(holding_view(holding@)),
            at < holding@.len(),
            old(self).states()[at as int] == 0,
            old(self).spec_path().len() > 0 ==> edge(
                holding_view(holding@),
                old(self).spec_path().last() as int,
                at as int,
            ),
        ensures
            final(self).well_formed(holding_view(holding@)),
            final(self).states().len() == old(self).states().len(),
            forall|a: int|
                0 <= a < holding@.len() && #[trigger] final(self).states()[a] == 0 ==> old(self).states()[a] == 0,
            forall|a: int|
                0 <= a < holding@.len() && #[trigger] old(self).states()[a] == 2 ==> final(self).states()[a] == 2,
            match ring {
                Some(found) => is_ring(holding_view(holding@), found@),
                None => final(self).spec_path() == old(self).spec_path() && final(self).states()[at as int]
                    == 2,
            },
        decreases left_to_reach(old(self).states()),
    {
        let ghost holds = holding_view(holding@);
        let ghost entry = *self;
        proof {
            entry.lemma_shape(holds);
        }
        self.reached.set(at, 1);
        self.path.push(at);
        proof {
            lemma_left_to_reach(entry.reached@, self.reached@);
            self.lemma_entered(entry, holds, at);
        }
        let successors = &holding[at];
        let mut i: usize = 0;
        while i < successors.len()
            invariant
                holds == holding_view(holding@),
                *successors == holding@[at as int],
                at < holds.len(),
                i <= successors@.len(),
                self.well_formed(holds),
                entry == *old(self),
                entry.reached@.len() == holds.len(),
                self.path@ == entry.path@.push(at),
                self.reached@[at as int] == 1,
                forall|j: int| 0 <= j < i ==> self.reached@[(#[trigger] successors@[j]) as int] == 2,
                forall|a: int|
                    0 <= a < holds.len() && #[trigger] self.reached@[a] == 0 ==> entry.reached@[a] == 0,
                forall|a: int|
                    0 <= a < holds.len() && #[trigger] entry.reached@[a] == 2 ==> self.reached@[a] == 2,
                left_to_reach(self.reached@) < left_to_reach(entry.reached@),
            decreases successors.len() - i,
        {
            let held = successors[i];
            proof {
                self.lemma_shape(holds);
                assert(holds[at as int] == successors@);
                assert(successors@.contains(held));
                assert(edge(holds, at as int, held as int));
                assert(held < holds.len());
            }
            let state = self.reached[held];
            if state == 1 {
                return Some(self.ring_back_to(held, Ghost(holds), Ghost(at)));
            }
            if state == 0 {
                let ghost before = *self;
                let found = self.ring_from(held, holding);
                proof {
                    lemma_left_to_reach(before.reached@, self.reached@);
                    assert forall|a: int| 0 <= a < holds.len() && #[trigger] self.reached@[a] == 0 implies entry.reached@[a] == 0 by {
                        assert(before.reached@[a] == 0);
                    }
                    assert forall|a: int| 0 <= a < holds.len() && #[trigger] entry.reached@[a] == 2 implies self.reached@[a] == 2 by {
                        assert(before.reached@[a] == 2);
                    }
                }
                match found {
                    Some(ring) => {
                        return Some(ring);
                    },
                    None => {
                        proof {
                            assert forall|j: int| 0 <= j < i + 1 implies self.reached@[(#[trigger] successors@[j]) as int] == 2 by {
                                if j < i {
                                    assert(before.reached@[successors@[j] as int] == 2);
                                }
                            }
                            self.lemma_still_inside(holds, at);
                        }
                    },
                }
            }
            i = i + 1;
        }
        let ghost before = *self;
        proof {
            self.lemma_shape(holds);
        }
        self.reached.set(at, 2);
        self.finish = Ghost(self.finish@.update(at as int, self.clock@));
        self.clock = Ghost(self.clock@ + 1);
        self.path.pop();
        proof {
            assert(self.path@ =~= entry.path@);
            self.lemma_left(before, holds, at, successors@);
        }
        None
    }

    /// Going into `at` keeps what the walk knows.
    proof fn lemma_entered(&self, entry: Walk, holds: Holding, at: usize)
        requires
            entry.well_formed(holds),
            at < holds.len(),
            entry.reached@[at as int] == 0,
            entry.path@.len() > 0 ==> edge(holds, entry.path@.last() as int, at as int),
            self.reached@ == entry.reached@.update(at as int, 1),
            self.path@ == entry.path@.push(at),
            self.finish == entry.finish,
            self.clock == entry.clock,
        ensures
            self.well_formed(holds),
    {
        reveal(Walk::well_formed);
        assert(self.path@.no_duplicates()) by {
            if entry.path@.contains(at) {
                let k = choose|k: int| 0 <= k < entry.path@.len() && entry.path@[k] == at;
                assert(entry.reached@[entry.path@[k] as int] == 1);
            }
        }
        assert forall|a: int, b: int|
            0 <= a < holds.len() && self.reached@[a] == 2 && edge(holds, a, b) implies self.reached@[b]
                == 2 && self.finish@[b] < self.finish@[a] by {
            assert(entry.reached@[a] == 2);
            assert(entry.reached@[b] == 2);
        }
        assert forall|a: int| 0 <= a < holds.len() && #[trigger] self.reached@[a] == 1 implies self.path@.contains(a as usize) by {
            if a != at {
                assert(entry.reached@[a] == 1);
                let k = choose|k: int| 0 <= k < entry.path@.len() && entry.path@[k] == a as usize;
                assert(self.path@[k] == a as usize);
            } else {
                assert(self.path@[self.path@.len() - 1] == at);
            }
        }
        assert forall|k: int| 0 <= k < self.path@.len() implies (#[trigger] self.path@[k]) < holds.len()
            && self.reached@[self.path@[k] as int] == 1 by {
            if k < entry.path@.len() {
                assert(entry.path@[k] == self.path@[k]);
                assert(entry.path@[k] != at);
            }
        }
        assert forall|i: int| 0 <= i < self.path@.len() - 1 implies edge(holds, #[trigger] self.path@[i] as int, self.path@[i + 1] as int) by {
            if i < entry.path@.len() - 1 {
                assert(edge(holds, entry.path@[i] as int, entry.path@[i + 1] as int));
            }
        }
    }

    /// The record the walk is inside is still on its path, and so still on the way in.
    proof fn lemma_still_inside(&self, holds: Holding, at: usize)
        requires
            self.well_formed(holds),
            self.path@.len() > 0,
            self.path@.last() == at,
        ensures
            self.reached@[at as int] == 1,
    {
        reveal(Walk::well_formed);
        assert(self.path@[self.path@.len() - 1] == at);
    }

    /// Leaving `at`, once everything it holds has been left, keeps what the walk knows.
    proof fn lemma_left(&self, before: Walk, holds: Holding, at: usize, successors: Seq<usize>)
        requires
            before.well_formed(holds),
            at < holds.len(),
            holds[at as int] == successors,
            before.reached@[at as int] == 1,
            forall|j: int| 0 <= j < successors.len() ==> before.reached@[(#[trigger] successors[j]) as int] == 2,
            before.path@.len() > 0,
            before.path@.last() == at,
            self.reached@ == before.reached@.update(at as int, 2),
            self.finish@ == before.finish@.update(at as int, before.clock@),
            self.clock@ == before.clock@ + 1,
            self.path@ == before.path@.drop_last(),
        ensures
            self.well_formed(holds),
    {
        reveal(Walk::well_formed);
        assert forall|a: int, b: int|
            0 <= a < holds.len() && self.reached@[a] == 2 && edge(holds, a, b) implies self.reached@[b]
                == 2 && self.finish@[b] < self.finish@[a] by {
            if a == at {
                let j = choose|j: int| 0 <= j < successors.len() && successors[j] == b as usize;
                assert(before.reached@[successors[j] as int] == 2);
            } else {
                assert(before.reached@[a] == 2);
                assert(before.reached@[b] == 2);
            }
        }
        assert forall|a: int| 0 <= a < holds.len() && #[trigger] self.reached@[a] == 1 implies self.path@.contains(a as usize) by {
            assert(before.reached@[a] == 1);
            let k = choose|k: int| 0 <= k < before.path@.len() && before.path@[k] == a as usize;
            if k == before.path@.len() - 1 {
                assert(a == at);
            } else {
                assert(self.path@[k] == a as usize);
            }
        }
        assert forall|k: int| 0 <= k < self.path@.len() implies (#[trigger] self.path@[k]) < holds.len()
            && self.reached@[self.path@[k] as int] == 1 by {
            assert(before.path@[k] == self.path@[k]);
            assert(before.path@[before.path@.len() - 1] == at);
        }
        assert forall|i: int| 0 <= i < self.path@.len() - 1 implies edge(holds, #[trigger] self.path@[i] as int, self.path@[i + 1] as int) by {
            assert(edge(holds, before.path@[i] as int, before.path@[i + 1] as int));
        }
        assert(self.path@.no_duplicates()) by {
            assert forall|i: int, j: int| 0 <= i < self.path@.len() && 0 <= j < self.path@.len() && i != j
                implies self.path@[i] != self.path@[j] by {
                assert(before.path@[i] == self.path@[i]);
                assert(before.path@[j] == self.path@[j]);
            }
        }
    }

    /// The ring the path holds: from where `held` was gone into, round to where it came up again.
    fn ring_back_to(&self, held: usize, holds: Ghost<Holding>, at: Ghost<usize>) -> (ring: Vec<usize>)
        requires
            held < holds@.len(),
            self.well_formed(holds@),
            self.states()[held as int] == 1,
            self.spec_path().len() > 0,
            self.spec_path().last() == at@,
            edge(holds@, at@ as int, held as int),
        ensures
            is_ring(holds@, ring@),
    {
        proof {
            reveal(Walk::well_formed);
        }
        let mut from: usize = 0;
        proof {
            assert(self.path@.contains(held));
        }
        while from < self.path.len() && self.path[from] != held
            invariant
                from <= self.path@.len(),
                self.path@.contains(held),
                forall|k: int| 0 <= k < from ==> self.path@[k] != held,
            decreases self.path.len() - from,
        {
            from = from + 1;
        }
        proof {
            if from == self.path@.len() {
                let k = choose|k: int| 0 <= k < self.path@.len() && self.path@[k] == held;
            }
        }
        let mut ring: Vec<usize> = Vec::new();
        let mut k: usize = from;
        while k < self.path.len()
            invariant
                from < self.path@.len(),
                self.path@[from as int] == held,
                from <= k <= self.path@.len(),
                ring@ == self.path@.subrange(from as int, k as int),
            decreases self.path.len() - k,
        {
            ring.push(self.path[k]);
            assert(ring@ =~= self.path@.subrange(from as int, k + 1));
            k = k + 1;
        }
        proof {
            assert forall|i: int| 0 <= i < ring@.len() - 1 implies edge(holds@, #[trigger] ring@[i] as int, ring@[i + 1] as int) by {
                assert(edge(holds@, self.path@[from + i] as int, self.path@[from + i + 1] as int));
            }
            assert(ring@.last() == at@);
            assert(ring@[0] == held);
        }
        ring
    }
}

/// Every record `program` declares, in the order it declares them.
fn records(program: &Program) -> (records: Vec<&TypeDeclaration>)
    ensures
        records@.len() == records_of(program.items@).len(),
        forall|k: int| 0 <= k < records@.len() ==> *(#[trigger] records@[k]) == records_of(program.items@)[k],
{
    let mut records: Vec<&TypeDeclaration> = Vec::new();
    let mut i: usize = 0;
    while i < program.items.len()
        invariant
            i <= program.items@.len(),
            records@.len() == records_of(program.items@.take(i as int)).len(),
            forall|k: int|
                0 <= k < records@.len() ==> *(#[trigger] records@[k]) == records_of(
                    program.items@.take(i as int),
                )[k],
        decreases program.items.len() - i,
    {
        assert(program.items@.take(i + 1).drop_last() =~= program.items@.take(i as int));
        match &program.items[i] {
            Item::Type(declaration) => match &declaration.definition {
                TypeDefinition::Record(_) => {
                    records.push(declaration);
                },
                _ => {},
            },
            _ => {},
        }
        i = i + 1;
    }
    assert(program.items@.take(program.items.len() as int) =~= program.items@);
    records
}

/// The declarations, as the specifications read them.
pub open spec fn declarations(records: Seq<&TypeDeclaration>) -> Seq<TypeDeclaration> {
    records.map_values(|one: &TypeDeclaration| *one)
}

/// Where the first record called `name` stands, when one is.
fn record_index(records: &Vec<&TypeDeclaration>, name: &String) -> (found: Option<usize>)
    ensures
        match first_where(declarations(records@), record_named(name@)) {
            Some(k) => found == Some(k as usize),
            None => found is None,
        },
{
    let ghost all = declarations(records@);
    let ghost wanted = record_named(name@);
    let mut i: usize = 0;
    while i < records.len()
        invariant
            i <= records@.len(),
            all == declarations(records@),
            wanted == record_named(name@),
            forall|j: int| 0 <= j < i ==> !wanted(#[trigger] all[j]),
        decreases records.len() - i,
    {
        if records[i].name.text == *name {
            proof {
                lemma_first_where(all, wanted, i as int);
            }
            return Some(i);
        }
        i = i + 1;
    }
    None
}

/// The record `field` is written as, by where it stands among `records`, when it is one.
fn named_by_field(records: &Vec<&TypeDeclaration>, field: &RecordField) -> (found: Option<usize>)
    ensures
        found matches Some(b) ==> b < records@.len(),
        forall|b: int|
            0 <= b < records@.len() ==> (found == Some(b as usize) <==> #[trigger] names_record(
                declarations(records@),
                *field,
                b,
            )),
{
    let count = records.len();
    proof {
        reveal(names_record);
    }
    match &field.type_ref.kind {
        TypeRefKind::Named { path, .. } => {
            if path.module.is_none() {
                let found = record_index(records, &path.name.text);
                proof {
                    if let Some(k) = first_where(declarations(records@), record_named(path.name.text@)) {
                        crate::prelude::lemma_first_where_bounds(declarations(records@), record_named(path.name.text@));
                    }
                }
                found
            } else {
                None
            }
        },
        TypeRefKind::Unit => None,
    }
}

/// The records one record's `fields` hold by value, by where each stands among `records`.
fn held_of(records: &Vec<&TypeDeclaration>, fields: &Vec<RecordField>) -> (held: Vec<usize>)
    ensures
        forall|j: int| 0 <= j < held@.len() ==> (#[trigger] held@[j]) < records@.len(),
        forall|b: int|
            0 <= b < records@.len() ==> (#[trigger] held@.contains(b as usize) <==> exists|f: int|
                0 <= f < fields@.len() && #[trigger] names_record(declarations(records@), fields@[f], b)),
{
    let count = records.len();
    let ghost all = declarations(records@);
    let mut held: Vec<usize> = Vec::new();
    let mut k: usize = 0;
    while k < fields.len()
        invariant
            k <= fields@.len(),
            all == declarations(records@),
            count == records@.len(),
            forall|j: int|
                0 <= j < held@.len() ==> (#[trigger] held@[j]) < records@.len() && exists|f: int|
                    0 <= f < k && #[trigger] names_record(all, fields@[f], held@[j] as int),
            forall|f: int, b: int|
                0 <= f < k && 0 <= b < records@.len() && #[trigger] names_record(all, fields@[f], b)
                    ==> held@.contains(b as usize),
        decreases fields.len() - k,
    {
        let ghost before = held@;
        let found = named_by_field(records, &fields[k]);
        match found {
            Some(b) => {
                held.push(b);
                proof {
                    assert(names_record(all, fields@[k as int], b as int));
                    assert(held@[held@.len() - 1] == b);
                    assert forall|j: int| 0 <= j < held@.len() implies (#[trigger] held@[j]) < records@.len() && exists|f: int|
                        0 <= f < k + 1 && #[trigger] names_record(all, fields@[f], held@[j] as int) by {
                        if j < before.len() {
                            assert(held@[j] == before[j]);
                        }
                    }
                    assert forall|f: int, c: int|
                        0 <= f < k + 1 && 0 <= c < records@.len() && #[trigger] names_record(all, fields@[f], c)
                            implies held@.contains(c as usize) by {
                        if f < k {
                            let j = choose|j: int| 0 <= j < before.len() && before[j] == c as usize;
                            assert(held@[j] == c as usize);
                        } else {
                            assert(found == Some(c as usize));
                            assert(c == b);
                        }
                    }
                }
            },
            None => {
                proof {
                    assert forall|f: int, c: int|
                        0 <= f < k + 1 && 0 <= c < records@.len() && #[trigger] names_record(all, fields@[f], c)
                            implies held@.contains(c as usize) by {
                        if f == k {
                            assert(found == Some(c as usize));
                        }
                    }
                }
            },
        }
        k = k + 1;
    }
    proof {
        assert forall|b: int| 0 <= b < records@.len() implies (#[trigger] held@.contains(b as usize) <==> exists|f: int|
            0 <= f < fields@.len() && #[trigger] names_record(all, fields@[f], b)) by {
            if held@.contains(b as usize) {
                let j = choose|j: int| 0 <= j < held@.len() && held@[j] == b as usize;
                assert(held@[j] < records@.len());
            }
        }
    }
    held
}

/// The records each record holds by value, which is what a ring runs along.
fn held_by(records: &Vec<&TypeDeclaration>) -> (holding: Vec<Vec<usize>>)
    ensures
        holding@.len() == records@.len(),
        closed(holding_view(holding@)),
        forall|a: int, b: int|
            #![trigger edge(holding_view(holding@), a, b)]
            0 <= a < records@.len() && 0 <= b < records@.len() ==> (edge(holding_view(holding@), a, b)
                <==> holds_record(declarations(records@), a, b)),
{
    let ghost all = declarations(records@);
    let mut holding: Vec<Vec<usize>> = Vec::new();
    let mut a: usize = 0;
    while a < records.len()
        invariant
            a <= records@.len(),
            all == declarations(records@),
            holding@.len() == a,
            forall|x: int, j: int|
                0 <= x < a && 0 <= j < holding@[x]@.len() ==> (#[trigger] holding@[x]@[j]) < records@.len(),
            forall|x: int, b: int|
                0 <= x < a && 0 <= b < records@.len() ==> (#[trigger] holding@[x]@.contains(b as usize)
                    <==> holds_record(all, x, b)),
        decreases records.len() - a,
    {
        proof {
            assert(all[a as int] == *records@[a as int]);
        }
        let held = match &records[a].definition {
            TypeDefinition::Record(fields) => {
                proof {
                    assert(fields_of(all[a as int]) == fields@);
                }
                held_of(records, fields)
            },
            _ => {
                proof {
                    assert(fields_of(all[a as int]).len() == 0);
                }
                Vec::new()
            },
        };
        let ghost before = holding@;
        holding.push(held);
        proof {
            assert forall|b: int| 0 <= b < records@.len() implies (holding@[a as int]@.contains(b as usize)
                <==> holds_record(all, a as int, b)) by {
                assert(holding@[a as int] == held);
                if holds_record(all, a as int, b) {
                    let f = choose|f: int| 0 <= f < fields_of(all[a as int]).len() && #[trigger] names_record(all, fields_of(all[a as int])[f], b);
                }
            }
            assert forall|x: int, b: int|
                0 <= x < a + 1 && 0 <= b < records@.len() implies (#[trigger] holding@[x]@.contains(b as usize)
                    <==> holds_record(all, x, b)) by {
                if x < a {
                    assert(holding@[x] == before[x]);
                }
            }
        }
        a = a + 1;
    }
    proof {
        let view = holding_view(holding@);
        assert forall|x: int, j: int| 0 <= x < view.len() && 0 <= j < view[x].len() implies (#[trigger] view[x][j]) < view.len() by {
            assert(view[x] == holding@[x]@);
        }
        assert forall|x: int, b: int|
            0 <= x < records@.len() && 0 <= b < records@.len() implies (edge(view, x, b) <==> holds_record(all, x, b)) by {
            assert(view[x] == holding@[x]@);
            assert(holding@[x]@.contains(b as usize) <==> holds_record(all, x, b));
        }
    }
    holding
}

/// The names of the records a ring runs through, in order.
fn ring_names(records: &Vec<&TypeDeclaration>, ring: &Vec<usize>) -> (names: Vec<String>)
    requires
        forall|i: int| 0 <= i < ring@.len() ==> (#[trigger] ring@[i]) < records@.len(),
    ensures
        names@.len() == ring@.len(),
        forall|i: int|
            0 <= i < ring@.len() ==> (#[trigger] names@[i])@ == records@[ring@[i] as int].name.text@,
{
    let mut names: Vec<String> = Vec::new();
    let mut i: usize = 0;
    while i < ring.len()
        invariant
            i <= ring@.len(),
            forall|j: int| 0 <= j < ring@.len() ==> (#[trigger] ring@[j]) < records@.len(),
            names@.len() == i,
            forall|j: int| 0 <= j < i ==> (#[trigger] names@[j])@ == records@[ring@[j] as int].name.text@,
        decreases ring.len() - i,
    {
        names.push(records[ring[i]].name.text.clone());
        i = i + 1;
    }
    names
}

/// The ring a walk of the declarations comes back round to, as the records it runs through.
pub open spec fn as_records(ring: Seq<usize>) -> Seq<int> {
    ring.map_values(|one: usize| one as int)
}

/// Refuses the first declared type that holds a value of itself.
///
/// A module is refused exactly where some records hold one another in a ring, and the refusal
/// names one such ring, from the record it is reported at round to that record again.
pub fn nothing_holds_itself(program: &Program) -> (checked: Result<(), TypeError>)
    ensures
        checked is Ok <==> !exists|ring: Seq<int>| is_record_ring(records_of(program.items@), ring),
        checked matches Err(error) ==> (error.spec_kind() matches TypeErrorKind::HoldsItself { ring: names }
            && exists|ring: Seq<int>|
            is_record_ring(records_of(program.items@), ring) && names@.len() == ring.len() && (forall|i: int|
                0 <= i < ring.len() ==> (#[trigger] names@[i])@ == records_of(program.items@)[ring[i]].name.text@)
                && error.spec_span() == records_of(program.items@)[ring[0]].name.span),
{
    let declared = records(program);
    let ghost all = records_of(program.items@);
    proof {
        assert(declarations(declared@) =~= all);
    }
    let holding = held_by(&declared);
    let ghost holds = holding_view(holding@);
    let mut walk = Walk::new(&holding);
    let mut i: usize = 0;
    while i < declared.len()
        invariant
            i <= declared@.len(),
            holding@.len() == declared@.len(),
            holds == holding_view(holding@),
            all == records_of(program.items@),
            all == declarations(declared@),
            declared@.len() == all.len(),
            forall|a: int, b: int|
                #![trigger edge(holds, a, b)]
                0 <= a < declared@.len() && 0 <= b < declared@.len() ==> (edge(holds, a, b)
                    <==> holds_record(all, a, b)),
            walk.well_formed(holds),
            walk.spec_path().len() == 0,
            forall|j: int| 0 <= j < i ==> #[trigger] walk.states()[j] == 2,
        decreases declared.len() - i,
    {
        proof {
            walk.lemma_shape(holds);
        }
        if walk.is_unreached(i) {
            let ghost before = walk;
            match walk.ring_from(i, &holding) {
                Some(ring) => {
                    proof {
                        lemma_record_ring(holds, all, ring@);
                    }
                    let names = ring_names(&declared, &ring);
                    let at = declared[ring[0]].name.span;
                    proof {
                        assert(is_record_ring(all, as_records(ring@)));
                        assert forall|j: int| 0 <= j < ring@.len() implies (#[trigger] names@[j])@ == all[as_records(ring@)[j]].name.text@ by {
                            assert(all[ring@[j] as int] == *declared@[ring@[j] as int]);
                        }
                        assert(all[ring@[0] as int] == *declared@[ring@[0] as int]);
                    }
                    return Err(TypeError::at(at, TypeErrorKind::HoldsItself { ring: names }));
                },
                None => {
                    proof {
                        assert forall|j: int| 0 <= j < i + 1 implies #[trigger] walk.states()[j] == 2 by {
                            if j < i {
                                assert(before.states()[j] == 2);
                            }
                        }
                    }
                },
            }
        } else {
            proof {
                if walk.states()[i as int] == 1 {
                    assert(walk.spec_path().contains(i as usize));
                }
            }
        }
        i = i + 1;
    }
    proof {
        walk.lemma_shape(holds);
        assert forall|ring: Seq<int>| !is_record_ring(all, ring) by {
            if is_record_ring(all, ring) {
                let as_walked = ring.map_values(|one: int| one as usize);
                assert forall|a: int, b: int| #[trigger] edge(holds, a, b) implies b < holds.len() && walk.finished()[b]
                    < walk.finished()[a] by {
                    assert(walk.states()[a] == 2);
                }
                assert(is_ring(holds, as_walked)) by {
                    assert forall|k: int| 0 <= k < as_walked.len() - 1 implies edge(holds, #[trigger] as_walked[k] as int, as_walked[k + 1] as int) by {
                        assert(holds_record(all, ring[k], ring[k + 1]));
                    }
                    assert(holds_record(all, ring.last(), ring[0]));
                    assert(as_walked.last() as int == ring.last());
                }
                lemma_no_ring(holds, walk.finished(), as_walked);
            }
        }
    }
    Ok(())
}

/// A ring the walk found runs through records that hold one another.
proof fn lemma_record_ring(holds: Holding, all: Seq<TypeDeclaration>, ring: Seq<usize>)
    requires
        is_ring(holds, ring),
        holds.len() == all.len(),
        forall|a: int, b: int|
            #![trigger edge(holds, a, b)]
            0 <= a < all.len() && 0 <= b < all.len() ==> (edge(holds, a, b) <==> holds_record(all, a, b)),
    ensures
        is_record_ring(all, as_records(ring)),
        forall|i: int| 0 <= i < ring.len() ==> (#[trigger] ring[i]) < all.len(),
{
    let records = as_records(ring);
    assert forall|i: int| 0 <= i < ring.len() implies (#[trigger] ring[i]) < all.len() by {
        if i < ring.len() - 1 {
            assert(edge(holds, ring[i] as int, ring[i + 1] as int));
        } else {
            assert(edge(holds, ring.last() as int, ring[0] as int));
        }
    }
    assert forall|i: int| 0 <= i < records.len() - 1 implies holds_record(all, #[trigger] records[i], records[i + 1]) by {
        assert(edge(holds, ring[i] as int, ring[i + 1] as int));
    }
    assert(edge(holds, ring.last() as int, ring[0] as int));
}

} // verus!
