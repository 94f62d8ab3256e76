//! What each variable has been settled to, and where a new one comes from.
use vstd::prelude::*;

use crate::text::texts;
use crate::types::{lemma_views_of, plain, views_of, Type, TypeVar, TypeView, INT};

verus! {

/// What the table has settled, as the specifications read it: each variable with its type.
pub type Entries = Seq<(TypeVar, TypeView)>;

/// How high each settled variable stands above the ones its type mentions.
pub type Rank = spec_fn(TypeVar) -> nat;

/// Whether `var` is settled in `entries`.
pub open spec fn is_key(entries: Entries, var: TypeVar) -> bool {
    exists|k: int| 0 <= k < entries.len() && entries[k].0 == var
}

/// Where `var` is settled in `entries`.
pub open spec fn index_of(entries: Entries, var: TypeVar) -> int {
    choose|k: int| 0 <= k < entries.len() && entries[k].0 == var
}

/// No variable is settled twice.
pub open spec fn keys_unique(entries: Entries) -> bool {
    forall|i: int, j: int|
        0 <= i < entries.len() && 0 <= j < entries.len() && i != j ==> entries[i].0 != entries[j].0
}

/// Whether `t` mentions the variable `x` anywhere in it.
pub open spec fn mentions(t: TypeView, x: TypeVar) -> bool
    decreases t, 0int,
{
    match t {
        TypeView::Var(v) => v == x,
        TypeView::Named(_, arguments) => mentions_among(arguments, arguments.len() as int, x),
        TypeView::Function(parameters, result) => mentions_among(
            parameters,
            parameters.len() as int,
            x,
        ) || mentions(*result, x),
        _ => false,
    }
}

/// Whether one of the first `n` of `types` mentions `x`.
pub open spec fn mentions_among(types: Seq<TypeView>, n: int, x: TypeVar) -> bool
    decreases types, n,
{
    if n <= 0 || n > types.len() {
        false
    } else {
        mentions_among(types, n - 1, x) || mentions(types[n - 1], x)
    }
}

/// The larger of two heights.
pub open spec fn higher(one: nat, other: nat) -> nat {
    if one >= other {
        one
    } else {
        other
    }
}

/// How high `t` stands: one above the highest settled variable it mentions, and nothing where
/// it mentions none.
pub open spec fn height(entries: Entries, rank: Rank, t: TypeView) -> nat
    decreases t, 0int,
{
    match t {
        TypeView::Var(v) => if is_key(entries, v) {
            rank(v) + 1
        } else {
            0
        },
        TypeView::Named(_, arguments) => height_among(
            entries,
            rank,
            arguments,
            arguments.len() as int,
        ),
        TypeView::Function(parameters, result) => higher(
            height_among(entries, rank, parameters, parameters.len() as int),
            height(entries, rank, *result),
        ),
        _ => 0,
    }
}

/// How high the highest of the first `n` of `types` stands.
pub open spec fn height_among(entries: Entries, rank: Rank, types: Seq<TypeView>, n: int) -> nat
    decreases types, n,
{
    if n <= 0 || n > types.len() {
        0
    } else {
        higher(height_among(entries, rank, types, n - 1), height(entries, rank, types[n - 1]))
    }
}

/// Every settled variable stands above each settled variable its type mentions, so following
/// variables always comes to an end.
pub open spec fn ranked(entries: Entries, rank: Rank) -> bool {
    forall|k: int, x: TypeVar|
        #![trigger mentions(entries[k].1, x), is_key(entries, x)]
        0 <= k < entries.len() && mentions(entries[k].1, x) && is_key(entries, x) ==> rank(x)
            < rank(entries[k].0)
}

/// A type under `bound` mentions nothing that stands as high as `bound`, and so stands no
/// higher than it.
pub proof fn lemma_height_below(entries: Entries, rank: Rank, t: TypeView, bound: nat)
    requires
        forall|x: TypeVar| mentions(t, x) && is_key(entries, x) ==> rank(x) < bound,
    ensures
        height(entries, rank, t) <= bound,
    decreases t, 0int,
{
    match t {
        TypeView::Named(_, arguments) => {
            lemma_height_among_below(entries, rank, arguments, arguments.len() as int, bound);
        },
        TypeView::Function(parameters, result) => {
            lemma_height_among_below(entries, rank, parameters, parameters.len() as int, bound);
            lemma_height_below(entries, rank, *result, bound);
        },
        _ => {},
    }
}

/// The same, for the first `n` of a sequence of types.
pub proof fn lemma_height_among_below(
    entries: Entries,
    rank: Rank,
    types: Seq<TypeView>,
    n: int,
    bound: nat,
)
    requires
        forall|x: TypeVar| mentions_among(types, n, x) && is_key(entries, x) ==> rank(x) < bound,
    ensures
        height_among(entries, rank, types, n) <= bound,
    decreases types, n,
{
    if 0 < n <= types.len() {
        lemma_height_among_below(entries, rank, types, n - 1, bound);
        lemma_height_below(entries, rank, types[n - 1], bound);
    }
}

/// In a ranked table, the type a variable is settled to stands below the variable.
pub proof fn lemma_body_height(entries: Entries, rank: Rank, var: TypeVar)
    requires
        ranked(entries, rank),
        is_key(entries, var),
    ensures
        height(entries, rank, entries[index_of(entries, var)].1) <= rank(var),
{
    let k = index_of(entries, var);
    assert forall|x: TypeVar| mentions(entries[k].1, x) && is_key(entries, x) implies rank(x)
        < rank(var) by {}
    lemma_height_below(entries, rank, entries[k].1, rank(var));
}

/// `t` with every settled variable anywhere in it followed to what it stands for, and, where
/// `defaults` is set, every unsettled variable among `whole` read as the `Int` it defaults to.
pub open spec fn followed(
    entries: Entries,
    rank: Rank,
    whole: Set<TypeVar>,
    defaults: bool,
    t: TypeView,
) -> TypeView
    decreases height(entries, rank, t), t, 0int,
    when ranked(entries, rank)
{
    match t {
        TypeView::Var(v) => if is_key(entries, v) {
            proof {
                lemma_body_height(entries, rank, v);
            }
            followed(entries, rank, whole, defaults, entries[index_of(entries, v)].1)
        } else if defaults && whole.contains(v) {
            plain(INT@)
        } else {
            t
        },
        TypeView::Named(name, arguments) => TypeView::Named(
            name,
            followed_among(entries, rank, whole, defaults, arguments, arguments.len() as int),
        ),
        TypeView::Function(parameters, result) => TypeView::Function(
            followed_among(entries, rank, whole, defaults, parameters, parameters.len() as int),
            Box::new(followed(entries, rank, whole, defaults, *result)),
        ),
        _ => t,
    }
}

/// The first `n` of `types`, each followed.
pub open spec fn followed_among(
    entries: Entries,
    rank: Rank,
    whole: Set<TypeVar>,
    defaults: bool,
    types: Seq<TypeView>,
    n: int,
) -> Seq<TypeView>
    decreases height_among(entries, rank, types, n), types, n,
    when ranked(entries, rank)
{
    if n <= 0 || n > types.len() {
        Seq::empty()
    } else {
        followed_among(entries, rank, whole, defaults, types, n - 1).push(
            followed(entries, rank, whole, defaults, types[n - 1]),
        )
    }
}

/// `t` with every settled variable anywhere in it followed to what it stands for.
pub open spec fn solved(entries: Entries, rank: Rank, t: TypeView) -> TypeView {
    followed(entries, rank, Set::empty(), false, t)
}

/// `t` with its outermost settled variable followed to what it stands for.
pub open spec fn outer(entries: Entries, rank: Rank, t: TypeView) -> TypeView
    decreases height(entries, rank, t),
    when ranked(entries, rank)
{
    match t {
        TypeView::Var(v) => if is_key(entries, v) {
            proof {
                lemma_body_height(entries, rank, v);
            }
            outer(entries, rank, entries[index_of(entries, v)].1)
        } else {
            t
        },
        _ => t,
    }
}

/// The first `n` followed hold one type for each, each that type followed.
pub proof fn lemma_followed_among(
    entries: Entries,
    rank: Rank,
    whole: Set<TypeVar>,
    defaults: bool,
    types: Seq<TypeView>,
    n: int,
)
    requires
        ranked(entries, rank),
        0 <= n <= types.len(),
    ensures
        followed_among(entries, rank, whole, defaults, types, n).len() == n,
        forall|k: int|
            0 <= k < n ==> #[trigger] followed_among(entries, rank, whole, defaults, types, n)[k]
                == followed(entries, rank, whole, defaults, types[k]),
    decreases n,
{
    if n > 0 {
        lemma_followed_among(entries, rank, whole, defaults, types, n - 1);
    }
}

/// One of the first `n` mentions `x` exactly where some one of them does.
pub proof fn lemma_mentions_among(types: Seq<TypeView>, n: int, x: TypeVar)
    requires
        0 <= n <= types.len(),
    ensures
        mentions_among(types, n, x) <==> exists|k: int| 0 <= k < n && #[trigger] mentions(types[k], x),
    decreases n,
{
    if n > 0 {
        lemma_mentions_among(types, n - 1, x);
        if mentions(types[n - 1], x) {
            assert(mentions(types[n - 1], x));
        }
    }
}

/// Each of the first `n` stands no higher than the highest of them.
pub proof fn lemma_height_among(entries: Entries, rank: Rank, types: Seq<TypeView>, n: int, k: int)
    requires
        0 <= k < n <= types.len(),
    ensures
        height(entries, rank, types[k]) <= height_among(entries, rank, types, n),
    decreases n,
{
    if k < n - 1 {
        lemma_height_among(entries, rank, types, n - 1, k);
    }
}

/// The variables `t` is written with, left to right, each as often as it is written: the
/// arguments of a named type in order, and a function's parameters before its result.
pub open spec fn occurrences(t: TypeView) -> Seq<TypeVar>
    decreases t, 0int,
{
    match t {
        TypeView::Var(v) => seq![v],
        TypeView::Named(_, arguments) => occurrences_among(arguments, arguments.len() as int),
        TypeView::Function(parameters, result) => occurrences_among(
            parameters,
            parameters.len() as int,
        ) + occurrences(*result),
        _ => Seq::empty(),
    }
}

/// The variables the first `n` of `types` are written with, one after another.
pub open spec fn occurrences_among(types: Seq<TypeView>, n: int) -> Seq<TypeVar>
    decreases types, n,
{
    if n <= 0 || n > types.len() {
        Seq::empty()
    } else {
        occurrences_among(types, n - 1) + occurrences(types[n - 1])
    }
}

/// `into` with each of `found` added in turn, where it is not there already.
pub open spec fn gathered(into: Seq<TypeVar>, found: Seq<TypeVar>) -> Seq<TypeVar>
    decreases found.len(),
{
    if found.len() == 0 {
        into
    } else {
        gathered(
            if into.contains(found[0]) {
                into
            } else {
                into.push(found[0])
            },
            found.drop_first(),
        )
    }
}

/// Gathering two runs one after the other is gathering the first and then the second.
pub proof fn lemma_gathered(into: Seq<TypeVar>, first: Seq<TypeVar>, second: Seq<TypeVar>)
    ensures
        gathered(into, first + second) == gathered(gathered(into, first), second),
    decreases first.len(),
{
    if first.len() == 0 {
        assert(first + second =~= second);
    } else {
        assert((first + second).drop_first() =~= first.drop_first() + second);
        assert((first + second)[0] == first[0]);
        let next = if into.contains(first[0]) {
            into
        } else {
            into.push(first[0])
        };
        lemma_gathered(next, first.drop_first(), second);
    }
}

/// The variables the first `n` of `types` are written with once each is solved, one after another.
pub open spec fn solved_occurrences(entries: Entries, rank: Rank, types: Seq<TypeView>, n: int) -> Seq<
    TypeVar,
>
    decreases n,
{
    if n <= 0 || n > types.len() {
        Seq::empty()
    } else {
        solved_occurrences(entries, rank, types, n - 1) + occurrences(solved(entries, rank, types[n - 1]))
    }
}

/// A sequence each of whose first `n` is the solved one of `types` is written with the variables
/// `types` are written with once solved.
pub proof fn lemma_solved_occurrences(
    entries: Entries,
    rank: Rank,
    types: Seq<TypeView>,
    after: Seq<TypeView>,
    n: int,
)
    requires
        0 <= n <= types.len(),
        n <= after.len(),
        forall|k: int| 0 <= k < n ==> after[k] == solved(entries, rank, types[k]),
    ensures
        occurrences_among(after, n) == solved_occurrences(entries, rank, types, n),
    decreases n,
{
    if n > 0 {
        lemma_solved_occurrences(entries, rank, types, after, n - 1);
    }
}

/// Whether `after` begins with all of `before`, in its order.
pub open spec fn kept_before(after: Seq<TypeVar>, before: Seq<TypeVar>) -> bool {
    before.len() <= after.len() && after.take(before.len() as int) == before
}

/// What begins with what begins with a third begins with the third.
pub proof fn lemma_kept_before(last: Seq<TypeVar>, middle: Seq<TypeVar>, first: Seq<TypeVar>)
    requires
        kept_before(last, middle),
        kept_before(middle, first),
    ensures
        kept_before(last, first),
{
    assert(last.take(first.len() as int) =~= last.take(middle.len() as int).take(first.len() as int));
}

/// Following the outermost variable first changes nothing about what a type is followed to,
/// leaves no settled variable outermost, and never climbs.
pub proof fn lemma_outer(entries: Entries, rank: Rank, whole: Set<TypeVar>, defaults: bool, t: TypeView)
    requires
        ranked(entries, rank),
    ensures
        followed(entries, rank, whole, defaults, outer(entries, rank, t)) == followed(
            entries,
            rank,
            whole,
            defaults,
            t,
        ),
        !(outer(entries, rank, t) matches TypeView::Var(v) && is_key(entries, v)),
        height(entries, rank, outer(entries, rank, t)) <= height(entries, rank, t),
        outer(entries, rank, t) != t ==> height(entries, rank, outer(entries, rank, t)) < height(
            entries,
            rank,
            t,
        ),
    decreases height(entries, rank, t),
{
    match t {
        TypeView::Var(v) => if is_key(entries, v) {
            lemma_body_height(entries, rank, v);
            lemma_outer(entries, rank, whole, defaults, entries[index_of(entries, v)].1);
        },
        _ => {},
    }
}

/// What a settled variable is settled to, read off the entry that settles it.
pub proof fn lemma_index_of(entries: Entries, k: int)
    requires
        keys_unique(entries),
        0 <= k < entries.len(),
    ensures
        is_key(entries, entries[k].0),
        index_of(entries, entries[k].0) == k,
{
    assert(is_key(entries, entries[k].0));
}

/// Where `t` mentions `x`, whatever `x` is followed to is inside what `t` is followed to.
pub proof fn lemma_reach(entries: Entries, rank: Rank, t: TypeView, x: TypeVar, y: TypeVar)
    requires
        ranked(entries, rank),
        mentions(t, x),
        mentions(solved(entries, rank, TypeView::Var(x)), y),
    ensures
        mentions(solved(entries, rank, t), y),
    decreases t, 0int,
{
    let whole = Set::<TypeVar>::empty();
    match t {
        TypeView::Named(name, arguments) => {
            lemma_mentions_among(arguments, arguments.len() as int, x);
            let k = choose|k: int| 0 <= k < arguments.len() && #[trigger] mentions(arguments[k], x);
            lemma_reach(entries, rank, arguments[k], x, y);
            lemma_followed_among(entries, rank, whole, false, arguments, arguments.len() as int);
            let after = followed_among(entries, rank, whole, false, arguments, arguments.len() as int);
            lemma_mentions_among(after, arguments.len() as int, y);
            assert(mentions(after[k], y));
        },
        TypeView::Function(parameters, result) => {
            lemma_followed_among(entries, rank, whole, false, parameters, parameters.len() as int);
            let after = followed_among(entries, rank, whole, false, parameters, parameters.len() as int);
            lemma_mentions_among(after, parameters.len() as int, y);
            lemma_mentions_among(parameters, parameters.len() as int, x);
            if mentions_among(parameters, parameters.len() as int, x) {
                let k = choose|k: int| 0 <= k < parameters.len() && #[trigger] mentions(parameters[k], x);
                lemma_reach(entries, rank, parameters[k], x, y);
                assert(mentions(after[k], y));
            } else {
                lemma_reach(entries, rank, *result, x, y);
            }
        },
        _ => {},
    }
}

/// An unsettled variable `t` mentions is still there once `t` is followed.
pub proof fn lemma_unsettled_stays(entries: Entries, rank: Rank, t: TypeView, x: TypeVar)
    requires
        ranked(entries, rank),
        mentions(t, x),
        !is_key(entries, x),
    ensures
        mentions(solved(entries, rank, t), x),
{
    assert(solved(entries, rank, TypeView::Var(x)) == TypeView::Var(x));
    lemma_reach(entries, rank, t, x, x);
}

/// Where nothing defaults, which variables stand for whole numbers changes nothing.
pub proof fn lemma_whole_unread(
    entries: Entries,
    rank: Rank,
    one: Set<TypeVar>,
    other: Set<TypeVar>,
    t: TypeView,
)
    requires
        ranked(entries, rank),
    ensures
        followed(entries, rank, one, false, t) == followed(entries, rank, other, false, t),
    decreases height(entries, rank, t), t, 0int,
{
    match t {
        TypeView::Var(v) => if is_key(entries, v) {
            lemma_body_height(entries, rank, v);
            lemma_whole_unread(entries, rank, one, other, entries[index_of(entries, v)].1);
        },
        TypeView::Named(name, arguments) => {
            lemma_whole_unread_among(entries, rank, one, other, arguments, arguments.len() as int);
        },
        TypeView::Function(parameters, result) => {
            lemma_whole_unread_among(entries, rank, one, other, parameters, parameters.len() as int);
            lemma_whole_unread(entries, rank, one, other, *result);
        },
        _ => {},
    }
}

/// The same, for the first `n` of a sequence of types.
pub proof fn lemma_whole_unread_among(
    entries: Entries,
    rank: Rank,
    one: Set<TypeVar>,
    other: Set<TypeVar>,
    types: Seq<TypeView>,
    n: int,
)
    requires
        ranked(entries, rank),
    ensures
        followed_among(entries, rank, one, false, types, n) == followed_among(
            entries,
            rank,
            other,
            false,
            types,
            n,
        ),
    decreases height_among(entries, rank, types, n), types, n,
{
    if 0 < n <= types.len() {
        lemma_whole_unread_among(entries, rank, one, other, types, n - 1);
        lemma_whole_unread(entries, rank, one, other, types[n - 1]);
    }
}

/// Whether a standing reads an unsettled whole number as the `Int` it defaults to.
#[derive(Clone, Copy, Debug, PartialEq, Eq, Structural)]
pub enum Standing {
    /// The variable it is, which the code around it may still settle on a type.
    AsItIs,
    /// The `Int` it defaults to, which is the one default a whole number has.
    AsTheIntItDefaultsTo,
}

/// The variables inference has made, and what each one has been settled to.
pub struct Table {
    settled: Vec<(TypeVar, Type)>,
    /// The variables standing for a whole number written in the source, which settle on less
    /// than an ordinary variable does and read as `Int` while nothing has settled them.
    whole_numbers: Vec<TypeVar>,
    /// The types a whole number is written at, which is every type with an instance of
    /// `IntegerLiteral`.
    written_at: Vec<String>,
    made: u32,
    /// How high each settled variable stands, which is what following one comes to an end by.
    rank: Ghost<Rank>,
    /// How high the highest settled variable stands.
    top: Ghost<nat>,
}

/// One entry as the specifications read it.
pub open spec fn entry_view(entry: (TypeVar, Type)) -> (TypeVar, TypeView) {
    (entry.0, entry.1@)
}

impl Table {
    /// Each variable settled, with the type it is settled to.
    pub closed spec fn entries(&self) -> Entries {
        self.settled@.map_values(|entry: (TypeVar, Type)| entry_view(entry))
    }

    /// How high each settled variable stands.
    pub closed spec fn rank(&self) -> Rank {
        self.rank@
    }

    /// The variables standing for a whole number.
    pub closed spec fn whole(&self) -> Set<TypeVar> {
        self.whole_numbers@.to_set()
    }

    /// The types a whole number may be written at.
    pub closed spec fn written(&self) -> Set<Seq<char>> {
        texts(self.written_at@).to_set()
    }

    /// How many variables have been made, which is the number the next one gets.
    pub closed spec fn made(&self) -> nat {
        self.made as nat
    }

    /// No variable is settled twice, following variables comes to an end, and every variable
    /// the table holds is one it made.
    pub closed spec fn well_formed(&self) -> bool {
        &&& keys_unique(self.entries())
        &&& ranked(self.entries(), self.rank@)
        &&& forall|k: int|
            0 <= k < self.entries().len() ==> #[trigger] self.rank@(self.entries()[k].0)
                <= self.top@
        &&& forall|k: int|
            0 <= k < self.entries().len() ==> (#[trigger] self.entries()[k]).0.0 < self.made
        &&& forall|k: int, x: TypeVar|
            0 <= k < self.entries().len() && #[trigger] mentions(self.entries()[k].1, x) ==> x.0
                < self.made
    }

    /// `t` with every settled variable in it followed.
    pub open spec fn spec_solved(&self, t: TypeView) -> TypeView {
        solved(self.entries(), self.rank(), t)
    }

    /// Every variable `t` mentions is one this table made.
    pub open spec fn holds_made(&self, t: TypeView) -> bool {
        forall|x: TypeVar| mentions(t, x) ==> x.0 < self.made()
    }

    /// A table that has made and settled nothing.
    pub fn new() -> (table: Table)
        ensures
            table.well_formed(),
            table.entries() == Seq::<(TypeVar, TypeView)>::empty(),
            table.whole() == Set::<TypeVar>::empty(),
            table.written() == Set::<Seq<char>>::empty(),
            table.made() == 0,
    {
        let table = Table {
            settled: Vec::new(),
            whole_numbers: Vec::new(),
            written_at: Vec::new(),
            made: 0,
            rank: Ghost(|var: TypeVar| 0nat),
            top: Ghost(0nat),
        };
        assert(table.entries() =~= Seq::<(TypeVar, TypeView)>::empty());
        assert(table.whole() =~= Set::<TypeVar>::empty());
        assert(table.written() =~= Set::<Seq<char>>::empty());
        table
    }

    /// Where `var` is settled, when it is.
    fn look_up(&self, var: TypeVar) -> (found: Option<usize>)
        requires
            self.well_formed(),
        ensures
            match found {
                Some(k) => k < self.entries().len() && self.entries()[k as int].0 == var
                    && is_key(self.entries(), var) && index_of(self.entries(), var) == k,
                None => !is_key(self.entries(), var),
            },
    {
        let mut i: usize = 0;
        while i < self.settled.len()
            invariant
                i <= self.settled@.len(),
                self.well_formed(),
                forall|j: int| 0 <= j < i ==> self.entries()[j].0 != var,
            decreases self.settled.len() - i,
        {
            assert(self.entries()[i as int] == entry_view(self.settled@[i as int]));
            if self.settled[i].0 == var {
                proof {
                    lemma_index_of(self.entries(), i as int);
                }
                return Some(i);
            }
            i = i + 1;
        }
        None
    }

    /// A variable no other place in the program has.
    pub fn fresh(&mut self) -> (made: Type)
        requires
            old(self).well_formed(),
            old(self).made() < u32::MAX,
        ensures
            final(self).well_formed(),
            made@ == TypeView::Var(TypeVar(old(self).made() as u32)),
            final(self).made() == old(self).made() + 1,
            final(self).entries() == old(self).entries(),
            final(self).rank() == old(self).rank(),
            final(self).whole() == old(self).whole(),
            final(self).written() == old(self).written(),
    {
        Type::Var(self.made_up())
    }

    /// A variable standing for a whole number, which settles only where one may be written.
    pub fn fresh_whole_number(&mut self) -> (made: Type)
        requires
            old(self).well_formed(),
            old(self).made() < u32::MAX,
        ensures
            final(self).well_formed(),
            made@ == TypeView::Var(TypeVar(old(self).made() as u32)),
            final(self).made() == old(self).made() + 1,
            final(self).entries() == old(self).entries(),
            final(self).rank() == old(self).rank(),
            final(self).whole() == old(self).whole().insert(TypeVar(old(self).made() as u32)),
            final(self).written() == old(self).written(),
    {
        let var = self.made_up();
        self.note_a_whole_number(var);
        Type::Var(var)
    }

    /// Says which types a whole number may be written at, once every instance has been read.
    pub fn whole_numbers_are_written_at(&mut self, types: Vec<String>)
        requires
            old(self).well_formed(),
        ensures
            final(self).well_formed(),
            final(self).written() == old(self).written().union(texts(types@).to_set()),
            final(self).entries() == old(self).entries(),
            final(self).rank() == old(self).rank(),
            final(self).whole() == old(self).whole(),
            final(self).made() == old(self).made(),
    {
        let ghost before = self.written_at@;
        let mut i: usize = 0;
        while i < types.len()
            invariant
                i <= types@.len(),
                self.settled@ == old(self).settled@,
                self.whole_numbers@ == old(self).whole_numbers@,
                self.made == old(self).made,
                self.rank == old(self).rank,
                self.top == old(self).top,
                self.written_at@ == before + types@.take(i as int),
            decreases types.len() - i,
        {
            self.written_at.push(types[i].clone());
            assert(types@.take(i + 1) =~= types@.take(i as int).push(types@[i as int]));
            i = i + 1;
        }
        assert(types@.take(types.len() as int) =~= types@);
        assert(texts(self.written_at@) =~= texts(before) + texts(types@));
        broadcast use vstd::seq_lib::group_seq_properties;
        assert(texts(self.written_at@).to_set() =~= texts(before).to_set().union(
            texts(types@).to_set(),
        ));
    }

    /// Makes `var` stand for a whole number, which is what meeting one does to it.
    pub fn note_a_whole_number(&mut self, var: TypeVar)
        requires
            old(self).well_formed(),
        ensures
            final(self).well_formed(),
            final(self).whole() == old(self).whole().insert(var),
            final(self).entries() == old(self).entries(),
            final(self).rank() == old(self).rank(),
            final(self).written() == old(self).written(),
            final(self).made() == old(self).made(),
    {
        if !self.is_a_whole_number(var) {
            let ghost before = self.whole_numbers@;
            self.whole_numbers.push(var);
            broadcast use vstd::seq_lib::group_seq_properties;
            assert(self.whole_numbers@.to_set() =~= before.to_set().insert(var));
        } else {
            assert(self.whole_numbers@.to_set() =~= self.whole_numbers@.to_set().insert(var));
        }
    }

    /// Whether `var` stands for a whole number rather than for anything at all.
    pub fn is_a_whole_number(&self, var: TypeVar) -> (whole: bool)
        ensures
            whole == self.whole().contains(var),
    {
        let mut i: usize = 0;
        while i < self.whole_numbers.len()
            invariant
                i <= self.whole_numbers@.len(),
                forall|j: int| 0 <= j < i ==> self.whole_numbers@[j] != var,
            decreases self.whole_numbers.len() - i,
        {
            if self.whole_numbers[i] == var {
                assert(self.whole_numbers@.to_set().contains(self.whole_numbers@[i as int]));
                return true;
            }
            i = i + 1;
        }
        false
    }

    /// Whether a whole number is written at `to`, which is whether `to` has the instance.
    pub fn takes_a_whole_number(&self, to: &Type) -> (takes: bool)
        ensures
            takes == (to@ matches TypeView::Named(name, _) && self.written().contains(name)),
    {
        match to {
            Type::Named { name, .. } => {
                let found = crate::text::holds_text(&self.written_at, name);
                proof {
                    if self.written().contains(name@) {
                        assert(texts(self.written_at@).contains(name@));
                    }
                }
                found
            },
            _ => false,
        }
    }

    /// `of` followed to whatever it stands for, with `standing` saying what an unsettled whole
    /// number stands for.
    fn followed(&self, of: &Type, standing: Standing) -> (found: Type)
        requires
            self.well_formed(),
        ensures
            found@ == followed(
                self.entries(),
                self.rank(),
                self.whole(),
                standing == Standing::AsTheIntItDefaultsTo,
                of@,
            ),
        decreases height(self.entries(), self.rank(), of@), of@, 2int,
    {
        let ghost entries = self.entries();
        let ghost rank = self.rank();
        let ghost whole = self.whole();
        let ghost defaults = standing == Standing::AsTheIntItDefaultsTo;
        match of {
            Type::Var(var) => {
                match self.look_up(*var) {
                    Some(k) => {
                        proof {
                            lemma_body_height(entries, rank, *var);
                            assert(entries[k as int] == entry_view(self.settled@[k as int]));
                        }
                        self.followed(&self.settled[k].1, standing)
                    },
                    None => {
                        if standing == Standing::AsTheIntItDefaultsTo && self.is_a_whole_number(*var) {
                            Type::integer()
                        } else {
                            Type::Var(*var)
                        }
                    },
                }
            },
            Type::Named { name, arguments } => {
                proof {
                    lemma_views_of(arguments@);
                }
                let each = self.each(arguments, standing, Ghost(of@));
                proof {
                    lemma_followed_among(entries, rank, whole, defaults, views_of(arguments@), arguments@.len() as int);
                    lemma_views_of(each@);
                    assert(views_of(each@) =~= followed_among(entries, rank, whole, defaults, views_of(arguments@), arguments@.len() as int));
                }
                Type::Named { name: name.clone(), arguments: each }
            },
            Type::Function { parameters, result } => {
                proof {
                    lemma_views_of(parameters@);
                }
                let each = self.each(parameters, standing, Ghost(of@));
                proof {
                    lemma_followed_among(entries, rank, whole, defaults, views_of(parameters@), parameters@.len() as int);
                    lemma_views_of(each@);
                    assert(views_of(each@) =~= followed_among(entries, rank, whole, defaults, views_of(parameters@), parameters@.len() as int));
                    assert(decreases_to!(of@ => of@->Function_1));
                }
                let result = self.followed(result, standing);
                Type::Function { parameters: each, result: Box::new(result) }
            },
            Type::Parameter(parameter) => Type::Parameter(parameter.copied()),
            Type::Module(name) => Type::Module(name.clone()),
            Type::Unit => Type::Unit,
        }
    }

    /// Each of `types` followed, where they are the arguments of `whole_type`.
    fn each(&self, types: &Vec<Type>, standing: Standing, whole_type: Ghost<TypeView>) -> (found: Vec<Type>)
        requires
            self.well_formed(),
            whole_type@ matches TypeView::Named(_, arguments) ==> arguments == views_of(types@),
            whole_type@ matches TypeView::Function(parameters, _) ==> parameters == views_of(types@),
            whole_type@ is Named || whole_type@ is Function,
        ensures
            found@.len() == types@.len(),
            forall|k: int|
                0 <= k < types@.len() ==> (#[trigger] found@[k])@ == followed(
                    self.entries(),
                    self.rank(),
                    self.whole(),
                    standing == Standing::AsTheIntItDefaultsTo,
                    types@[k]@,
                ),
        decreases height(self.entries(), self.rank(), whole_type@), whole_type@, 1int,
    {
        let ghost entries = self.entries();
        let ghost rank = self.rank();
        let mut found: Vec<Type> = Vec::new();
        let mut i: usize = 0;
        while i < types.len()
            invariant
                i <= types@.len(),
                self.well_formed(),
                entries == self.entries(),
                rank == self.rank(),
                whole_type@ matches TypeView::Named(_, arguments) ==> arguments == views_of(types@),
                whole_type@ matches TypeView::Function(parameters, _) ==> parameters == views_of(types@),
                whole_type@ is Named || whole_type@ is Function,
                found@.len() == i,
                forall|k: int|
                    0 <= k < i ==> (#[trigger] found@[k])@ == followed(
                        self.entries(),
                        self.rank(),
                        self.whole(),
                        standing == Standing::AsTheIntItDefaultsTo,
                        types@[k]@,
                    ),
            decreases types.len() - i,
        {
            proof {
                lemma_views_of(types@);
                lemma_height_among(entries, rank, views_of(types@), types@.len() as int, i as int);
                match whole_type@ {
                    TypeView::Named(_, arguments) => {
                        assert(decreases_to!(whole_type@ => arguments));
                        assert(decreases_to!(arguments => arguments[i as int]));
                    },
                    TypeView::Function(parameters, result) => {
                        assert(decreases_to!(whole_type@ => parameters));
                        assert(decreases_to!(parameters => parameters[i as int]));
                    },
                    _ => {},
                }
            }
            found.push(self.followed(&types[i], standing));
            i = i + 1;
        }
        found
    }

    /// `of` with every variable anywhere in it followed to whatever it stands for.
    pub fn solved(&self, of: &Type) -> (found: Type)
        requires
            self.well_formed(),
        ensures
            found@ == self.spec_solved(of@),
    {
        proof {
            lemma_whole_unread(self.entries(), self.rank(), self.whole(), Set::empty(), of@);
        }
        self.followed(of, Standing::AsItIs)
    }

    /// The same, with a whole number nothing has settled read as the `Int` it defaults to.
    ///
    /// That is what a refusal owes its reader: a whole number met a type that takes none, and the
    /// reader wrote a number rather than the variable inference gave it. Inference itself follows
    /// the variable instead, because the code around it may still settle it on something else.
    pub fn read(&self, of: &Type) -> (found: Type)
        requires
            self.well_formed(),
        ensures
            found@ == followed(self.entries(), self.rank(), self.whole(), true, of@),
    {
        self.followed(of, Standing::AsTheIntItDefaultsTo)
    }

    /// `of` with its outermost variable followed to whatever it stands for.
    pub fn shallow(&self, of: &Type) -> (found: Type)
        requires
            self.well_formed(),
        ensures
            found@ == outer(self.entries(), self.rank(), of@),
        decreases height(self.entries(), self.rank(), of@),
    {
        match of {
            Type::Var(var) => {
                match self.look_up(*var) {
                    Some(k) => {
                        proof {
                            lemma_body_height(self.entries(), self.rank(), *var);
                            assert(self.entries()[k as int] == entry_view(self.settled@[k as int]));
                        }
                        self.shallow(&self.settled[k].1)
                    },
                    None => Type::Var(*var),
                }
            },
            _ => of.copied(),
        }
    }

    /// Every variable `of` still holds once it is solved, each named once.
    pub fn unsettled(&self, of: &Type, into: &mut Vec<TypeVar>)
        requires
            self.well_formed(),
        ensures
            forall|x: TypeVar|
                #![trigger final(into)@.contains(x)]
                final(into)@.contains(x) <==> (old(into)@.contains(x) || mentions(
                    self.spec_solved(of@),
                    x,
                )),
            old(into)@.no_duplicates() ==> final(into)@.no_duplicates(),
            kept_before(final(into)@, old(into)@),
            final(into)@ == gathered(old(into)@, occurrences(self.spec_solved(of@))),
        decreases height(self.entries(), self.rank(), of@), of@, 2int,
    {
        proof {
            assert(into@.take(into@.len() as int) =~= into@);
        }
        proof {
            assert(into@.take(into@.len() as int) =~= into@);
        }
        let ghost entries = self.entries();
        let ghost rank = self.rank();
        let ghost none = Set::<TypeVar>::empty();
        match of {
            Type::Var(var) => {
                match self.look_up(*var) {
                    Some(k) => {
                        proof {
                            lemma_body_height(entries, rank, *var);
                            assert(entries[k as int] == entry_view(self.settled@[k as int]));
                        }
                        self.unsettled(&self.settled[k].1, into);
                    },
                    None => {
                        proof {
                            assert(into@.take(into@.len() as int) =~= into@);
                            assert(self.spec_solved(of@) == of@);
                            assert(occurrences(of@) =~= seq![*var]);
                            assert(seq![*var].drop_first() =~= Seq::<TypeVar>::empty());
                            assert(gathered(into@, seq![*var]) == gathered(
                                if into@.contains(*var) {
                                    into@
                                } else {
                                    into@.push(*var)
                                },
                                Seq::<TypeVar>::empty(),
                            ));
                        }
                        if !holds_var(into, *var) {
                            let ghost before = into@;
                            into.push(*var);
                            proof {
                                assert(into@.take(before.len() as int) =~= before);
                                assert forall|x: TypeVar| #![trigger into@.contains(x)]
                                    into@.contains(x) <==> (before.contains(x) || x == *var) by {
                                    if into@.contains(x) {
                                        let j = choose|j: int| 0 <= j < into@.len() && into@[j] == x;
                                        if j < before.len() {
                                            assert(before[j] == x);
                                        }
                                    }
                                    if before.contains(x) {
                                        let j = choose|j: int| 0 <= j < before.len() && before[j] == x;
                                        assert(into@[j] == x);
                                    }
                                    if x == *var {
                                        assert(into@[before.len() as int] == x);
                                    }
                                }
                                if before.no_duplicates() {
                                    assert forall|i: int, j: int|
                                        0 <= i < into@.len() && 0 <= j < into@.len() && i != j
                                            implies into@[i] != into@[j] by {
                                        if i == before.len() {
                                            assert(before[j] == into@[j]);
                                        } else if j == before.len() {
                                            assert(before[i] == into@[i]);
                                        }
                                    }
                                }
                            }
                        }
                    },
                }
            },
            Type::Named { name, arguments } => {
                proof {
                    lemma_views_of(arguments@);
                    lemma_followed_among(entries, rank, none, false, views_of(arguments@), arguments@.len() as int);
                    lemma_mentions_among(
                        followed_among(entries, rank, none, false, views_of(arguments@), arguments@.len() as int),
                        arguments@.len() as int,
                        TypeVar(0),
                    );
                }
                self.each_unsettled(arguments, into, Ghost(of@));
                proof {
                    let after = followed_among(entries, rank, none, false, views_of(arguments@), arguments@.len() as int);
                    lemma_solved_occurrences(entries, rank, views_of(arguments@), after, arguments@.len() as int);
                    assert forall|x: TypeVar|
                        mentions(self.spec_solved(of@), x) <==> exists|k: int|
                            0 <= k < arguments@.len() && #[trigger] mentions(
                                self.spec_solved(arguments@[k]@),
                                x,
                            ) by {
                        lemma_mentions_among(after, arguments@.len() as int, x);
                        if mentions(self.spec_solved(of@), x) {
                            let k = choose|k: int| 0 <= k < arguments@.len() && #[trigger] mentions(after[k], x);
                            assert(mentions(self.spec_solved(arguments@[k]@), x));
                        }
                        if exists|k: int|
                            0 <= k < arguments@.len() && #[trigger] mentions(
                                self.spec_solved(arguments@[k]@),
                                x,
                            ) {
                            let k = choose|k: int|
                                0 <= k < arguments@.len() && #[trigger] mentions(
                                    self.spec_solved(arguments@[k]@),
                                    x,
                                );
                            assert(mentions(after[k], x));
                        }
                    }
                }
            },
            Type::Function { parameters, result } => {
                proof {
                    lemma_views_of(parameters@);
                    lemma_followed_among(entries, rank, none, false, views_of(parameters@), parameters@.len() as int);
                    assert(decreases_to!(of@ => of@->Function_1));
                }
                let ghost before = into@;
                self.each_unsettled(parameters, into, Ghost(of@));
                let ghost between = into@;
                self.unsettled(result, into);
                proof {
                    lemma_kept_before(into@, between, before);
                    let parameters_after = followed_among(entries, rank, none, false, views_of(parameters@), parameters@.len() as int);
                    lemma_solved_occurrences(entries, rank, views_of(parameters@), parameters_after, parameters@.len() as int);
                    lemma_gathered(
                        before,
                        solved_occurrences(entries, rank, views_of(parameters@), parameters@.len() as int),
                        occurrences(self.spec_solved(result@)),
                    );
                    let after = followed_among(entries, rank, none, false, views_of(parameters@), parameters@.len() as int);
                    assert forall|x: TypeVar|
                        #![trigger into@.contains(x)]
                        into@.contains(x) <==> (before.contains(x) || mentions(
                            self.spec_solved(of@),
                            x,
                        )) by {
                        lemma_mentions_among(after, parameters@.len() as int, x);
                        if mentions_among(after, parameters@.len() as int, x) {
                            let k = choose|k: int| 0 <= k < parameters@.len() && #[trigger] mentions(after[k], x);
                            assert(mentions(self.spec_solved(parameters@[k]@), x));
                        }
                        if exists|k: int|
                            0 <= k < parameters@.len() && #[trigger] mentions(
                                self.spec_solved(parameters@[k]@),
                                x,
                            ) {
                            let k = choose|k: int|
                                0 <= k < parameters@.len() && #[trigger] mentions(
                                    self.spec_solved(parameters@[k]@),
                                    x,
                                );
                            assert(mentions(after[k], x));
                        }
                        assert(between.contains(x) ==> into@.contains(x));
                    }
                }
            },
            _ => {},
        }
    }

    /// The variables each of `types` still holds, where they are the arguments of `whole_type`.
    fn each_unsettled(&self, types: &Vec<Type>, into: &mut Vec<TypeVar>, whole_type: Ghost<TypeView>)
        requires
            self.well_formed(),
            whole_type@ matches TypeView::Named(_, arguments) ==> arguments == views_of(types@),
            whole_type@ matches TypeView::Function(parameters, _) ==> parameters == views_of(types@),
            whole_type@ is Named || whole_type@ is Function,
        ensures
            forall|x: TypeVar|
                #![trigger final(into)@.contains(x)]
                final(into)@.contains(x) <==> (old(into)@.contains(x) || exists|k: int|
                    0 <= k < types@.len() && #[trigger] mentions(self.spec_solved(types@[k]@), x)),
            old(into)@.no_duplicates() ==> final(into)@.no_duplicates(),
            kept_before(final(into)@, old(into)@),
            final(into)@ == gathered(
                old(into)@,
                solved_occurrences(self.entries(), self.rank(), views_of(types@), types@.len() as int),
            ),
        decreases height(self.entries(), self.rank(), whole_type@), whole_type@, 1int,
    {
        let ghost entries = self.entries();
        let ghost rank = self.rank();
        let ghost start = into@;
        proof {
            assert(into@.take(into@.len() as int) =~= into@);
            assert(solved_occurrences(entries, rank, views_of(types@), 0) =~= Seq::<TypeVar>::empty());
        }
        let mut i: usize = 0;
        while i < types.len()
            invariant
                i <= types@.len(),
                self.well_formed(),
                entries == self.entries(),
                rank == self.rank(),
                whole_type@ matches TypeView::Named(_, arguments) ==> arguments == views_of(types@),
                whole_type@ matches TypeView::Function(parameters, _) ==> parameters == views_of(types@),
                whole_type@ is Named || whole_type@ is Function,
                forall|x: TypeVar|
                    #![trigger into@.contains(x)]
                    into@.contains(x) <==> (start.contains(x) || exists|k: int|
                        0 <= k < i && #[trigger] mentions(self.spec_solved(types@[k]@), x)),
                start.no_duplicates() ==> into@.no_duplicates(),
                kept_before(into@, start),
                into@ == gathered(start, solved_occurrences(entries, rank, views_of(types@), i as int)),
            decreases types.len() - i,
        {
            proof {
                lemma_views_of(types@);
                lemma_height_among(entries, rank, views_of(types@), types@.len() as int, i as int);
                match whole_type@ {
                    TypeView::Named(_, arguments) => {
                        assert(decreases_to!(whole_type@ => arguments));
                        assert(decreases_to!(arguments => arguments[i as int]));
                    },
                    TypeView::Function(parameters, result) => {
                        assert(decreases_to!(whole_type@ => parameters));
                        assert(decreases_to!(parameters => parameters[i as int]));
                    },
                    _ => {},
                }
            }
            let ghost before = into@;
            self.unsettled(&types[i], into);
            proof {
                lemma_kept_before(into@, before, start);
                lemma_gathered(
                    start,
                    solved_occurrences(entries, rank, views_of(types@), i as int),
                    occurrences(self.spec_solved(types@[i as int]@)),
                );
                assert(views_of(types@)[i as int] == types@[i as int]@);
                assert forall|x: TypeVar|
                    #![trigger into@.contains(x)]
                    into@.contains(x) <==> (start.contains(x) || exists|k: int|
                        0 <= k < i + 1 && #[trigger] mentions(self.spec_solved(types@[k]@), x)) by {
                    if exists|k: int|
                        0 <= k < i + 1 && #[trigger] mentions(self.spec_solved(types@[k]@), x) {
                        let k = choose|k: int|
                            0 <= k < i + 1 && #[trigger] mentions(self.spec_solved(types@[k]@), x);
                        if k < i {
                            assert(before.contains(x));
                        }
                    }
                    if before.contains(x) {
                        if !start.contains(x) {
                            let k = choose|k: int|
                                0 <= k < i && #[trigger] mentions(self.spec_solved(types@[k]@), x);
                            assert(0 <= k < i + 1 && mentions(self.spec_solved(types@[k]@), x));
                        }
                    }
                }
            }
            i = i + 1;
        }
    }

    /// Settles `var` on `to`, which the occurs check has already cleared.
    ///
    /// Every settled variable that reaches `var` now stands above everything it stood above and
    /// above `var` too, so following variables still comes to an end.
    pub fn settle(&mut self, var: TypeVar, to: Type)
        requires
            old(self).well_formed(),
            !is_key(old(self).entries(), var),
            !mentions(old(self).spec_solved(to@), var),
            var.0 < old(self).made(),
            old(self).holds_made(to@),
        ensures
            final(self).well_formed(),
            final(self).entries() == old(self).entries().push((var, to@)),
            final(self).whole() == old(self).whole(),
            final(self).written() == old(self).written(),
            final(self).made() == old(self).made(),
    {
        let ghost entries = self.entries();
        let ghost rank = self.rank@;
        let ghost top = self.top@;
        let ghost reaches = |x: TypeVar| is_key(entries, x) && mentions(
            solved(entries, rank, TypeView::Var(x)),
            var,
        );
        let ghost raised = |x: TypeVar|
            if x == var {
                top + 1
            } else if reaches(x) {
                rank(x) + top + 2
            } else {
                rank(x)
            };
        let ghost to_view = to@;
        self.settled.push((var, to));
        self.rank = Ghost(raised);
        self.top = Ghost(2 * top + 2);
        proof {
            let grown = entries.push((var, to_view));
            assert(self.entries() =~= grown);
            assert forall|x: TypeVar| #[trigger] is_key(grown, x) <==> (is_key(entries, x) || x
                == var) by {
                if is_key(grown, x) {
                    let k = choose|k: int| 0 <= k < grown.len() && grown[k].0 == x;
                    if k < entries.len() {
                        assert(entries[k].0 == x);
                    }
                }
                if is_key(entries, x) {
                    let k = choose|k: int| 0 <= k < entries.len() && entries[k].0 == x;
                    assert(grown[k].0 == x);
                }
                if x == var {
                    assert(grown[entries.len() as int].0 == x);
                }
            }
            assert forall|i: int, j: int|
                0 <= i < grown.len() && 0 <= j < grown.len() && i != j implies grown[i].0
                != grown[j].0 by {
                if i == entries.len() {
                    assert(is_key(entries, grown[j].0));
                } else if j == entries.len() {
                    assert(is_key(entries, grown[i].0));
                }
            }
            assert forall|k: int, x: TypeVar|
                0 <= k < grown.len() && mentions(grown[k].1, x) && is_key(grown, x) implies raised(x)
                < raised(grown[k].0) by {
                if k == entries.len() {
                    if x == var {
                        lemma_unsettled_stays(entries, rank, to_view, var);
                    }
                    if reaches(x) {
                        lemma_reach(entries, rank, to_view, x, var);
                    }
                    let i = choose|i: int| 0 <= i < entries.len() && entries[i].0 == x;
                    assert(rank(entries[i].0) <= top);
                } else {
                    let y = entries[k].0;
                    lemma_index_of(entries, k);
                    assert(solved(entries, rank, TypeView::Var(y)) == solved(entries, rank, entries[k].1));
                    if x == var {
                        lemma_unsettled_stays(entries, rank, entries[k].1, var);
                        assert(reaches(y));
                    } else {
                        assert(is_key(entries, x));
                        assert(rank(x) < rank(y));
                        if reaches(x) {
                            lemma_reach(entries, rank, entries[k].1, x, var);
                            assert(reaches(y));
                        }
                    }
                }
            }
            assert forall|k: int| 0 <= k < grown.len() implies #[trigger] raised(grown[k].0) <= 2 * top + 2 by {
                if k < entries.len() {
                    assert(rank(entries[k].0) <= top);
                }
            }
            assert forall|k: int, x: TypeVar|
                0 <= k < grown.len() && #[trigger] mentions(grown[k].1, x) implies x.0 < self.made by {
                if k < entries.len() {
                    assert(mentions(entries[k].1, x));
                }
            }
        }
    }

    /// A well-formed table settles each variable once, and following its variables comes to an
    /// end.
    pub proof fn lemma_well_formed(&self)
        requires
            self.well_formed(),
        ensures
            keys_unique(self.entries()),
            ranked(self.entries(), self.rank()),
    {
    }

    /// A table settles no more variables than it has made.
    pub proof fn lemma_count(&self)
        requires
            self.well_formed(),
        ensures
            self.entries().len() <= self.made(),
    {
        let entries = self.entries();
        let keys = entries.map_values(|entry: (TypeVar, TypeView)| entry.0.0 as int);
        assert(keys.no_duplicates()) by {
            assert forall|i: int, j: int| 0 <= i < keys.len() && 0 <= j < keys.len() && i != j
                implies keys[i] != keys[j] by {
                assert(entries[i].0 != entries[j].0);
            }
        }
        keys.unique_seq_to_set();
        vstd::set_lib::lemma_int_range(0, self.made() as int);
        assert(keys.to_set().subset_of(vstd::set_lib::set_int_range(0, self.made() as int))) by {
            assert forall|x: int| keys.to_set().contains(x) implies vstd::set_lib::set_int_range(
                0,
                self.made() as int,
            ).contains(x) by {
                let i = choose|i: int| 0 <= i < keys.len() && keys[i] == x;
                assert(entries[i].0.0 < self.made);
            }
        }
        vstd::set_lib::lemma_len_subset(
            keys.to_set(),
            vstd::set_lib::set_int_range(0, self.made() as int),
        );
    }

    /// Following the outermost variable of a type the table made leaves a type the table made.
    pub proof fn lemma_made_outer(&self, t: TypeView)
        requires
            self.well_formed(),
            self.holds_made(t),
        ensures
            self.holds_made(outer(self.entries(), self.rank(), t)),
        decreases height(self.entries(), self.rank(), t),
    {
        let entries = self.entries();
        let rank = self.rank();
        match t {
            TypeView::Var(v) => if is_key(entries, v) {
                lemma_body_height(entries, rank, v);
                let k = index_of(entries, v);
                assert forall|x: TypeVar| mentions(entries[k].1, x) implies x.0 < self.made() by {}
                self.lemma_made_outer(entries[k].1);
            },
            _ => {},
        }
    }

    /// The next variable there is, which no other place in the program has.
    fn made_up(&mut self) -> (var: TypeVar)
        requires
            old(self).well_formed(),
            old(self).made() < u32::MAX,
        ensures
            final(self).well_formed(),
            var == TypeVar(old(self).made() as u32),
            final(self).made() == old(self).made() + 1,
            final(self).entries() == old(self).entries(),
            final(self).rank() == old(self).rank(),
            final(self).whole() == old(self).whole(),
            final(self).written() == old(self).written(),
    {
        let var = TypeVar(self.made);
        self.made = self.made + 1;
        var
    }
}

/// Whether `vars` holds `var`.
pub fn holds_var(vars: &Vec<TypeVar>, var: TypeVar) -> (found: bool)
    ensures
        found == vars@.contains(var),
{
    let mut i: usize = 0;
    while i < vars.len()
        invariant
            i <= vars@.len(),
            forall|j: int| 0 <= j < i ==> vars@[j] != var,
        decreases vars.len() - i,
    {
        if vars[i] == var {
            return true;
        }
        i = i + 1;
    }
    false
}

} // verus!
