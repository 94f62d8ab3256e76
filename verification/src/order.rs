//! Where a declaration belongs, which is below what uses it.
//!
//! A file reads top down: the reader meets the intent before the detail, so a declaration is
//! written below what uses it and a helper below the thing it helps. Two declarations that use
//! each other are written either way, because no order undoes a cycle: a use is out of order only
//! when what it uses cannot reach back to it.
use vstd::prelude::*;
use vstd::string::*;

use crate::ast::{Item, Name, Program, Span};
use crate::definition::{Definition, Definitions, Namespace, Origin};
use crate::error::{ResolveError, ResolveErrorKind};
use crate::prelude::first_where;

verus! {

/// One declaration of a module: the name a refusal points at, how a refusal speaks of it, and
/// how far it reaches in the source.
pub struct Declared {
    pub name: Name,
    pub written: String,
    pub extent: Span,
}

/// A declaration as the specifications read it.
pub type DeclaredView = (Name, Seq<char>, Span);

/// Names joined with a comma and a space between each two.
pub open spec fn joined(names: Seq<Seq<char>>) -> Seq<char>
    decreases names.len(),
{
    if names.len() == 0 {
        Seq::empty()
    } else if names.len() == 1 {
        names[0]
    } else {
        joined(names.drop_last()) + ", "@ + names.last()
    }
}

/// The declaration `item` is, when it is one: every item but an import.
pub open spec fn declared_by(item: Item) -> Option<DeclaredView> {
    match item {
        Item::Import(_) => None,
        Item::Type(declaration) => Some(
            (declaration.name, declaration.name.text@, declaration.span),
        ),
        Item::Trait(declaration) => Some(
            (declaration.name, declaration.name.text@, declaration.span),
        ),
        Item::Instance(declaration) => Some(
            (
                declaration.trait_name,
                declaration.trait_name.text@ + "<"@ + declaration.for_type.text@ + ">"@,
                declaration.span,
            ),
        ),
        Item::Derive(declaration) => Some(
            (
                declaration.for_type,
                "derive "@ + joined(declaration.traits@.map_values(|one: Name| one.text@))
                    + " for "@ + declaration.for_type.text@,
                declaration.span,
            ),
        ),
        Item::Function(function) => Some((function.name, function.name.text@, function.span)),
    }
}

/// Every declaration of a module in source order.
pub open spec fn declarations_of(items: Seq<Item>) -> Seq<DeclaredView>
    decreases items.len(),
{
    if items.len() == 0 {
        Seq::empty()
    } else {
        let rest = declarations_of(items.drop_last());
        match declared_by(items.last()) {
            Some(one) => rest.push(one),
            None => rest,
        }
    }
}

/// A declaration as the specifications read it.
pub open spec fn declared_view(declared: Declared) -> DeclaredView {
    (declared.name, declared.written@, declared.extent)
}

/// The declarations as the specifications read them.
pub open spec fn declared_views(declared: Seq<Declared>) -> Seq<DeclaredView> {
    declared.map_values(|one: Declared| declared_view(one))
}

/// Whether a declaration's extent holds the byte at `at`.
pub open spec fn holds_byte(at: usize) -> spec_fn(DeclaredView) -> bool {
    |declared: DeclaredView| declared.2.spec_contains(at)
}

/// Which declaration the byte at `at` is inside, when it is inside one at all.
#[verifier::opaque]
pub open spec fn spec_holding(declared: Seq<DeclaredView>, at: usize) -> Option<int> {
    first_where(declared, holds_byte(at))
}

/// The use one recorded definition makes: the declaration it means, and the one it is written
/// in, when they are two declarations of this module.
pub open spec fn use_of(
    declared: Seq<DeclaredView>,
    written: Span,
    definition: Definition,
) -> Option<(int, int)> {
    match definition.origin {
        Origin::Declared(at) => match (
            spec_holding(declared, written.start),
            spec_holding(declared, at.start),
        ) {
            (Some(writes), Some(meant)) => if writes != meant {
                Some((meant, writes))
            } else {
                None
            },
            _ => None,
        },
        Origin::Prelude => None,
    }
}

/// Which declaration uses which, as `(meant, writes)` pairs.
pub open spec fn uses_of(
    declared: Seq<DeclaredView>,
    definitions: Map<(Namespace, Span), Definition>,
) -> Set<(int, int)> {
    Set::new(
        |pair: (int, int)|
            exists|key: (Namespace, Span)|
                #![trigger definitions[key]]
                definitions.contains_key(key) && use_of(declared, key.1, definitions[key])
                    == Some(pair),
    )
}

/// Whether each step of `path` goes from a declaration to one it uses.
pub open spec fn is_path(uses: Set<(int, int)>, path: Seq<int>) -> bool {
    forall|i: int| 0 <= i < path.len() - 1 ==> #[trigger] uses.contains((path[i + 1], path[i]))
}

/// Whether `from` uses `to`, however many declarations it takes to get there.
pub open spec fn reaches_by(uses: Set<(int, int)>, from: int, to: int) -> bool {
    exists|path: Seq<int>|
        path.len() >= 2 && path[0] == from && path.last() == to && #[trigger] is_path(uses, path)
}

/// Whether `pair` orders the two declarations the wrong way round: what is used is written
/// above what uses it, and cannot reach back to it.
pub open spec fn misplaced(uses: Set<(int, int)>, pair: (int, int)) -> bool {
    &&& uses.contains(pair)
    &&& pair.0 <= pair.1
    &&& !reaches_by(uses, pair.0, pair.1)
}

/// Pairs in the order of their first element, then their second.
pub open spec fn before(one: (int, int), other: (int, int)) -> bool {
    one.0 < other.0 || (one.0 == other.0 && one.1 < other.1)
}

/// Whether `pairs` runs strictly upwards.
pub open spec fn sorted(pairs: Seq<(usize, usize)>) -> bool {
    forall|i: int, j: int|
        0 <= i < j < pairs.len() ==> before(
            (pairs[i].0 as int, pairs[i].1 as int),
            (pairs[j].0 as int, pairs[j].1 as int),
        )
}

/// The pairs a sequence holds, as a set of whole numbers.
pub open spec fn pair_set(pairs: Seq<(usize, usize)>) -> Set<(int, int)> {
    Set::new(
        |pair: (int, int)|
            exists|i: int|
                #![trigger pairs[i]]
                0 <= i < pairs.len() && pairs[i].0 as int == pair.0 && pairs[i].1 as int == pair.1,
    )
}

/// Whether `one` comes before `other` in the order of first elements, then second.
fn precedes(one: (usize, usize), other: (usize, usize)) -> (earlier: bool)
    ensures
        earlier == before((one.0 as int, one.1 as int), (other.0 as int, other.1 as int)),
{
    one.0 < other.0 || (one.0 == other.0 && one.1 < other.1)
}

/// Every declaration of `program` in source order, which is every item but an import.
///
/// An import declares nothing this rule places: imports come first and sorted, which settles
/// where they go without asking what uses them.
pub fn declarations(program: &Program) -> (declared: Vec<Declared>)
    ensures
        declared_views(declared@) == declarations_of(program.items@),
{
    let mut declared: Vec<Declared> = Vec::new();
    let mut i: usize = 0;
    while i < program.items.len()
        invariant
            i <= program.items@.len(),
            declared_views(declared@) == declarations_of(program.items@.take(i as int)),
        decreases program.items.len() - i,
    {
        assert(program.items@.take(i + 1).drop_last() =~= program.items@.take(i as int));
        assert(program.items@.take(i + 1).last() == program.items@[i as int]);
        let ghost before = declared@;
        let item = &program.items[i];
        let one: Option<Declared> = match item {
            Item::Import(_) => None,
            Item::Type(declaration) => Some(named(&declaration.name, declaration.span)),
            Item::Trait(declaration) => Some(named(&declaration.name, declaration.span)),
            Item::Instance(declaration) => {
                let mut written = declaration.trait_name.text.clone();
                written.append("<");
                written.append(declaration.for_type.text.as_str());
                written.append(">");
                Some(
                    Declared {
                        name: declaration.trait_name.copied(),
                        written,
                        extent: declaration.span,
                    },
                )
            },
            Item::Derive(declaration) => {
                let mut written = String::from_str("derive ");
                let listed = joined_names(&declaration.traits);
                written.append(listed.as_str());
                written.append(" for ");
                written.append(declaration.for_type.text.as_str());
                Some(
                    Declared {
                        name: declaration.for_type.copied(),
                        written,
                        extent: declaration.span,
                    },
                )
            },
            Item::Function(function) => Some(named(&function.name, function.span)),
        };
        match one {
            Some(one) => {
                assert(declared_by(*item) == Some(declared_view(one)));
                declared.push(one);
                assert(declared_views(declared@) =~= declared_views(before).push(
                    declared_view(one),
                ));
            },
            None => {
                assert(declared_by(*item) is None);
            },
        }
        i = i + 1;
    }
    assert(program.items@.take(program.items.len() as int) =~= program.items@);
    declared
}

/// The names of `names`, joined with a comma and a space between each two.
fn joined_names(names: &Vec<Name>) -> (listed: String)
    ensures
        listed@ == joined(names@.map_values(|one: Name| one.text@)),
{
    let ghost texts = names@.map_values(|one: Name| one.text@);
    let mut listed = String::from_str("");
    proof {
        reveal_strlit("");
    }
    let mut i: usize = 0;
    while i < names.len()
        invariant
            i <= names@.len(),
            texts == names@.map_values(|one: Name| one.text@),
            listed@ == joined(texts.take(i as int)),
        decreases names.len() - i,
    {
        assert(texts.take(i + 1).drop_last() =~= texts.take(i as int));
        assert(texts.take(i + 1).last() == names@[i as int].text@);
        if i > 0 {
            listed.append(", ");
        } else {
            assert(texts.take(0) =~= Seq::<Seq<char>>::empty());
            assert(listed@ =~= Seq::<char>::empty());
        }
        listed.append(names[i].text.as_str());
        proof {
            if i == 0 {
                assert(listed@ =~= texts.take(1)[0]);
            }
        }
        i = i + 1;
    }
    assert(texts.take(names.len() as int) =~= texts);
    listed
}

/// A declaration a refusal speaks of by the one name it declares.
fn named(name: &Name, extent: Span) -> (declared: Declared)
    ensures
        declared_view(declared) == (*name, name.text@, extent),
{
    Declared { name: name.copied(), written: name.text.clone(), extent }
}

/// Which declaration the byte at `at` is inside, when it is inside one at all.
fn holding(declared: &Vec<Declared>, at: usize) -> (found: Option<usize>)
    ensures
        match found {
            Some(i) => spec_holding(declared_views(declared@), at) == Some(i as int),
            None => spec_holding(declared_views(declared@), at) is None,
        },
        found matches Some(i) ==> i < declared@.len(),
{
    let ghost views = declared_views(declared@);
    let mut i: usize = 0;
    while i < declared.len()
        invariant
            i <= declared@.len(),
            views == declared_views(declared@),
            views.len() == declared@.len(),
            forall|j: int| 0 <= j < i ==> !holds_byte(at)(views[j]),
        decreases declared.len() - i,
    {
        assert(views[i as int] == declared_view(declared@[i as int]));
        if declared[i].extent.contains(at) {
            proof {
                crate::prelude::lemma_first_where(views, holds_byte(at), i as int);
                reveal(spec_holding);
            }
            return Some(i);
        }
        i = i + 1;
    }
    proof {
        reveal(spec_holding);
    }
    None
}

/// `pairs` with `pair` in its place among them, where it is not among them already.
fn insert_sorted(pairs: &mut Vec<(usize, usize)>, pair: (usize, usize))
    requires
        sorted(old(pairs)@),
    ensures
        sorted(final(pairs)@),
        pair_set(final(pairs)@) == pair_set(old(pairs)@).insert((pair.0 as int, pair.1 as int)),
        forall|k: int|
            0 <= k < final(pairs)@.len() ==> #[trigger] final(pairs)@[k] == pair || old(
                pairs,
            )@.contains(final(pairs)@[k]),
{
    let ghost wanted = (pair.0 as int, pair.1 as int);
    let mut i: usize = 0;
    let mut going = i < pairs.len() && precedes(pairs[i], pair);
    while going
        invariant
            wanted == (pair.0 as int, pair.1 as int),
            going ==> i < pairs@.len() && before(
                (pairs@[i as int].0 as int, pairs@[i as int].1 as int),
                wanted,
            ),
            !going ==> (i == pairs@.len() || !before(
                (pairs@[i as int].0 as int, pairs@[i as int].1 as int),
                wanted,
            )),
            i <= pairs@.len(),
            pairs@ == old(pairs)@,
            sorted(pairs@),
            forall|j: int|
                0 <= j < i ==> before((pairs@[j].0 as int, pairs@[j].1 as int), wanted),
        decreases pairs.len() - i,
    {
        i = i + 1;
        going = i < pairs.len() && precedes(pairs[i], pair);
    }
    if i < pairs.len() && pairs[i].0 == pair.0 && pairs[i].1 == pair.1 {
        assert(pair_set(pairs@) =~= pair_set(old(pairs)@).insert(wanted)) by {
            assert(pairs@[i as int].0 as int == wanted.0 && pairs@[i as int].1 as int == wanted.1);
        }
        return;
    }
    let ghost old_pairs = pairs@;
    assert(i < old_pairs.len() ==> before(wanted, (old_pairs[i as int].0 as int, old_pairs[i as int].1 as int)));
    pairs.insert(i, pair);
    proof {
        let new_pairs = pairs@;
        assert(new_pairs == old_pairs.insert(i as int, pair));
        assert forall|a: int, b: int| 0 <= a < b < new_pairs.len() implies before(
            (new_pairs[a].0 as int, new_pairs[a].1 as int),
            (new_pairs[b].0 as int, new_pairs[b].1 as int),
        ) by {
            if b < i {
                assert(new_pairs[a] == old_pairs[a] && new_pairs[b] == old_pairs[b]);
            } else if b == i {
                assert(new_pairs[a] == old_pairs[a]);
            } else if a == i {
                assert(new_pairs[b] == old_pairs[b - 1]);
                if b - 1 > i {
                    assert(before(
                        (old_pairs[i as int].0 as int, old_pairs[i as int].1 as int),
                        (old_pairs[b - 1].0 as int, old_pairs[b - 1].1 as int),
                    ));
                }
            } else if a < i {
                assert(new_pairs[a] == old_pairs[a] && new_pairs[b] == old_pairs[b - 1]);
            } else {
                assert(new_pairs[a] == old_pairs[a - 1] && new_pairs[b] == old_pairs[b - 1]);
            }
        }
        assert(pair_set(new_pairs) =~= pair_set(old_pairs).insert(wanted)) by {
            assert forall|p: (int, int)| #[trigger] pair_set(new_pairs).contains(p) implies pair_set(
                old_pairs,
            ).insert(wanted).contains(p) by {
                let k = choose|k: int|
                    #![trigger new_pairs[k]]
                    0 <= k < new_pairs.len() && new_pairs[k].0 as int == p.0 && new_pairs[k].1 as int
                        == p.1;
                if k < i {
                    assert(old_pairs[k] == new_pairs[k]);
                } else if k > i {
                    assert(old_pairs[k - 1] == new_pairs[k]);
                }
            }
            assert forall|p: (int, int)| #[trigger] pair_set(old_pairs).insert(wanted).contains(
                p,
            ) implies pair_set(new_pairs).contains(p) by {
                if p == wanted {
                    assert(new_pairs[i as int] == pair);
                } else {
                    let k = choose|k: int|
                        #![trigger old_pairs[k]]
                        0 <= k < old_pairs.len() && old_pairs[k].0 as int == p.0 && old_pairs[k].1 as int
                            == p.1;
                    if k < i {
                        assert(new_pairs[k] == old_pairs[k]);
                    } else {
                        assert(new_pairs[k + 1] == old_pairs[k]);
                    }
                }
            }
        }
        assert forall|k: int| 0 <= k < new_pairs.len() implies #[trigger] new_pairs[k] == pair
            || old_pairs.contains(new_pairs[k]) by {
            if k < i {
                assert(new_pairs[k] == old_pairs[k]);
            } else if k > i {
                assert(new_pairs[k] == old_pairs[k - 1]);
            }
        }
    }
}

/// The uses the first entries of a table of definitions make.
pub open spec fn uses_in(
    declared: Seq<DeclaredView>,
    entries: Seq<(Namespace, Span, Definition)>,
) -> Set<(int, int)> {
    Set::new(
        |pair: (int, int)|
            exists|k: int|
                #![trigger entries[k]]
                0 <= k < entries.len() && use_of(declared, entries[k].1, entries[k].2) == Some(pair),
    )
}

/// One more entry adds the use it makes, where it makes one.
proof fn lemma_uses_in_step(
    views: Seq<DeclaredView>,
    entries: Seq<(Namespace, Span, Definition)>,
    i: int,
)
    requires
        0 <= i < entries.len(),
    ensures
        uses_in(views, entries.take(i + 1)) == match use_of(views, entries[i].1, entries[i].2) {
            Some(pair) => uses_in(views, entries.take(i)).insert(pair),
            None => uses_in(views, entries.take(i)),
        },
{
    let now = entries.take(i + 1);
    let was = entries.take(i);
    let target = match use_of(views, entries[i].1, entries[i].2) {
        Some(pair) => uses_in(views, was).insert(pair),
        None => uses_in(views, was),
    };
    assert(uses_in(views, now) =~= target) by {
        assert forall|p: (int, int)| #[trigger] uses_in(views, now).contains(p) implies target.contains(
            p,
        ) by {
            let k = choose|k: int|
                #![trigger now[k]]
                0 <= k < now.len() && use_of(views, now[k].1, now[k].2) == Some(p);
            if k < i {
                assert(was[k] == now[k]);
            }
        }
        assert forall|p: (int, int)| #[trigger] target.contains(p) implies uses_in(
            views,
            now,
        ).contains(p) by {
            if uses_in(views, was).contains(p) {
                let k = choose|k: int|
                    #![trigger was[k]]
                    0 <= k < was.len() && use_of(views, was[k].1, was[k].2) == Some(p);
                assert(now[k] == was[k]);
            } else {
                assert(now[i] == entries[i]);
            }
        }
    }
}

/// Which declaration uses which, as `(meant, writes)` pairs in order, each pair once.
///
/// They come out of a table whose order is nobody's, so they are sorted: the refusal a run
/// reports has to be the same one every run reports.
fn uses(declared: &Vec<Declared>, definitions: &Definitions) -> (found: Vec<(usize, usize)>)
    requires
        definitions.well_formed(),
    ensures
        sorted(found@),
        pair_set(found@) == uses_of(declared_views(declared@), definitions@),
        forall|k: int|
            #![trigger found@[k]]
            0 <= k < found@.len() ==> (found@[k].0 < declared@.len() && found@[k].1
                < declared@.len()),
{
    let ghost views = declared_views(declared@);
    let ghost entries = definitions.entries();
    let mut found: Vec<(usize, usize)> = Vec::new();
    let mut i: usize = 0;
    while i < definitions.len()
        invariant
            i <= entries.len(),
            entries == definitions.entries(),
            views == declared_views(declared@),
            views.len() == declared@.len(),
            sorted(found@),
            pair_set(found@) == uses_in(views, entries.take(i as int)),
            forall|k: int|
                0 <= k < found@.len() ==> #[trigger] found@[k].0 < declared@.len() && found@[k].1
                    < declared@.len(),
        decreases entries.len() - i,
    {
        let (_, written, definition) = definitions.entry(i);
        let ghost before_found = found@;
        let mut made: Option<(usize, usize)> = None;
        if let Origin::Declared(at) = definition.origin {
            let writes = holding(declared, written.start);
            let meant = holding(declared, at.start);
            if let (Some(writes), Some(meant)) = (writes, meant) {
                if writes != meant {
                    made = Some((meant, writes));
                }
            }
        }
        proof {
            match made {
                Some(pair) => {
                    assert(use_of(views, written, definition) == Some((pair.0 as int, pair.1 as int)));
                    assert(pair.0 < declared@.len() && pair.1 < declared@.len());
                },
                None => {
                    assert(use_of(views, written, definition) is None);
                },
            }
        }
        match made {
            Some(pair) => insert_sorted(&mut found, pair),
            None => {},
        }
        proof {
            lemma_uses_in_step(views, entries, i as int);
            assert forall|k: int| 0 <= k < found@.len() implies #[trigger] found@[k].0
                < declared@.len() && found@[k].1 < declared@.len() by {
                if !(made is Some && found@[k] == made->0) {
                    let j = choose|j: int| 0 <= j < before_found.len() && before_found[j] == found@[k];
                    assert(before_found[j].0 < declared@.len());
                }
            }
        }
        i = i + 1;
    }
    proof {
        assert(entries.take(entries.len() as int) =~= entries);
        definitions.lemma_entries();
        assert(uses_in(views, entries) =~= uses_of(views, definitions@)) by {
            assert forall|p: (int, int)| #[trigger] uses_in(views, entries).contains(p) implies uses_of(
                views,
                definitions@,
            ).contains(p) by {
                let k = choose|k: int|
                    #![trigger entries[k]]
                    0 <= k < entries.len() && use_of(views, entries[k].1, entries[k].2) == Some(p);
                let key = (entries[k].0, entries[k].1);
                assert(definitions@.contains_key(key));
                assert(definitions@[key] == entries[k].2);
            }
            assert forall|p: (int, int)| #[trigger] uses_of(views, definitions@).contains(
                p,
            ) implies uses_in(views, entries).contains(p) by {
                let key = choose|key: (Namespace, Span)|
                    #![trigger definitions@[key]]
                    definitions@.contains_key(key) && use_of(views, key.1, definitions@[key]) == Some(
                        p,
                    );
                let k = choose|k: int|
                    0 <= k < entries.len() && (entries[k].0, entries[k].1) == key;
                assert(definitions@[key] == entries[k].2);
                assert(use_of(views, entries[k].1, entries[k].2) == Some(p));
            }
        }
    }
    assert(forall|k: int|
        #![trigger found@[k]]
        0 <= k < found@.len() ==> (found@[k].0 < declared@.len() && found@[k].1
            < declared@.len()));
    found
}

/// How many of `seen` are still false.
pub open spec fn count_unseen(seen: Seq<bool>) -> nat
    decreases seen.len(),
{
    if seen.len() == 0 {
        0
    } else {
        count_unseen(seen.drop_last()) + if seen.last() {
            0nat
        } else {
            1nat
        }
    }
}

/// Seeing one more lowers the count of the unseen by one.
proof fn lemma_count_unseen(seen: Seq<bool>, i: int)
    requires
        0 <= i < seen.len(),
        !seen[i],
    ensures
        count_unseen(seen.update(i, true)) + 1 == count_unseen(seen),
    decreases seen.len(),
{
    let updated = seen.update(i, true);
    if i == seen.len() - 1 {
        assert(updated.drop_last() =~= seen.drop_last());
    } else {
        assert(updated.drop_last() =~= seen.drop_last().update(i, true));
        lemma_count_unseen(seen.drop_last(), i);
    }
}

/// A path that stays inside a set closed under uses, and starts in it, ends in it.
proof fn lemma_closed_path(uses: Set<(int, int)>, closed: spec_fn(int) -> bool, path: Seq<int>)
    requires
        path.len() >= 1,
        closed(path[0]),
        is_path(uses, path),
        forall|m: int, x: int| closed(x) && #[trigger] uses.contains((m, x)) ==> closed(m),
    ensures
        closed(path.last()),
    decreases path.len(),
{
    if path.len() > 1 {
        let shorter = path.drop_last();
        assert(is_path(uses, shorter)) by {
            assert forall|i: int| 0 <= i < shorter.len() - 1 implies #[trigger] uses.contains(
                (shorter[i + 1], shorter[i]),
            ) by {
                assert(uses.contains((path[i + 1], path[i])));
            }
        }
        lemma_closed_path(uses, closed, shorter);
        let i = path.len() - 2;
        assert(uses.contains((path[i + 1], path[i])));
    }
}

/// A step from what `from` reaches, or from `from` itself, is something `from` reaches.
proof fn lemma_reach_step(uses: Set<(int, int)>, from: int, x: int, m: int)
    requires
        x == from || reaches_by(uses, from, x),
        uses.contains((m, x)),
    ensures
        reaches_by(uses, from, m),
{
    if x == from {
        let path = seq![from, m];
        assert(is_path(uses, path));
    } else {
        let path = choose|path: Seq<int>|
            path.len() >= 2 && path[0] == from && path.last() == x && #[trigger] is_path(uses, path);
        let longer = path.push(m);
        assert(is_path(uses, longer)) by {
            assert forall|i: int| 0 <= i < longer.len() - 1 implies #[trigger] uses.contains(
                (longer[i + 1], longer[i]),
            ) by {
                if i < path.len() - 1 {
                    assert(uses.contains((path[i + 1], path[i])));
                }
            }
        }
    }
}

/// Whether `from` uses `to`, however many declarations it takes to get there.
///
/// Every declaration is numbered below `count`, and so is either end of every use.
fn reaches(uses: &Vec<(usize, usize)>, count: usize, from: usize, to: usize) -> (found: bool)
    requires
        from < count,
        to < count,
        forall|k: int| #![trigger uses@[k]] 0 <= k < uses@.len() ==> uses@[k].0 < count && uses@[k].1 < count,
    ensures
        found == (from != to && reaches_by(pair_set(uses@), from as int, to as int)),
{
    let ghost graph = pair_set(uses@);
    let mut seen: Vec<bool> = Vec::new();
    let mut i: usize = 0;
    while i < count
        invariant
            i <= count,
            seen@.len() == i,
            forall|k: int| 0 <= k < i ==> !seen@[k],
        decreases count - i,
    {
        seen.push(false);
        i = i + 1;
    }
    proof {
        lemma_count_unseen(seen@, from as int);
    }
    seen.set(from, true);
    let mut walking: Vec<usize> = Vec::new();
    walking.push(from);
    assert(walking@[0] == from);
    assert(forall|x: int| 0 <= x < count && #[trigger] seen@[x] ==> x == from);
    loop
        invariant
            from < count,
            to < count,
            graph == pair_set(uses@),
            forall|k: int| #![trigger uses@[k]] 0 <= k < uses@.len() ==> uses@[k].0 < count && uses@[k].1 < count,
            seen@.len() == count,
            seen@[from as int],
            from != to ==> !seen@[to as int],
            forall|x: int| 0 <= x < count && #[trigger] seen@[x] ==> x == from || reaches_by(graph, from as int, x),
            forall|k: int| #![trigger walking@[k]] 0 <= k < walking@.len() ==> walking@[k] < count && seen@[walking@[k] as int],
            forall|m: int, x: int|
                0 <= x < count && seen@[x] && !walking@.contains(x as usize) && #[trigger] graph.contains((m, x))
                    ==> 0 <= m < count && seen@[m],
        decreases count_unseen(seen@), walking@.len(),
    {
        let ghost prepop = walking@;
        let at = match walking.pop() {
            Some(at) => at,
            None => {
                proof {
                    if from != to && reaches_by(graph, from as int, to as int) {
                        let path = choose|path: Seq<int>|
                            path.len() >= 2 && path[0] == from && path.last() == to
                                && #[trigger] is_path(graph, path);
                        let closed = |x: int| 0 <= x < count && seen@[x];
                        assert forall|m: int, x: int| closed(x) && #[trigger] graph.contains((m, x))
                            implies closed(m) by {
                            assert(!walking@.contains(x as usize));
                        }
                        lemma_closed_path(graph, closed, path);
                    }
                }
                return false;
            },
        };
        let ghost before_seen = seen@;
        let ghost before_walking = walking@;
        proof {
            assert(prepop =~= before_walking.push(at));
            assert(seen@[at as int]) by {
                assert(prepop[prepop.len() - 1] == at);
            }
            assert forall|m: int, x: int|
                0 <= x < count && before_seen[x] && x != at && !before_walking.contains(x as usize)
                    && #[trigger] graph.contains((m, x)) implies 0 <= m < count && before_seen[m] by {
                if prepop.contains(x as usize) {
                    let w = choose|w: int| 0 <= w < prepop.len() && prepop[w] == x as usize;
                    if w < before_walking.len() {
                        assert(before_walking[w] == prepop[w]);
                    }
                }
            }
        }
        let mut j: usize = 0;
        while j < uses.len()
            invariant
                from < count,
                to < count,
                at < count,
                before_seen.len() == count,
                before_seen[at as int],
                forall|m: int, x: int|
                    0 <= x < count && before_seen[x] && x != at && !before_walking.contains(x as usize)
                        && #[trigger] graph.contains((m, x)) ==> 0 <= m < count && before_seen[m],
                graph == pair_set(uses@),
                forall|k: int| #![trigger uses@[k]] 0 <= k < uses@.len() ==> uses@[k].0 < count && uses@[k].1 < count,
                seen@.len() == count,
                seen@[from as int],
                from != to ==> !seen@[to as int],
                forall|x: int| 0 <= x < count && #[trigger] seen@[x] ==> x == from || reaches_by(graph, from as int, x),
                forall|x: int| 0 <= x < count && before_seen[x] ==> #[trigger] seen@[x],
                count_unseen(seen@) <= count_unseen(before_seen),
                count_unseen(seen@) == count_unseen(before_seen) ==> walking@ == before_walking,
                walking@.len() >= before_walking.len(),
                forall|k: int| #![trigger walking@[k]] 0 <= k < walking@.len() ==> walking@[k] < count && seen@[walking@[k] as int],
                forall|k: int| 0 <= k < before_walking.len() ==> #[trigger] walking@[k] == before_walking[k],
                forall|k: int| #![trigger uses@[k]] 0 <= k < j ==> uses@[k].1 == at ==> seen@[uses@[k].0 as int],
                forall|x: int| 0 <= x < count && seen@[x] && !before_seen[x] ==> walking@.contains(x as usize),
            decreases uses.len() - j,
        {
            let (meant, writes) = uses[j];
            if writes == at && !seen[meant] {
                proof {
                    assert(graph.contains((meant as int, at as int))) by {
                        assert(uses@[j as int].0 as int == meant as int);
                    }
                    assert(seen@[at as int]);
                    lemma_reach_step(graph, from as int, at as int, meant as int);
                    lemma_count_unseen(seen@, meant as int);
                }
                seen.set(meant, true);
                if meant == to {
                    return true;
                }
                let ghost pushed_from = walking@;
                walking.push(meant);
                proof {
                    assert(walking@[walking@.len() - 1] == meant);
                    assert forall|x: int| 0 <= x < count && seen@[x] && !before_seen[x] implies walking@.contains(x as usize) by {
                        if x != meant as int {
                            let w = choose|w: int| 0 <= w < pushed_from.len() && pushed_from[w] == x as usize;
                            assert(walking@[w] == pushed_from[w]);
                        }
                    }
                }
            }
            j = j + 1;
        }
        proof {
            assert forall|m: int, x: int|
                0 <= x < count && seen@[x] && !walking@.contains(x as usize) && #[trigger] graph.contains((m, x))
                    implies 0 <= m < count && seen@[m] by {
                let k = choose|k: int| #![trigger uses@[k]] 0 <= k < uses@.len() && uses@[k].0 as int == m && uses@[k].1 as int == x;
                if x == at {
                    assert(seen@[uses@[k].0 as int]);
                } else {
                    if !before_seen[x] {
                        assert(walking@.contains(x as usize));
                    }
                    if before_walking.contains(x as usize) {
                        let w = choose|w: int| 0 <= w < before_walking.len() && before_walking[w] == x as usize;
                        assert(walking@[w] == before_walking[w]);
                    }
                    assert(before_seen[m]);
                }
            }
        }
    }
}

/// The first declaration of `program` written above something that uses it and that cannot
/// reach back to it, when one is.
pub open spec fn spec_out_of_order(
    declared: Seq<DeclaredView>,
    definitions: Map<(Namespace, Span), Definition>,
) -> Option<(int, int)> {
    let uses = uses_of(declared, definitions);
    if exists|pair: (int, int)| misplaced(uses, pair) {
        Some(
            choose|pair: (int, int)|
                misplaced(uses, pair) && forall|other: (int, int)|
                    misplaced(uses, other) ==> !before(other, pair),
        )
    } else {
        None
    }
}

/// Where nothing is declared, nothing is written above what uses it.
pub proof fn lemma_nothing_declared(definitions: Map<(Namespace, Span), Definition>)
    ensures
        spec_out_of_order(Seq::empty(), definitions) is None,
{
    reveal(spec_holding);
    let declared = Seq::<DeclaredView>::empty();
    let uses = uses_of(declared, definitions);
    assert forall|pair: (int, int)| !misplaced(uses, pair) by {
        if uses.contains(pair) {
            let key = choose|key: (Namespace, Span)|
                #![trigger definitions[key]]
                definitions.contains_key(key) && use_of(declared, key.1, definitions[key]) == Some(
                    pair,
                );
            assert(spec_holding(declared, key.1.start) is None);
        }
    }
}

/// The first declaration of `program` written above something that uses it, when one is.
///
/// Declarations that use each other are written either way, so a use that can reach back to
/// what it uses is never out of order.
pub fn out_of_order(program: &Program, definitions: &Definitions) -> (found: Option<ResolveError>)
    requires
        definitions.well_formed(),
    ensures
        match spec_out_of_order(declarations_of(program.items@), definitions@) {
            Some(pair) => found matches Some(error) && {
                let declared = declarations_of(program.items@);
                &&& error.span == declared[pair.0].0.span
                &&& error.kind matches ResolveErrorKind::WrittenAbove { declared: above, used_by }
                &&& above@ == declared[pair.0].1
                &&& used_by@ == declared[pair.1].1
            },
            None => found is None,
        },
{
    let declared = declarations(program);
    let ghost views = declared_views(declared@);
    let uses = uses(&declared, definitions);
    let ghost graph = pair_set(uses@);
    let mut i: usize = 0;
    while i < uses.len()
        invariant
            i <= uses@.len(),
            views == declared_views(declared@),
            views == declarations_of(program.items@),
            views.len() == declared@.len(),
            graph == pair_set(uses@),
            graph == uses_of(views, definitions@),
            sorted(uses@),
            forall|k: int| #![trigger uses@[k]] 0 <= k < uses@.len() ==> uses@[k].0 < declared@.len() && uses@[k].1 < declared@.len(),
            forall|k: int|
                #![trigger uses@[k]]
                0 <= k < i ==> !misplaced(graph, (uses@[k].0 as int, uses@[k].1 as int)),
        decreases uses.len() - i,
    {
        let (meant, writes) = uses[i];
        assert(graph.contains((meant as int, writes as int)));
        if writes < meant || reaches(&uses, declared.len(), meant, writes) {
            i = i + 1;
            continue;
        }
        proof {
            let pair = (meant as int, writes as int);
            assert(misplaced(graph, pair));
            assert forall|other: (int, int)| misplaced(graph, other) implies !before(other, pair) by {
                let k = choose|k: int|
                    #![trigger uses@[k]]
                    0 <= k < uses@.len() && uses@[k].0 as int == other.0 && uses@[k].1 as int == other.1;
                if k < i {
                } else if k > i {
                    assert(before(pair, other));
                }
            }
            let chosen = spec_out_of_order(views, definitions@)->0;
            assert(misplaced(graph, chosen) && forall|other: (int, int)|
                misplaced(graph, other) ==> !before(other, chosen));
            assert(!before(chosen, pair) && !before(pair, chosen));
            assert(chosen == pair);
            assert(views[meant as int] == declared_view(declared@[meant as int]));
            assert(views[writes as int] == declared_view(declared@[writes as int]));
        }
        let kind = ResolveErrorKind::written_above(&declared[meant].written, &declared[writes].written);
        return Some(ResolveError::at(&declared[meant].name, kind));
    }
    proof {
        assert forall|pair: (int, int)| !misplaced(graph, pair) by {
            if graph.contains(pair) {
                let k = choose|k: int|
                    #![trigger uses@[k]]
                    0 <= k < uses@.len() && uses@[k].0 as int == pair.0 && uses@[k].1 as int == pair.1;
            }
        }
    }
    None
}

} // verus!
