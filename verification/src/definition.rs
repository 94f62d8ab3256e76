//! What a name points at once it has been resolved.
use vstd::prelude::*;

use crate::ast::Span;

verus! {

/// The definition one occurrence of a name means.
#[derive(Clone, Copy, Debug, PartialEq, Eq, Structural)]
pub struct Definition {
    pub kind: DefinitionKind,
    pub origin: Origin,
}

/// What kind of thing a name was declared as.
#[derive(Clone, Copy, Debug, PartialEq, Eq, Structural)]
pub enum DefinitionKind {
    /// A module brought in by an `import`.
    Module,
    /// A type declared by a `type` item.
    Type,
    /// A trait declared by a `trait` item.
    Trait,
    /// A `<T>` of a function, of a trait, or of a type declaration.
    TypeParameter,
    /// A variant, or the name a record type is built with.
    Constructor,
    /// A function declared by an `fn` item.
    Function,
    /// A method a trait declares.
    TraitMethod,
    /// A parameter of a function.
    Parameter,
    /// A binding made inside a body by `:=`, a `for … in`, or a pattern.
    Local,
    /// A binding made by `var`, which is the one kind an assignment names.
    Variable,
}

/// Where a definition came from.
#[derive(Clone, Copy, Debug, PartialEq, Eq, Structural)]
pub enum Origin {
    /// Declared in this module, at the span of the name that declares it.
    Declared(Span),
    /// In scope in every module without being declared.
    Prelude,
}

/// Which of the two scopes a name was written in; they never mix.
#[derive(Clone, Copy, Debug, PartialEq, Eq, Structural)]
pub enum Namespace {
    /// Searched everywhere a value is written.
    Value,
    /// Searched where a type is written.
    Type,
}

/// Every name that has a definition, keyed by the namespace it was written in and where.
pub struct Definitions {
    entries: Vec<(Namespace, Span, Definition)>,
}

/// The definitions a sequence of entries gives, a later entry for one key over an earlier one.
pub open spec fn entries_map(entries: Seq<(Namespace, Span, Definition)>) -> Map<
    (Namespace, Span),
    Definition,
>
    decreases entries.len(),
{
    if entries.len() == 0 {
        Map::empty()
    } else {
        entries_map(entries.drop_last()).insert(
            (entries.last().0, entries.last().1),
            entries.last().2,
        )
    }
}

/// Whether no two entries share a key.
pub open spec fn keys_unique(entries: Seq<(Namespace, Span, Definition)>) -> bool {
    forall|i: int, j: int|
        0 <= i < entries.len() && 0 <= j < entries.len() && i != j ==> (entries[i].0, entries[i].1)
            != (entries[j].0, entries[j].1)
}

/// With no key twice, each entry is what the map holds at its key, and the map holds no other.
pub proof fn lemma_entries_map(entries: Seq<(Namespace, Span, Definition)>)
    requires
        keys_unique(entries),
    ensures
        forall|i: int|
            0 <= i < entries.len() ==> #[trigger] entries_map(entries).contains_key(
                (entries[i].0, entries[i].1),
            ) && entries_map(entries)[(entries[i].0, entries[i].1)] == entries[i].2,
        forall|key: (Namespace, Span)|
            #[trigger] entries_map(entries).contains_key(key) ==> exists|i: int|
                0 <= i < entries.len() && (entries[i].0, entries[i].1) == key,
    decreases entries.len(),
{
    if entries.len() > 0 {
        let rest = entries.drop_last();
        assert(keys_unique(rest)) by {
            assert forall|i: int, j: int|
                0 <= i < rest.len() && 0 <= j < rest.len() && i != j implies (rest[i].0, rest[i].1)
                != (rest[j].0, rest[j].1) by {
                assert(rest[i] == entries[i] && rest[j] == entries[j]);
            }
        }
        lemma_entries_map(rest);
        let last = (entries.last().0, entries.last().1);
        assert forall|i: int| 0 <= i < entries.len() implies #[trigger] entries_map(
            entries,
        ).contains_key((entries[i].0, entries[i].1)) && entries_map(entries)[(
            entries[i].0,
            entries[i].1,
        )] == entries[i].2 by {
            if i < entries.len() - 1 {
                assert(rest[i] == entries[i]);
                assert(entries_map(rest).contains_key((rest[i].0, rest[i].1)));
                assert((entries[i].0, entries[i].1) != last);
            } else {
                assert(entries[i] == entries.last());
            }
        }
        assert forall|key: (Namespace, Span)| #[trigger]
            entries_map(entries).contains_key(key) implies exists|i: int|
            0 <= i < entries.len() && (entries[i].0, entries[i].1) == key by {
            if key != last {
                assert(entries_map(rest).contains_key(key));
                let i = choose|i: int| 0 <= i < rest.len() && (rest[i].0, rest[i].1) == key;
                assert(entries[i] == rest[i]);
            } else {
                assert(entries[entries.len() - 1] == entries.last());
            }
        }
    }
}

impl Definitions {
    /// What each name written at each place means.
    pub closed spec fn view(&self) -> Map<(Namespace, Span), Definition> {
        entries_map(self.entries@)
    }

    /// The entries, in the order they were first recorded.
    pub closed spec fn entries(&self) -> Seq<(Namespace, Span, Definition)> {
        self.entries@
    }

    /// No key is recorded twice.
    pub closed spec fn well_formed(&self) -> bool {
        keys_unique(self.entries@)
    }

    /// The entries hold exactly what the map holds.
    pub proof fn lemma_entries(&self)
        requires
            self.well_formed(),
        ensures
            forall|i: int|
                0 <= i < self.entries().len() ==> #[trigger] self.view().contains_key(
                    (self.entries()[i].0, self.entries()[i].1),
                ) && self.view()[(self.entries()[i].0, self.entries()[i].1)]
                    == self.entries()[i].2,
            forall|key: (Namespace, Span)|
                #[trigger] self.view().contains_key(key) ==> exists|i: int|
                    0 <= i < self.entries().len() && (self.entries()[i].0, self.entries()[i].1)
                        == key,
    {
        lemma_entries_map(self.entries@);
        assert forall|key: (Namespace, Span)| #[trigger]
            self.view().contains_key(key) implies exists|i: int|
            0 <= i < self.entries().len() && (self.entries()[i].0, self.entries()[i].1) == key by {
            let i = choose|i: int|
                0 <= i < self.entries@.len() && (self.entries@[i].0, self.entries@[i].1) == key;
            assert((self.entries()[i].0, self.entries()[i].1) == key);
        }
    }

    /// No name has a definition yet.
    pub fn new() -> (definitions: Definitions)
        ensures
            definitions.view() == Map::<(Namespace, Span), Definition>::empty(),
            definitions.well_formed(),
    {
        Definitions { entries: Vec::new() }
    }

    /// Every name that has a definition: its namespace, its span, and what it means, each once.
    pub fn to_vec(&self) -> (entries: Vec<(Namespace, Span, Definition)>)
        ensures
            entries_map(entries@) == self.view(),
            self.well_formed() ==> keys_unique(entries@),
    {
        let mut entries: Vec<(Namespace, Span, Definition)> = Vec::new();
        let mut i: usize = 0;
        while i < self.entries.len()
            invariant
                i <= self.entries@.len(),
                entries@ == self.entries@.take(i as int),
            decreases self.entries.len() - i,
        {
            entries.push(self.entries[i]);
            assert(self.entries@.take(i + 1) =~= self.entries@.take(i as int).push(self.entries@[i as int]));
            i = i + 1;
        }
        assert(self.entries@.take(self.entries.len() as int) =~= self.entries@);
        entries
    }

    /// How many names have a definition.
    pub fn len(&self) -> (count: usize)
        ensures
            count == self.entries().len(),
    {
        self.entries.len()
    }

    /// The entry recorded `i`-th.
    pub fn entry(&self, i: usize) -> (entry: (Namespace, Span, Definition))
        requires
            i < self.entries().len(),
        ensures
            entry == self.entries()[i as int],
    {
        self.entries[i]
    }

    /// What the name written at `span` in `namespace` means, when it has a definition.
    pub fn get(&self, namespace: Namespace, span: Span) -> (found: Option<Definition>)
        requires
            self.well_formed(),
        ensures
            match found {
                Some(definition) => self.view().contains_key((namespace, span))
                    && self.view()[(namespace, span)] == definition,
                None => !self.view().contains_key((namespace, span)),
            },
    {
        proof {
            self.lemma_entries();
        }
        let mut i: usize = 0;
        while i < self.entries.len()
            invariant
                i <= self.entries@.len(),
                self.well_formed(),
                forall|j: int|
                    0 <= j < i ==> (self.entries@[j].0, self.entries@[j].1) != (namespace, span),
            decreases self.entries.len() - i,
        {
            let (one, at, definition) = self.entries[i];
            if one == namespace && at == span {
                proof {
                    self.lemma_entries();
                    assert(self.view().contains_key((self.entries()[i as int].0, self.entries()[i as int].1)));
                }
                return Some(definition);
            }
            i = i + 1;
        }
        proof {
            self.lemma_entries();
            if self.view().contains_key((namespace, span)) {
                let k = choose|k: int|
                    0 <= k < self.entries().len() && (self.entries()[k].0, self.entries()[k].1)
                        == (namespace, span);
                assert((self.entries@[k].0, self.entries@[k].1) != (namespace, span));
            }
        }
        None
    }

    /// Records that the name written at `span` in `namespace` means `definition`.
    pub fn insert(&mut self, namespace: Namespace, span: Span, definition: Definition)
        requires
            old(self).well_formed(),
        ensures
            final(self).well_formed(),
            final(self).view() == old(self).view().insert((namespace, span), definition),
    {
        proof {
            self.lemma_entries();
        }
        let mut i: usize = 0;
        while i < self.entries.len()
            invariant
                i <= self.entries@.len(),
                self.entries@ == old(self).entries@,
                keys_unique(old(self).entries@),
                forall|j: int|
                    0 <= j < i ==> (self.entries@[j].0, self.entries@[j].1) != (namespace, span),
            decreases self.entries.len() - i,
        {
            let (one, at, _) = self.entries[i];
            if one == namespace && at == span {
                self.entries.set(i, (namespace, span, definition));
                proof {
                    let entries = self.entries@;
                    assert(keys_unique(entries)) by {
                        assert forall|a: int, b: int|
                            0 <= a < entries.len() && 0 <= b < entries.len() && a != b implies (
                            entries[a].0,
                            entries[a].1,
                        ) != (entries[b].0, entries[b].1) by {
                            let old_entries = old(self).entries@;
                            assert(old_entries[a].0 == entries[a].0 && old_entries[a].1 == entries[a].1);
                            assert(old_entries[b].0 == entries[b].0 && old_entries[b].1 == entries[b].1);
                        }
                    }
                    lemma_entries_map(entries);
                    lemma_entries_map(old(self).entries@);
                    assert(self.view() =~= old(self).view().insert((namespace, span), definition)) by {
                        assert forall|key: (Namespace, Span)| #[trigger] self.view().contains_key(key)
                            <==> old(self).view().insert((namespace, span), definition).contains_key(key) by {
                            if self.view().contains_key(key) {
                                let k = choose|k: int| 0 <= k < entries.len() && (entries[k].0, entries[k].1) == key;
                                assert(old(self).entries@[k].0 == entries[k].0 && old(self).entries@[k].1 == entries[k].1);
                            }
                            if old(self).view().contains_key(key) {
                                let k = choose|k: int| 0 <= k < old(self).entries@.len() && (old(self).entries@[k].0, old(self).entries@[k].1) == key;
                                assert(old(self).entries@[k].0 == entries[k].0 && old(self).entries@[k].1 == entries[k].1);
                            }
                        }
                        assert forall|key: (Namespace, Span)| #[trigger] self.view().contains_key(key)
                            implies self.view()[key] == old(self).view().insert((namespace, span), definition)[key] by {
                            let k = choose|k: int| 0 <= k < entries.len() && (entries[k].0, entries[k].1) == key;
                            if k != i {
                                assert(old(self).entries@[k] == entries[k]);
                            }
                        }
                    }
                }
                return;
            }
            i = i + 1;
        }
        self.entries.push((namespace, span, definition));
        proof {
            let entries = self.entries@;
            assert(entries.drop_last() =~= old(self).entries@);
            assert(keys_unique(entries)) by {
                assert forall|a: int, b: int|
                    0 <= a < entries.len() && 0 <= b < entries.len() && a != b implies (
                    entries[a].0,
                    entries[a].1,
                ) != (entries[b].0, entries[b].1) by {
                    if a < entries.len() - 1 && b < entries.len() - 1 {
                        assert(entries[a] == old(self).entries@[a]);
                        assert(entries[b] == old(self).entries@[b]);
                    } else if a < entries.len() - 1 {
                        assert(entries[a] == old(self).entries@[a]);
                    } else {
                        assert(entries[b] == old(self).entries@[b]);
                    }
                }
            }
        }
    }
}

} // verus!
