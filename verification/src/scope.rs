//! The names in scope, as layers that names leave when their layer does.
use vstd::prelude::*;

use crate::ast::Name;
use crate::definition::{Definition, DefinitionKind, Namespace, Origin};
use crate::text::texts;

verus! {

/// One layer as the specifications read it: each name with the definition it was given.
pub type Layer = Seq<(Seq<char>, Definition)>;

/// What `text` means in one layer: the last definition given that name there.
pub open spec fn layer_look_up(layer: Layer, text: Seq<char>) -> Option<Definition>
    decreases layer.len(),
{
    if layer.len() == 0 {
        None
    } else if layer.last().0 == text {
        Some(layer.last().1)
    } else {
        layer_look_up(layer.drop_last(), text)
    }
}

/// What `text` means in `layers`, searched from the innermost layer outwards.
pub open spec fn spec_look_up(layers: Seq<Layer>, text: Seq<char>) -> Option<Definition>
    decreases layers.len(),
{
    if layers.len() == 0 {
        None
    } else {
        match layer_look_up(layers.last(), text) {
            Some(found) => Some(found),
            None => spec_look_up(layers.drop_last(), text),
        }
    }
}

/// The layer the prelude's names are in: each list of names with the kind they are given.
pub open spec fn prelude_layer(supplied: Seq<(Seq<Seq<char>>, DefinitionKind)>) -> Layer
    decreases supplied.len(),
{
    if supplied.len() == 0 {
        Seq::empty()
    } else {
        prelude_layer(supplied.drop_last()) + supplied.last().0.map_values(
            |text: Seq<char>| (text, Definition { kind: supplied.last().1, origin: Origin::Prelude }),
        )
    }
}

/// The names a prelude scope is seeded with, as the specifications read them.
pub open spec fn supplied_view(supplied: Seq<(Vec<String>, DefinitionKind)>) -> Seq<
    (Seq<Seq<char>>, DefinitionKind),
> {
    supplied.map_values(|one: (Vec<String>, DefinitionKind)| (texts(one.0@), one.1))
}

/// One entry of a layer as the specifications read it.
pub open spec fn entry_view(entry: (String, Definition)) -> (Seq<char>, Definition) {
    (entry.0@, entry.1)
}

/// One layer as the specifications read it.
pub open spec fn layer_view(layer: Vec<(String, Definition)>) -> Layer {
    layer@.map_values(|entry: (String, Definition)| entry_view(entry))
}

/// Why a name could not be introduced.
#[derive(Clone, Copy, Debug, PartialEq, Eq, Structural)]
pub enum Clash {
    /// The same layer already declares it, so the two are two definitions of one name.
    Twice,
    /// A layer further out declares it, so the new one would hide it.
    Shadowed,
}

/// One namespace: the types or the values, never both.
///
/// A name is introduced into the innermost layer, and looked up from there outwards. Nothing is
/// ever replaced: a name already in scope is a [`Clash`], which is how the one-definition rule is
/// kept.
pub struct Scope {
    namespace: Namespace,
    layers: Vec<Vec<(String, Definition)>>,
}

impl Scope {
    /// The layers, innermost last.
    pub closed spec fn layers(&self) -> Seq<Layer> {
        self.layers@.map_values(|layer: Vec<(String, Definition)>| layer_view(layer))
    }

    /// Which of the two scopes this is.
    pub closed spec fn spec_namespace(&self) -> Namespace {
        self.namespace
    }

    /// A scope always has a layer, the prelude's at least.
    pub open spec fn well_formed(&self) -> bool {
        self.layers().len() >= 1
    }

    /// What `text` means here.
    pub open spec fn meaning(&self, text: Seq<char>) -> Option<Definition> {
        spec_look_up(self.layers(), text)
    }

    /// The innermost layer, which is where a name is introduced.
    pub open spec fn innermost(&self) -> Layer {
        self.layers().last()
    }

    proof fn lemma_layer(&self, i: int)
        requires
            0 <= i < self.layers@.len(),
        ensures
            self.layers()[i] == layer_view(self.layers@[i]),
            self.layers().len() == self.layers@.len(),
    {
    }

    /// A scope holding the prelude's names and nothing else.
    pub fn of_prelude(namespace: Namespace, supplied: Vec<(Vec<String>, DefinitionKind)>) -> (scope:
        Scope)
        ensures
            scope.spec_namespace() == namespace,
            scope.layers() == seq![prelude_layer(supplied_view(supplied@))],
            scope.well_formed(),
    {
        let mut layer: Vec<(String, Definition)> = Vec::new();
        let mut i: usize = 0;
        let ghost view = supplied_view(supplied@);
        while i < supplied.len()
            invariant
                i <= supplied@.len(),
                view == supplied_view(supplied@),
                view.len() == supplied@.len(),
                layer_view(layer)
                    == prelude_layer(view.take(i as int)),
            decreases supplied.len() - i,
        {
            let (names, kind) = &supplied[i];
            let ghost before = layer@;
            let mut j: usize = 0;
            while j < names.len()
                invariant
                    j <= names@.len(),
                    layer@.len() == before.len() + j,
                    forall|k: int| 0 <= k < before.len() ==> layer@[k] == before[k],
                    forall|k: int|
                        0 <= k < j ==> layer@[before.len() + k].0@ == names@[k]@ && layer@[before.len()
                            + k].1 == (Definition { kind: *kind, origin: Origin::Prelude }),
                decreases names.len() - j,
            {
                layer.push((names[j].clone(), Definition { kind: *kind, origin: Origin::Prelude }));
                j = j + 1;
            }
            assert(view.take(i + 1).drop_last() =~= view.take(i as int));
            assert(view[i as int] == (texts(names@), *kind));
            assert(layer_view(layer)
                =~= prelude_layer(view.take(i + 1)));
            i = i + 1;
        }
        assert(view.take(supplied.len() as int) =~= view);
        let mut layers: Vec<Vec<(String, Definition)>> = Vec::new();
        layers.push(layer);
        let scope = Scope { namespace, layers };
        assert(scope.layers() =~= seq![prelude_layer(supplied_view(supplied@))]);
        scope
    }

    /// Which of the two scopes this is, which decides how a name missing from it reads.
    pub fn namespace(&self) -> (namespace: Namespace)
        ensures
            namespace == self.spec_namespace(),
    {
        self.namespace
    }

    /// Opens a layer inside every other, which holds nothing yet.
    pub fn enter(&mut self)
        ensures
            final(self).layers() == old(self).layers().push(Seq::empty()),
            final(self).spec_namespace() == old(self).spec_namespace(),
    {
        self.layers.push(Vec::new());
        assert(layer_view(self.layers@.last()) =~= Seq::empty());
        assert(self.layers() =~= old(self).layers().push(Seq::empty()));
    }

    /// Closes the innermost layer, and every name it held leaves scope with it.
    pub fn leave(&mut self)
        requires
            old(self).layers().len() >= 2,
        ensures
            final(self).layers() == old(self).layers().drop_last(),
            final(self).spec_namespace() == old(self).spec_namespace(),
    {
        self.layers.pop();
        assert(self.layers() =~= old(self).layers().drop_last());
    }

    /// What `text` means in one layer, looked at from the entry before `k` backwards.
    fn look_up_in_layer(layer: &Vec<(String, Definition)>, k: usize, text: &String) -> (found:
        Option<Definition>)
        requires
            k <= layer@.len(),
        ensures
            found == layer_look_up(
                layer_view(*layer).take(k as int),
                text@,
            ),
        decreases k,
    {
        let ghost seen = layer_view(*layer).take(
            k as int,
        );
        if k == 0 {
            return None;
        }
        assert(seen.drop_last() =~= layer_view(*layer).take(k - 1));
        if layer[k - 1].0 == *text {
            return Some(layer[k - 1].1);
        }
        Self::look_up_in_layer(layer, k - 1, text)
    }

    /// What `text` means in the layers before `k`, searched from the innermost outwards.
    fn look_up_in(&self, k: usize, text: &String) -> (found: Option<Definition>)
        requires
            k <= self.layers@.len(),
        ensures
            found == spec_look_up(self.layers().take(k as int), text@),
        decreases k,
    {
        if k == 0 {
            return None;
        }
        proof {
            self.lemma_layer(k - 1);
        }
        assert(self.layers().take(k as int).drop_last() =~= self.layers().take(k - 1));
        let layer = &self.layers[k - 1];
        assert(layer_view(*layer).take(
            layer@.len() as int,
        ) =~= layer_view(*layer));
        match Self::look_up_in_layer(layer, layer.len(), text) {
            Some(found) => Some(found),
            None => self.look_up_in(k - 1, text),
        }
    }

    /// The definition `text` means here, when it means one.
    pub fn look_up(&self, text: &String) -> (found: Option<Definition>)
        ensures
            found == self.meaning(text@),
    {
        assert(self.layers().take(self.layers@.len() as int) =~= self.layers());
        self.look_up_in(self.layers.len(), text)
    }

    /// Whether the name that is already in scope is one this layer declares, or one further out.
    fn clash_over(&self, text: &String) -> (clash: Clash)
        requires
            self.well_formed(),
        ensures
            clash == if layer_look_up(self.innermost(), text@) is Some {
                Clash::Twice
            } else {
                Clash::Shadowed
            },
    {
        let last = self.layers.len() - 1;
        proof {
            self.lemma_layer(last as int);
        }
        let layer = &self.layers[last];
        assert(layer_view(*layer).take(
            layer@.len() as int,
        ) =~= layer_view(*layer));
        if Self::look_up_in_layer(layer, layer.len(), text).is_some() {
            Clash::Twice
        } else {
            Clash::Shadowed
        }
    }

    /// Adds `name` to the innermost layer, refusing anything already in scope.
    pub fn introduce(&mut self, name: &Name, kind: DefinitionKind) -> (introduced: Result<
        (),
        Clash,
    >)
        requires
            old(self).well_formed(),
        ensures
            final(self).well_formed(),
            final(self).spec_namespace() == old(self).spec_namespace(),
            match introduced {
                Ok(()) => {
                    &&& old(self).meaning(name.text@) is None
                    &&& final(self).layers() == old(self).layers().drop_last().push(
                        old(self).innermost().push(
                            (name.text@, Definition { kind, origin: Origin::Declared(name.span) }),
                        ),
                    )
                },
                Err(clash) => {
                    &&& old(self).meaning(name.text@) is Some
                    &&& final(self).layers() == old(self).layers()
                    &&& clash == if layer_look_up(old(self).innermost(), name.text@) is Some {
                        Clash::Twice
                    } else {
                        Clash::Shadowed
                    }
                },
            },
    {
        if self.look_up(&name.text).is_some() {
            return Err(self.clash_over(&name.text));
        }
        let definition = Definition { kind, origin: Origin::Declared(name.span) };
        let last = self.layers.len() - 1;
        proof {
            self.lemma_layer(last as int);
        }
        let mut layer = self.layers.pop().unwrap();
        assert(layer_view(layer) == old(self).innermost());
        layer.push((name.text.clone(), definition));
        assert(layer_view(layer) =~= old(self).innermost().push((name.text@, definition)));
        self.layers.push(layer);
        assert(self.layers() =~= old(self).layers().drop_last().push(
            old(self).innermost().push((name.text@, definition)),
        ));
        Ok(())
    }
}

/// A name introduced into a scope means the definition it was introduced as.
pub proof fn lemma_introduced_is_found(layers: Seq<Layer>, text: Seq<char>, definition: Definition)
    requires
        layers.len() >= 1,
    ensures
        spec_look_up(
            layers.drop_last().push(layers.last().push((text, definition))),
            text,
        ) == Some(definition),
{
    let grown = layers.drop_last().push(layers.last().push((text, definition)));
    assert(grown.last() == layers.last().push((text, definition)));
}

/// Introducing a name leaves what every other name means as it was.
pub proof fn lemma_introduce_frames(
    layers: Seq<Layer>,
    text: Seq<char>,
    definition: Definition,
    other: Seq<char>,
)
    requires
        layers.len() >= 1,
        other != text,
    ensures
        spec_look_up(layers.drop_last().push(layers.last().push((text, definition))), other)
            == spec_look_up(layers, other),
{
    let grown = layers.drop_last().push(layers.last().push((text, definition)));
    assert(grown.drop_last() =~= layers.drop_last());
    assert(layers.last().push((text, definition)).drop_last() =~= layers.last());
}

/// Whatever a layer opened and then closed again held, what every name means is as it was.
pub proof fn lemma_leaving_forgets(outer: Seq<Layer>, inner: Layer, text: Seq<char>)
    ensures
        spec_look_up(outer.push(inner).drop_last(), text) == spec_look_up(outer, text),
{
    assert(outer.push(inner).drop_last() =~= outer);
}

/// A layer that has just been opened holds nothing, so every name means what it meant outside.
pub proof fn lemma_entering_hides_nothing(outer: Seq<Layer>, text: Seq<char>)
    ensures
        spec_look_up(outer.push(Seq::empty()), text) == spec_look_up(outer, text),
{
    let grown = outer.push(Seq::<(Seq<char>, Definition)>::empty());
    assert(grown.drop_last() =~= outer);
}

} // verus!
