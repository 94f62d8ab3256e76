//! What a module offers the modules that import it, and what they offer back.
//!
//! What a loaded module offers is every function it declares, and a type it declares stays its
//! own.
use vstd::prelude::*;

use crate::ast::Item;
use crate::resolve::program::ResolvedProgram;
use crate::scheme::Scheme;
use crate::text::{holds_text, texts};
use crate::types::{lemma_views_of, Type, TypeView};

verus! {

/// What one function of a module amounts to for a module that imports it.
pub enum Offered {
    /// A function written once, whose type is fresh at each use.
    Plain(Scheme),
    /// A function written once per set of types it is used at, so only the module declaring it
    /// knows which of them to write.
    Generic,
}

impl Offered {
    /// What `scheme` amounts to, which is what it is polymorphic over rather than what was
    /// written.
    ///
    /// A function that writes no type parameter is generic all the same when nothing settled
    /// its type: inference generalises over whatever it left free, and the class the declaring
    /// module writes is erased exactly as a written parameter erases it.
    pub fn of(scheme: Scheme) -> (offered: Offered)
        ensures
            scheme.quantified@.len() == 0 ==> offered == Offered::Plain(scheme),
            scheme.quantified@.len() != 0 ==> offered is Generic,
    {
        if scheme.quantified.len() == 0 {
            Offered::Plain(scheme)
        } else {
            Offered::Generic
        }
    }
}

/// The types a module declares, in the order it declares them.
pub open spec fn declared_types(items: Seq<Item>) -> Seq<Seq<char>>
    decreases items.len(),
{
    if items.len() == 0 {
        Seq::empty()
    } else {
        let rest = declared_types(items.drop_last());
        match items.last() {
            Item::Type(declaration) => rest.push(declaration.name.text@),
            _ => rest,
        }
    }
}

/// The first type among `declared` that `t` names, looking at its head before its arguments.
pub open spec fn spec_named_by(declared: Seq<Seq<char>>, t: TypeView) -> Option<Seq<char>>
    decreases t, 0int,
{
    match t {
        TypeView::Named(name, arguments) => if declared.contains(name) {
            Some(name)
        } else {
            named_by_among(declared, arguments, 0)
        },
        TypeView::Function(parameters, result) => match named_by_among(declared, parameters, 0) {
            Some(found) => Some(found),
            None => spec_named_by(declared, *result),
        },
        _ => None,
    }
}

/// The first type among `declared` that one of `types` from `from` on names.
pub open spec fn named_by_among(declared: Seq<Seq<char>>, types: Seq<TypeView>, from: int) -> Option<
    Seq<char>,
>
    decreases types, types.len() - from,
{
    if 0 <= from < types.len() {
        match spec_named_by(declared, types[from]) {
            Some(found) => Some(found),
            None => named_by_among(declared, types, from + 1),
        }
    } else {
        None
    }
}

/// Every function a module declares, and the types it keeps to itself.
pub struct Surface {
    functions: Vec<(String, Offered)>,
    declared: Vec<String>,
}

impl Surface {
    /// The functions offered, by name.
    pub closed spec fn spec_functions(&self) -> Seq<(Seq<char>, Offered)> {
        self.functions@.map_values(|one: (String, Offered)| (one.0@, one.1))
    }

    /// The types kept to the module.
    pub closed spec fn spec_declared(&self) -> Seq<Seq<char>> {
        texts(self.declared@)
    }

    /// A module that offers nothing and keeps nothing.
    pub fn empty() -> (surface: Surface)
        ensures
            surface.spec_functions().len() == 0,
            surface.spec_declared().len() == 0,
    {
        Surface { functions: Vec::new(), declared: Vec::new() }
    }

    /// What `resolved` offers, where `functions` is the type inference gave each of them.
    pub fn of(resolved: &ResolvedProgram, functions: Vec<(String, Scheme)>) -> (surface: Surface)
        ensures
            surface.spec_declared() == declared_types(resolved.spec_program().items@),
            surface.spec_functions().len() == functions@.len(),
            forall|k: int|
                0 <= k < functions@.len() ==> (#[trigger] surface.spec_functions()[k]).0
                    == functions@[k].0@ && (functions@[k].1.quantified@.len() == 0
                    <==> surface.spec_functions()[k].1 is Plain),
    {
        let program = resolved.program();
        let mut declared: Vec<String> = Vec::new();
        let mut i: usize = 0;
        while i < program.items.len()
            invariant
                i <= program.items@.len(),
                texts(declared@) == declared_types(program.items@.take(i as int)),
            decreases program.items.len() - i,
        {
            assert(program.items@.take(i + 1).drop_last() =~= program.items@.take(i as int));
            match &program.items[i] {
                Item::Type(declaration) => {
                    let ghost before = declared@;
                    declared.push(declaration.name.text.clone());
                    assert(texts(declared@) =~= texts(before).push(declaration.name.text@));
                },
                _ => {},
            }
            i = i + 1;
        }
        assert(program.items@.take(program.items.len() as int) =~= program.items@);
        let ghost given = functions@;
        let mut offered: Vec<(String, Offered)> = Vec::new();
        let mut rest = functions;
        while rest.len() > 0
            invariant
                offered@.len() + rest@.len() == given.len(),
                forall|k: int|
                    0 <= k < offered@.len() ==> (#[trigger] offered@[k]).0@ == given[given.len() - 1 - k].0@
                        && (given[given.len() - 1 - k].1.quantified@.len() == 0 <==> offered@[k].1 is Plain),
                rest@ == given.take(rest@.len() as int),
            decreases rest.len(),
        {
            let ghost before = rest@;
            let (name, scheme) = rest.pop().unwrap();
            assert(before.take(rest@.len() as int) =~= rest@);
            offered.push((name, Offered::of(scheme)));
        }
        let mut functions_offered: Vec<(String, Offered)> = Vec::new();
        while offered.len() > 0
            invariant
                functions_offered@.len() + offered@.len() == given.len(),
                forall|k: int|
                    0 <= k < offered@.len() ==> (#[trigger] offered@[k]).0@ == given[given.len() - 1 - k].0@
                        && (given[given.len() - 1 - k].1.quantified@.len() == 0 <==> offered@[k].1 is Plain),
                forall|k: int|
                    0 <= k < functions_offered@.len() ==> (#[trigger] functions_offered@[k]).0@ == given[k].0@
                        && (given[k].1.quantified@.len() == 0 <==> functions_offered@[k].1 is Plain),
            decreases offered.len(),
        {
            let one = offered.pop().unwrap();
            functions_offered.push(one);
        }
        Surface { functions: functions_offered, declared }
    }

    /// What the module offers under `name`, when it declares a function of that name.
    pub fn function(&self, name: &str) -> (offered: Option<&Offered>)
        ensures
            match offered {
                Some(found) => exists|k: int|
                    0 <= k < self.spec_functions().len() && self.spec_functions()[k].0 == name@
                        && self.spec_functions()[k].1 == *found && forall|j: int|
                        0 <= j < k ==> self.spec_functions()[j].0 != name@,
                None => forall|k: int|
                    0 <= k < self.spec_functions().len() ==> (#[trigger] self.spec_functions()[k]).0
                        != name@,
            },
    {
        let mut i: usize = 0;
        while i < self.functions.len()
            invariant
                i <= self.functions@.len(),
                forall|j: int| 0 <= j < i ==> (#[trigger] self.spec_functions()[j]).0 != name@,
            decreases self.functions.len() - i,
        {
            if crate::text::same_text(self.functions[i].0.as_str(), name) {
                assert(self.spec_functions()[i as int].0 == name@);
                return Some(&self.functions[i].1);
            }
            assert(self.spec_functions()[i as int].0 != name@);
            i = i + 1;
        }
        None
    }

    /// The type this module keeps to itself that `scheme` names, when it names one.
    ///
    /// A type is written as a bare name, so a module importing this one has no way to write it,
    /// and a function whose signature names one offers nothing that can be taken up.
    pub fn kept_to_itself(&self, scheme: &Scheme) -> (kept: Option<String>)
        ensures
            match spec_named_by(self.spec_declared(), scheme.body@) {
                Some(name) => kept matches Some(found) && found@ == name,
                None => kept is None,
            },
    {
        self.named_by(&scheme.body)
    }

    /// The first type this module keeps to itself that `written` names.
    fn named_by(&self, written: &Type) -> (kept: Option<String>)
        ensures
            match spec_named_by(self.spec_declared(), written@) {
                Some(name) => kept matches Some(found) && found@ == name,
                None => kept is None,
            },
        decreases written@, 1int,
    {
        match written {
            Type::Named { name, arguments } => {
                if holds_text(&self.declared, name) {
                    return Some(name.clone());
                }
                proof {
                    lemma_views_of(arguments@);
                    assert(decreases_to!(written@ => written@->Named_1));
                }
                self.named_by_each(arguments, Ghost(written@))
            },
            Type::Function { parameters, result } => {
                proof {
                    lemma_views_of(parameters@);
                    assert(decreases_to!(written@ => written@->Function_0));
                    assert(decreases_to!(written@ => written@->Function_1));
                }
                match self.named_by_each(parameters, Ghost(written@)) {
                    Some(found) => Some(found),
                    None => self.named_by(result),
                }
            },
            _ => None,
        }
    }

    /// The first type this module keeps to itself that one of `types` names.
    fn named_by_each(&self, types: &Vec<Type>, whole_type: Ghost<TypeView>) -> (kept: Option<String>)
        requires
            decreases_to!(whole_type@ => crate::types::views_of(types@)),
        ensures
            match named_by_among(self.spec_declared(), crate::types::views_of(types@), 0) {
                Some(name) => kept matches Some(found) && found@ == name,
                None => kept is None,
            },
        decreases whole_type@, 0int,
    {
        let ghost views = crate::types::views_of(types@);
        let mut i: usize = 0;
        while i < types.len()
            invariant
                i <= types@.len(),
                views == crate::types::views_of(types@),
                decreases_to!(whole_type@ => views),
                named_by_among(self.spec_declared(), views, 0) == named_by_among(
                    self.spec_declared(),
                    views,
                    i as int,
                ),
            decreases types.len() - i,
        {
            proof {
                lemma_views_of(types@);
                assert(decreases_to!(views => views[i as int]));
            }
            match self.named_by(&types[i]) {
                Some(found) => {
                    return Some(found);
                },
                None => {},
            }
            i = i + 1;
        }
        proof {
            lemma_views_of(types@);
        }
        None
    }
}

/// What the modules a module imports offer it, under the names it imports them by.
pub struct Imported {
    surfaces: Vec<(String, Surface)>,
}

impl Imported {
    /// The modules offered, by name.
    pub closed spec fn modules(&self) -> Seq<Seq<char>> {
        self.surfaces@.map_values(|one: (String, Surface)| one.0@)
    }

    /// Each module offered, by name, with what it offers.
    pub closed spec fn offers(&self) -> Seq<(Seq<char>, Surface)> {
        self.surfaces@.map_values(|one: (String, Surface)| (one.0@, one.1))
    }

    /// Nothing imported.
    pub fn empty() -> (imported: Imported)
        ensures
            imported.modules().len() == 0,
    {
        Imported { surfaces: Vec::new() }
    }

    /// The same, with `module` now offering `surface` to whatever imports it, in place of what
    /// it offered before.
    pub fn offering(self, module: &str, surface: Surface) -> (imported: Imported)
        ensures
            imported.modules().contains(module@),
            forall|name: Seq<char>| name != module@ ==> (imported.modules().contains(name)
                <==> self.modules().contains(name)),
    {
        let mut surfaces = self.surfaces;
        let mut kept: Vec<(String, Surface)> = Vec::new();
        let ghost all = surfaces@.map_values(|one: (String, Surface)| one.0@);
        let ghost earlier = self.modules();
        assert(all == earlier);
        while surfaces.len() > 0
            invariant
                forall|name: Seq<char>| name != module@ ==> (earlier.contains(name) <==> (surfaces@.map_values(|one: (String, Surface)| one.0@).contains(name) || kept@.map_values(|one: (String, Surface)| one.0@).contains(name))),
                forall|k: int| 0 <= k < kept@.len() ==> kept@[k].0@ != module@,
            decreases surfaces.len(),
        {
            let ghost before = surfaces@;
            let ghost kept_before = kept@;
            let one = surfaces.pop().unwrap();
            proof {
                assert(before =~= surfaces@.push(one));
            }
            if !crate::text::same_text(one.0.as_str(), module) {
                kept.push(one);
            }
            proof {
                assert forall|name: Seq<char>| name != module@ implies (earlier.contains(name) <==> (surfaces@.map_values(|one: (String, Surface)| one.0@).contains(name) || kept@.map_values(|one: (String, Surface)| one.0@).contains(name))) by {
                    let b = before.map_values(|one: (String, Surface)| one.0@);
                    let r = surfaces@.map_values(|one: (String, Surface)| one.0@);
                    let kb = kept_before.map_values(|one: (String, Surface)| one.0@);
                    let ka = kept@.map_values(|one: (String, Surface)| one.0@);
                    assert(b =~= r.push(one.0@));
                    if b.contains(name) {
                        let j = choose|j: int| 0 <= j < b.len() && b[j] == name;
                        if j < r.len() {
                            assert(r[j] == name);
                        } else {
                            assert(ka[ka.len() - 1] == name);
                        }
                    }
                    if kb.contains(name) {
                        let j = choose|j: int| 0 <= j < kb.len() && kb[j] == name;
                        assert(ka[j] == name);
                    }
                    if r.contains(name) {
                        let j = choose|j: int| 0 <= j < r.len() && r[j] == name;
                        assert(b[j] == name);
                    }
                    if ka.contains(name) {
                        let j = choose|j: int| 0 <= j < ka.len() && ka[j] == name;
                        if j < kb.len() {
                            assert(kb[j] == name);
                        } else {
                            assert(b[b.len() - 1] == name);
                        }
                    }
                }
            }
        }
        let ghost kept_before = kept@;
        kept.push((String::from_str(module), surface));
        let imported = Imported { surfaces: kept };
        proof {
            let ka = imported.modules();
            let kb = kept_before.map_values(|one: (String, Surface)| one.0@);
            assert(ka[ka.len() - 1] == module@);
            assert forall|name: Seq<char>| name != module@ implies (imported.modules().contains(name)
                <==> earlier.contains(name)) by {
                if ka.contains(name) {
                    let j = choose|j: int| 0 <= j < ka.len() && ka[j] == name;
                    assert(kb[j] == name);
                }
                if kb.contains(name) {
                    let j = choose|j: int| 0 <= j < kb.len() && kb[j] == name;
                    assert(ka[j] == name);
                }
            }
        }
        imported
    }

    /// What `module` offers, when it is one of the modules loaded.
    pub fn surface(&self, module: &str) -> (found: Option<&Surface>)
        ensures
            found is Some <==> self.modules().contains(module@),
            match found {
                Some(surface) => exists|k: int|
                    0 <= k < self.offers().len() && self.offers()[k] == (module@, *surface)
                        && forall|j: int| 0 <= j < k ==> (#[trigger] self.offers()[j]).0 != module@,
                None => forall|k: int| 0 <= k < self.offers().len() ==> (#[trigger] self.offers()[k]).0 != module@,
            },
    {
        let mut i: usize = 0;
        while i < self.surfaces.len()
            invariant
                i <= self.surfaces@.len(),
                forall|j: int| 0 <= j < i ==> (#[trigger] self.modules()[j]) != module@,
            decreases self.surfaces.len() - i,
        {
            assert(self.offers()[i as int].0 == self.modules()[i as int]);
            if crate::text::same_text(self.surfaces[i].0.as_str(), module) {
                assert(self.modules()[i as int] == module@);
                assert(self.offers()[i as int] == (module@, self.surfaces@[i as int].1));
                assert forall|j: int| 0 <= j < i implies (#[trigger] self.offers()[j]).0 != module@ by {
                    assert(self.offers()[j].0 == self.modules()[j]);
                }
                return Some(&self.surfaces[i].1);
            }
            assert(self.modules()[i as int] != module@);
            i = i + 1;
        }
        assert forall|k: int| 0 <= k < self.offers().len() implies (#[trigger] self.offers()[k]).0 != module@ by {
            assert(self.offers()[k].0 == self.modules()[k]);
        }
        None
    }
}

} // verus!
