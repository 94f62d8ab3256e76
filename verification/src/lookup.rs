//! Fields: what a name written after a dot reaches, once the type it is reached through is known.
//!
//! A field is looked up as soon as that type is known and waits for the end of its function when
//! it is not. Reached through a record, it is the record's field of that label; reached through a
//! module, it is a name the module declares.
use vstd::prelude::*;

use crate::ast::Name;
use crate::calls::expect;
use crate::environment::{scheme_view, Environment, EnvironmentView, SchemeView};
use crate::laws::law_nothing_given;
use crate::records::{labelled, unreachable_field};
use crate::scheme::{fresh_given, given_to, replaced, replaced_among, lemma_replaced_among, stand_ins};
use crate::supplied::{declared, spec_declared, supplies, FILES, IO};
use crate::surface::{spec_named_by, Imported, Offered, Surface};
use crate::table::{mentions, mentions_among, Table};
use crate::text::texts;
use crate::type_error::{TypeError, TypeErrorKind};
use crate::types::{lemma_views_of, views_of, Type, TypeVar, TypeView};
use crate::unify::{extends, lemma_extends};

verus! {

/// Whether every variable `t` mentions is below `bound`.
pub open spec fn below(t: TypeView, bound: nat) -> bool {
    forall|x: TypeVar| mentions(t, x) ==> x.0 < bound
}

/// Whether every type `given` gives mentions only variables below `bound`.
pub open spec fn gives_below(given: Seq<(TypeView, TypeView)>, bound: nat) -> bool {
    forall|k: int| 0 <= k < given.len() ==> below(#[trigger] given[k].1, bound)
}

/// What a stand-in is given is one of the types given.
proof fn lemma_given_below(given: Seq<(TypeView, TypeView)>, key: TypeView, bound: nat)
    requires
        gives_below(given, bound),
    ensures
        given_to(given, key) matches Some(at) ==> below(at, bound),
    decreases given.len(),
{
    if given.len() > 0 && given.last().0 != key {
        assert(gives_below(given.drop_last(), bound)) by {
            assert forall|k: int| 0 <= k < given.drop_last().len() implies below(
                #[trigger] given.drop_last()[k].1,
                bound,
            ) by {
                assert(given.drop_last()[k] == given[k]);
            }
        }
        lemma_given_below(given.drop_last(), key, bound);
    }
}

/// A stand-in replaced is what it is given, or itself.
proof fn lemma_replaced_stand_in_below(t: TypeView, given: Seq<(TypeView, TypeView)>, bound: nat)
    requires
        t is Var || t is Parameter,
        below(t, bound),
        gives_below(given, bound),
    ensures
        below(replaced(t, given), bound),
{
    lemma_given_below(given, t, bound);
    if given_to(given, t) is Some {
        assert(replaced(t, given) == given_to(given, t)->0);
    } else {
        assert(replaced(t, given) == t);
    }
}

/// Replacing stand-ins by types below `bound` in a type below `bound` gives a type below it.
pub proof fn lemma_replaced_below(t: TypeView, given: Seq<(TypeView, TypeView)>, bound: nat)
    requires
        below(t, bound),
        gives_below(given, bound),
    ensures
        below(replaced(t, given), bound),
    decreases t, 0int,
{
    match t {
        TypeView::Var(_) => {
            lemma_replaced_stand_in_below(t, given, bound);
        },
        TypeView::Parameter(_, _) => {
            lemma_replaced_stand_in_below(t, given, bound);
        },
        TypeView::Named(name, arguments) => {
            lemma_replaced_among(arguments, given, arguments.len() as int);
            assert forall|x: TypeVar| mentions_among(arguments, arguments.len() as int, x) implies x.0 < bound by {
                assert(mentions(t, x));
            }
            lemma_replaced_among_below(arguments, given, bound, arguments.len() as int);
            let ra = replaced_among(arguments, given, arguments.len() as int);
            assert forall|x: TypeVar| mentions(replaced(t, given), x) implies x.0 < bound by {
                assert(replaced(t, given) == TypeView::Named(name, ra));
                assert(mentions_among(ra, arguments.len() as int, x));
            }
        },
        TypeView::Function(parameters, result) => {
            lemma_replaced_among(parameters, given, parameters.len() as int);
            assert forall|x: TypeVar| mentions_among(parameters, parameters.len() as int, x) implies x.0 < bound by {
                assert(mentions(t, x));
            }
            lemma_replaced_among_below(parameters, given, bound, parameters.len() as int);
            assert(below(*result, bound)) by {
                assert forall|x: TypeVar| mentions(*result, x) implies x.0 < bound by {
                    assert(mentions(t, x));
                }
            }
            lemma_replaced_below(*result, given, bound);
            let rp = replaced_among(parameters, given, parameters.len() as int);
            assert forall|x: TypeVar| mentions(replaced(t, given), x) implies x.0 < bound by {
                assert(replaced(t, given) == TypeView::Function(rp, Box::new(replaced(*result, given))));
                if mentions_among(rp, parameters.len() as int, x) {
                } else {
                    assert(mentions(replaced(*result, given), x));
                }
            }
        },
        _ => {
            assert(replaced(t, given) == t);
        },
    }
}

/// The same, for the first `n` of a sequence of types that mention nothing at or above `bound`.
proof fn lemma_replaced_among_below(
    types: Seq<TypeView>,
    given: Seq<(TypeView, TypeView)>,
    bound: nat,
    n: int,
)
    requires
        0 <= n <= types.len(),
        forall|x: TypeVar| mentions_among(types, types.len() as int, x) ==> x.0 < bound,
        gives_below(given, bound),
    ensures
        forall|x: TypeVar| mentions_among(replaced_among(types, given, n), n, x) ==> x.0 < bound,
    decreases types, n,
{
    if n > 0 {
        lemma_replaced_among_below(types, given, bound, n - 1);
        lemma_replaced_among(types, given, n);
        lemma_replaced_among(types, given, n - 1);
        lemma_mentions_among_prefix(types, n, types.len() as int);
        assert(below(types[n - 1], bound)) by {
            assert forall|x: TypeVar| mentions(types[n - 1], x) implies x.0 < bound by {
                lemma_mentions_among_at(types, n - 1, types.len() as int, x);
            }
        }
        lemma_replaced_below(types[n - 1], given, bound);
        let all = replaced_among(types, given, n);
        let fewer = replaced_among(types, given, n - 1);
        assert(all.drop_last() =~= fewer);
        assert forall|x: TypeVar| mentions_among(all, n, x) implies x.0 < bound by {
            assert(all[n - 1] == replaced(types[n - 1], given));
            assert(mentions_among(all, n, x) == (mentions_among(all, n - 1, x) || mentions(all[n - 1], x)));
            if mentions_among(all, n - 1, x) {
                lemma_mentions_among_same(all, fewer, n - 1, x);
            } else {
                assert(mentions(replaced(types[n - 1], given), x));
            }
        }
    }
}

/// Mentioning among the first `n` is the same for two sequences that agree on the first `n`.
proof fn lemma_mentions_among_same(one: Seq<TypeView>, other: Seq<TypeView>, n: int, x: TypeVar)
    requires
        0 <= n <= one.len(),
        n <= other.len(),
        forall|k: int| 0 <= k < n ==> one[k] == other[k],
    ensures
        mentions_among(one, n, x) == mentions_among(other, n, x),
    decreases n,
{
    if n > 0 {
        lemma_mentions_among_same(one, other, n - 1, x);
    }
}

/// What the first `n` mention, the first `m` from `n` on mention too.
proof fn lemma_mentions_among_prefix(types: Seq<TypeView>, n: int, m: int)
    requires
        0 <= n <= m <= types.len(),
    ensures
        forall|x: TypeVar| mentions_among(types, n, x) ==> mentions_among(types, m, x),
    decreases m - n,
{
    if n < m {
        lemma_mentions_among_prefix(types, n, m - 1);
    }
}

/// What one of the first `n` mentions, one of them in particular mentions.
pub proof fn lemma_mentions_among_holds(types: Seq<TypeView>, x: TypeVar)
    requires
        mentions_among(types, types.len() as int, x),
    ensures
        exists|k: int| 0 <= k < types.len() && mentions(types[k], x),
{
    lemma_mentions_among_which(types, types.len() as int, x);
}

/// The same, for the first `n`.
proof fn lemma_mentions_among_which(types: Seq<TypeView>, n: int, x: TypeVar)
    requires
        0 <= n <= types.len(),
        mentions_among(types, n, x),
    ensures
        exists|k: int| 0 <= k < n && mentions(types[k], x),
    decreases n,
{
    if !mentions(types[n - 1], x) {
        lemma_mentions_among_which(types, n - 1, x);
    }
}

/// The one at `k` is mentioned among the first `n` past it.
pub proof fn lemma_mentions_among_at(types: Seq<TypeView>, k: int, n: int, x: TypeVar)
    requires
        0 <= k < n <= types.len(),
        mentions(types[k], x),
    ensures
        mentions_among(types, n, x),
    decreases n - k,
{
    if k < n - 1 {
        lemma_mentions_among_at(types, k, n - 1, x);
    }
}

/// A field waiting on the type it is reached through.
#[derive(Debug)]
pub struct Lookup {
    pub through: Type,
    pub field: Name,
    pub found: Type,
}

/// A variable of its own for each stand-in of `stand_ins`, numbered from `from` on.
pub open spec fn fresh_for(stand_ins: Seq<TypeView>, from: nat) -> Seq<(TypeView, TypeView)> {
    Seq::new(stand_ins.len(), |k: int| (stand_ins[k], TypeView::Var(TypeVar((from + k) as u32))))
}

/// The type `scheme` has at one use whose variables are numbered from `from` on.
pub open spec fn at_one_use_of(scheme: SchemeView, from: nat) -> TypeView {
    replaced(scheme.body, fresh_for(scheme.quantified, from))
}

/// The first module of `imported` offered under `module`, when one is.
pub open spec fn first_surface(imported: Imported, module: Seq<char>) -> Option<Surface> {
    let offers = imported.offers();
    if exists|k: int| 0 <= k < offers.len() && #[trigger] offers[k].0 == module {
        let k = choose|k: int|
            0 <= k < offers.len() && #[trigger] offers[k].0 == module && forall|j: int|
                0 <= j < k ==> offers[j].0 != module;
        Some(offers[k].1)
    } else {
        None
    }
}

/// What `surface` first offers under `name`, when it offers anything.
pub open spec fn first_offered(surface: Surface, name: Seq<char>) -> Option<Offered> {
    let functions = surface.spec_functions();
    if exists|k: int| 0 <= k < functions.len() && #[trigger] functions[k].0 == name {
        let k = choose|k: int|
            0 <= k < functions.len() && #[trigger] functions[k].0 == name && forall|j: int|
                0 <= j < k ==> functions[j].0 != name;
        Some(functions[k].1)
    } else {
        None
    }
}

/// Whether every function a module offers written once is over no stand-in, and mentions only
/// variables below `bound`.
pub open spec fn offers_plainly(imported: Imported, bound: nat) -> bool {
    forall|k: int, j: int|
        0 <= k < imported.offers().len() && 0 <= j < imported.offers()[k].1.spec_functions().len()
            ==> ((#[trigger] imported.offers()[k].1.spec_functions()[j]).1 matches Offered::Plain(scheme)
            ==> scheme.quantified@.len() == 0 && below(scheme.body@, bound))
}

/// Whether every type `environment` gives mentions only variables below `bound`, each record's
/// constructor has a type, its labels are no more than what it takes, and there is room for a
/// variable of its own for each of its stand-ins.
pub open spec fn holds_below(environment: EnvironmentView, bound: nat) -> bool {
    &&& forall|key| #[trigger] environment.values.contains_key(key) ==> below(environment.values[key].body, bound)
        && bound + environment.values[key].quantified.len() < u32::MAX
    &&& forall|name: Seq<char>| #[trigger] environment.records.contains_key(name) ==> {
        let key = environment.records[name];
        &&& environment.values.contains_key(key)
        &&& environment.labels.contains_key(key) ==> (environment.values[key].body matches TypeView::Function(
            parameters,
            _,
        ) && environment.labels[key].len() <= parameters.len())
    }
}

/// The labels of the constructor filed under `key`, none where it has none.
pub open spec fn labels_of(environment: EnvironmentView, key: crate::environment::key::KeyView) -> Seq<Seq<char>> {
    if environment.labels.contains_key(key) {
        environment.labels[key]
    } else {
        Seq::empty()
    }
}

/// Where the first label equal to `text` is among `labels`.
pub open spec fn first_index(labels: Seq<Seq<char>>, text: Seq<char>) -> Option<int> {
    if exists|k: int| 0 <= k < labels.len() && #[trigger] labels[k] == text {
        Some(
            choose|k: int|
                0 <= k < labels.len() && #[trigger] labels[k] == text && forall|j: int|
                    0 <= j < k ==> labels[j] != text,
        )
    } else {
        None
    }
}

/// The type `text` has inside `module`, when the module declares it: one the compiler supplies
/// answers by itself, and an imported one by a function it offers written once and naming no type
/// it keeps to itself.
pub open spec fn spec_inside(imported: Imported, module: Seq<char>, text: Seq<char>) -> Option<TypeView> {
    if module == IO@ || module == FILES@ {
        spec_declared(module, text)
    } else {
        match first_surface(imported, module) {
            Some(surface) => match first_offered(surface, text) {
                Some(Offered::Plain(scheme)) => if spec_named_by(surface.spec_declared(), scheme.body@) is None {
                    Some(scheme.body@)
                } else {
                    None
                },
                _ => None,
            },
            None => None,
        }
    }
}

/// Whether `module` declares nothing at all under `text`.
pub open spec fn declares_nothing(imported: Imported, module: Seq<char>, text: Seq<char>) -> bool {
    if module == IO@ || module == FILES@ {
        spec_declared(module, text) is None
    } else {
        first_surface(imported, module) matches Some(surface) ==> first_offered(surface, text) is None
    }
}

/// What a field named `text`, reached through a value of type `through`, is: the type the value
/// must be, where it is a record's, and the type the field has. Nothing where no field is there.
///
/// Through a module it is what the module declares under that name, where a module the compiler
/// supplies answers by itself and an imported one answers by a function it offers written once
/// and naming no type it keeps to itself. Through a record it is that record's constructor at one
/// use, whose variables are numbered from `made` on: the value is of the type it builds, and the
/// field has the type it takes at the field's label.
pub open spec fn spec_look_up(
    environment: EnvironmentView,
    imported: Imported,
    through: TypeView,
    text: Seq<char>,
    made: nat,
) -> Option<(Option<TypeView>, TypeView)> {
    match through {
        TypeView::Module(module) => match spec_inside(imported, module, text) {
            Some(declared) => Some((None, declared)),
            None => None,
        },
        TypeView::Named(name, _) => if environment.records.contains_key(name) {
            let key = environment.records[name];
            match at_one_use_of(environment.values[key], made) {
                TypeView::Function(parameters, result) => match first_index(labels_of(environment, key), text) {
                    Some(k) => Some((Some(*result), parameters[k])),
                    None => None,
                },
                _ => None,
            }
        } else {
            None
        },
        _ => None,
    }
}

/// The first module offered under a name is the one at the first place that name stands.
proof fn lemma_first_surface(imported: Imported, module: Seq<char>, k: int)
    requires
        0 <= k < imported.offers().len(),
        imported.offers()[k].0 == module,
        forall|j: int| 0 <= j < k ==> (#[trigger] imported.offers()[j]).0 != module,
    ensures
        first_surface(imported, module) == Some(imported.offers()[k].1),
{
    let offers = imported.offers();
    assert(offers[k].0 == module);
    let c = choose|c: int|
        0 <= c < offers.len() && #[trigger] offers[c].0 == module && forall|j: int|
            0 <= j < c ==> offers[j].0 != module;
    if c < k {
        assert(offers[c].0 != module);
    }
    if k < c {
        assert(offers[k].0 != module);
    }
}

/// What a module first offers under a name is what stands at the first place that name stands.
proof fn lemma_first_offered(surface: Surface, name: Seq<char>, k: int)
    requires
        0 <= k < surface.spec_functions().len(),
        surface.spec_functions()[k].0 == name,
        forall|j: int| 0 <= j < k ==> (#[trigger] surface.spec_functions()[j]).0 != name,
    ensures
        first_offered(surface, name) == Some(surface.spec_functions()[k].1),
{
    let functions = surface.spec_functions();
    assert(functions[k].0 == name);
    let c = choose|c: int|
        0 <= c < functions.len() && #[trigger] functions[c].0 == name && forall|j: int|
            0 <= j < c ==> functions[j].0 != name;
    if c < k {
        assert(functions[c].0 != name);
    }
    if k < c {
        assert(functions[k].0 != name);
    }
}

/// The type a loaded module gives `field`, when it offers one at all.
///
/// A function it writes once per set of types it is used at has no one type to offer, and one
/// whose signature names a type that module keeps to itself offers nothing this module can
/// write; both are refused where the field is written.
pub fn reached(table: &mut Table, imported: &Imported, module: &String, field: &Name) -> (found:
    Result<Option<Type>, TypeError>)
    requires
        old(table).well_formed(),
        old(table).made() < u32::MAX,
        offers_plainly(*imported, old(table).made()),
    ensures
        final(table).well_formed(),
        final(table).entries() == old(table).entries(),
        final(table).made() == old(table).made(),
        final(table).written() == old(table).written(),
        match found {
            Ok(Some(t)) => first_surface(*imported, module@) matches Some(surface) && first_offered(
                surface,
                field.text@,
            ) matches Some(Offered::Plain(scheme)) && spec_named_by(surface.spec_declared(), scheme.body@)
                is None && t@ == scheme.body@ && below(t@, old(table).made()),
            Ok(None) => first_surface(*imported, module@) matches Some(surface) ==> first_offered(
                surface,
                field.text@,
            ) is None,
            Err(error) => error.spec_span() == field.span && (first_surface(*imported, module@) matches Some(
                surface,
            ) && match first_offered(surface, field.text@) {
                Some(Offered::Generic) => error.spec_kind() matches TypeErrorKind::GenericThroughModule {
                    module: named,
                    name,
                } && named@ == module@ && name@ == field.text@,
                Some(Offered::Plain(scheme)) => spec_named_by(surface.spec_declared(), scheme.body@) matches Some(
                    kept,
                ) && error.spec_kind() matches TypeErrorKind::TypeOfAnotherModule {
                    module: named,
                    name,
                    declared,
                } && named@ == module@ && name@ == field.text@ && declared@ == kept,
                None => false,
            }),
        },
{
    let surface = match imported.surface(module.as_str()) {
        Some(surface) => surface,
        None => {
            return Ok(None);
        },
    };
    proof {
        let k = choose|k: int|
            0 <= k < imported.offers().len() && imported.offers()[k] == (module@, *surface) && forall|j: int|
                0 <= j < k ==> (#[trigger] imported.offers()[j]).0 != module@;
        lemma_first_surface(*imported, module@, k);
    }
    let offered = match surface.function(field.text.as_str()) {
        Some(offered) => offered,
        None => {
            return Ok(None);
        },
    };
    proof {
        let j = choose|j: int|
            0 <= j < surface.spec_functions().len() && surface.spec_functions()[j].0 == field.text@
                && surface.spec_functions()[j].1 == *offered && forall|i: int|
                0 <= i < j ==> surface.spec_functions()[i].0 != field.text@;
        lemma_first_offered(*surface, field.text@, j);
        let k = choose|k: int|
            0 <= k < imported.offers().len() && imported.offers()[k] == (module@, *surface) && forall|i: int|
                0 <= i < k ==> (#[trigger] imported.offers()[i]).0 != module@;
        assert(imported.offers()[k].1.spec_functions()[j] == surface.spec_functions()[j]);
    }
    let scheme = match offered {
        Offered::Generic => {
            let kind = TypeErrorKind::GenericThroughModule { module: module.clone(), name: field.text.clone() };
            return Err(TypeError::at(field.span, kind));
        },
        Offered::Plain(scheme) => scheme,
    };
    match surface.kept_to_itself(scheme) {
        Some(kept) => {
            let kind = TypeErrorKind::TypeOfAnotherModule {
                module: module.clone(),
                name: field.text.clone(),
                declared: kept,
            };
            return Err(TypeError::at(field.span, kind));
        },
        None => {},
    }
    let found = scheme.instantiate(table);
    proof {
        law_nothing_given(scheme.body@);
        assert(fresh_given(scheme.quantified@, old(table).made()) =~= Seq::empty());
    }
    Ok(Some(found))
}

/// What the compiler supplies mentions no variable at all.
proof fn lemma_declared_below(module: Seq<char>, name: Seq<char>, bound: nat)
    ensures
        spec_declared(module, name) matches Some(declared) ==> below(declared, bound),
{
    let string = crate::types::plain(crate::types::STRING@);
    assert forall|x: TypeVar| !mentions(string, x) by {
        assert(mentions(string, x) == mentions_among(Seq::<TypeView>::empty(), 0, x));
    }
    let taken = seq![string];
    assert forall|x: TypeVar| !mentions_among(taken, 1, x) by {
        assert(taken[0] == string);
        assert(mentions_among(taken, 1, x) == (mentions_among(taken, 0, x) || mentions(taken[0], x)));
    }
    let given_back = TypeView::Named(crate::types::RESULT@, seq![string, string]);
    assert forall|x: TypeVar| !mentions(given_back, x) by {
        let both = seq![string, string];
        assert(both[0] == string && both[1] == string);
        assert(mentions_among(both, 1, x) == (mentions_among(both, 0, x) || mentions(both[0], x)));
        assert(mentions_among(both, 2, x) == (mentions_among(both, 1, x) || mentions(both[1], x)));
    }
    let printed = TypeView::Function(taken, Box::new(TypeView::Unit));
    let read = TypeView::Function(taken, Box::new(given_back));
    assert(below(printed, bound)) by {
        assert forall|x: TypeVar| mentions(printed, x) implies x.0 < bound by {
            assert(taken.len() == 1);
            assert(!mentions_among(taken, 1, x));
            assert(!mentions(TypeView::Unit, x));
        }
    }
    assert(below(read, bound)) by {
        assert forall|x: TypeVar| mentions(read, x) implies x.0 < bound by {
            assert(taken.len() == 1);
            assert(!mentions_among(taken, 1, x));
            assert(!mentions(given_back, x));
        }
    }
}

/// A name reached inside a module, which the compiler supplies or loading read from a file, met
/// with `found`, the type it is used at.
pub fn inside(table: &mut Table, imported: &Imported, module: &String, field: &Name, found: &Type) -> (met:
    Result<(), TypeError>)
    requires
        old(table).well_formed(),
        old(table).made() < u32::MAX,
        offers_plainly(*imported, old(table).made()),
        old(table).holds_made(found@),
    ensures
        final(table).well_formed(),
        extends(final(table).entries(), old(table).entries()),
        final(table).made() == old(table).made(),
        final(table).written() == old(table).written(),
        met matches Err(error) ==> error.spec_span() == field.span,
        met is Ok ==> (spec_inside(*imported, module@, field.text@) matches Some(declared)
            && final(table).spec_solved(found@) == final(table).spec_solved(declared)),
        spec_inside(*imported, module@, field.text@) is None ==> met is Err,
        declares_nothing(*imported, module@, field.text@) ==> (met matches Err(error)
            && error.spec_kind() matches TypeErrorKind::NotInModule { module: named, name }
            && named@ == module@ && name@ == field.text@),
{
    proof {
        lemma_declared_below(module@, field.text@, table.made());
        assert(extends(table.entries(), table.entries())) by {
            assert(table.entries().take(table.entries().len() as int) =~= table.entries());
        }
    }
    let declared = if supplies(module.as_str()) {
        declared(module.as_str(), field.text.as_str())
    } else {
        reached(table, imported, module, field)?
    };
    let declared = match declared {
        Some(declared) => declared,
        None => {
            let kind = TypeErrorKind::NotInModule { module: module.clone(), name: field.text.clone() };
            return Err(TypeError::at(field.span, kind));
        },
    };
    expect(table, found, &declared, field.span)
}

/// The first place a label stands is where the first one equal to it stands.
pub proof fn lemma_first_index(labels: Seq<Seq<char>>, text: Seq<char>, k: int)
    requires
        0 <= k < labels.len(),
        labels[k] == text,
        forall|j: int| 0 <= j < k ==> labels[j] != text,
    ensures
        first_index(labels, text) == Some(k),
{
    let c = choose|c: int|
        0 <= c < labels.len() && #[trigger] labels[c] == text && forall|j: int|
            0 <= j < c ==> labels[j] != text;
    if c < k {
        assert(labels[c] != text);
    }
    if k < c {
        assert(labels[k] != text);
    }
}

/// A field, looked up now that the type it is reached through is known.
///
/// Through a module it is whatever the module declares under its name. Through a record it is
/// the record's constructor at one use: what the field is reached through is met with the record
/// that constructor builds, and the field with what the constructor takes at its label. Anything
/// else has no fields, and a type nothing settled has none that can be named yet.
pub fn look_up(table: &mut Table, environment: &Environment, imported: &Imported, lookup: &Lookup) -> (met:
    Result<(), TypeError>)
    requires
        old(table).well_formed(),
        old(table).made() < u32::MAX,
        offers_plainly(*imported, old(table).made()),
        holds_below(environment@, old(table).made()),
        old(table).holds_made(lookup.through@),
        old(table).holds_made(lookup.found@),
    ensures
        final(table).well_formed(),
        extends(final(table).entries(), old(table).entries()),
        final(table).written() == old(table).written(),
        old(table).made() <= final(table).made(),
        met matches Err(error) ==> error.spec_span() == lookup.field.span,
        met is Ok ==> (spec_look_up(
            environment@,
            *imported,
            old(table).spec_solved(lookup.through@),
            lookup.field.text@,
            old(table).made(),
        ) matches Some((held, field_type)) && final(table).spec_solved(lookup.found@)
            == final(table).spec_solved(field_type) && (held matches Some(record) ==> final(
            table).spec_solved(lookup.through@) == final(table).spec_solved(record))),
        spec_look_up(
            environment@,
            *imported,
            old(table).spec_solved(lookup.through@),
            lookup.field.text@,
            old(table).made(),
        ) is None ==> met is Err,
        ({
            let reached = old(table).spec_solved(lookup.through@);
            &&& (!(reached is Module) && !(reached is Named && environment@.records.contains_key(
                reached->Named_0,
            ))) ==> (met matches Err(error) && (reached is Var
                ==> error.spec_kind() == TypeErrorKind::UnknownReceiver(lookup.field.text)) && (!(reached is Var)
                ==> (error.spec_kind() matches TypeErrorKind::UnknownField { of, field: named } && of@ == reached
                && named@ == lookup.field.text@)))
            &&& (reached is Module && declares_nothing(*imported, reached->Module_0, lookup.field.text@))
                ==> (met matches Err(error) && error.spec_kind() matches TypeErrorKind::NotInModule {
                module: named,
                name,
            } && named@ == reached->Module_0 && name@ == lookup.field.text@)
            &&& (reached is Named && spec_look_up(
                environment@,
                *imported,
                reached,
                lookup.field.text@,
                old(table).made(),
            ) is Some && met is Err) ==> (met->Err_0.spec_kind() == TypeErrorKind::Infinite
                || met->Err_0.spec_kind() is Mismatch)
        }),
{
    let through = table.solved(&lookup.through);
    let field = &lookup.field;
    let ghost start = *table;
    let ghost m0 = table.made();
    proof {
        assert(extends(start.entries(), start.entries())) by {
            assert(start.entries().take(start.entries().len() as int) =~= start.entries());
        }
    }
    let name = match &through {
        Type::Module(module) => {
            return inside(table, imported, module, field, &lookup.found);
        },
        Type::Named { name, .. } => name,
        _ => {
            return Err(unreachable_field(&through, field));
        },
    };
    let key = match environment.record(name) {
        Some(key) => key,
        None => {
            return Err(unreachable_field(&through, field));
        },
    };
    let labels = environment.labels(key);
    let scheme = environment.scheme(key).unwrap();
    let ghost view = scheme_view(*scheme);
    proof {
        assert(below(view.body, m0));
        assert(view.quantified == stand_ins(scheme.quantified@));
        assert(m0 + view.quantified.len() < u32::MAX);
    }
    let instantiated = scheme.instantiate(table);
    let ghost m1 = table.made();
    proof {
        let given = fresh_given(scheme.quantified@, m0);
        assert(given =~= fresh_for(view.quantified, m0));
        assert(gives_below(given, m1)) by {
            assert forall|k: int| 0 <= k < given.len() implies below(#[trigger] given[k].1, m1) by {
                assert forall|x: TypeVar| mentions(given[k].1, x) implies x.0 < m1 by {}
            }
        }
        assert(below(view.body, m1));
        lemma_replaced_below(view.body, given, m1);
        assert(instantiated@ == at_one_use_of(view, m0));
    }
    let (parameters, result) = match instantiated {
        Type::Function { parameters, result } => (parameters, result),
        _ => {
            return Err(unreachable_field(&through, field));
        },
    };
    proof {
        lemma_views_of(parameters@);
        assert forall|x: TypeVar| mentions(result@, x) implies x.0 < m1 by {
            assert(mentions(instantiated@, x));
        }
        assert(table.holds_made(lookup.through@));
    }
    let ghost before_first = *table;
    let first = expect(table, &lookup.through, &result, field.span);
    proof {
        lemma_extends_trans(table.entries(), before_first.entries(), start.entries());
        table.lemma_well_formed();
        start.lemma_well_formed();
        lemma_extends(table.entries(), table.rank(), start.entries(), start.rank(), lookup.through@);
    }
    if let Err(error) = first {
        return Err(error);
    }
    let solved_result = table.solved(&result);
    let index = match labelled(&labels, field, &solved_result) {
        Ok(index) => index,
        Err(error) => {
            proof {
                assert forall|k: int| 0 <= k < texts(labels@).len() implies texts(labels@)[k] != field.text@ by {
                    assert(texts(labels@)[k] == labels@[k]@);
                }
            }
            return Err(error);
        },
    };
    proof {
        assert(texts(labels@)[index as int] == labels@[index as int]@);
        assert forall|j: int| 0 <= j < index implies texts(labels@)[j] != field.text@ by {
            assert(texts(labels@)[j] == labels@[j]@);
        }
        lemma_first_index(texts(labels@), field.text@, index as int);
        assert(environment@.labels.contains_key(key@));
        lemma_replaced_among(view.body->Function_0, fresh_given(scheme.quantified@, m0), (view.body->Function_0).len() as int);
        assert(index < parameters@.len());
        assert forall|x: TypeVar| mentions(parameters@[index as int]@, x) implies x.0 < m1 by {
            lemma_mentions_among_at(views_of(parameters@), index as int, parameters@.len() as int, x);
            assert(mentions(instantiated@, x));
        }
    }
    let ghost before_second = *table;
    let second = expect(table, &lookup.found, &parameters[index], field.span);
    proof {
        lemma_extends_trans(table.entries(), before_second.entries(), start.entries());
        if second is Ok {
            crate::laws::law_unified_stays_unified(*table, before_second, lookup.through@, result@);
        }
    }
    second
}

/// A table that extends one that extends a third extends the third.
proof fn lemma_extends_trans(
    last: crate::table::Entries,
    middle: crate::table::Entries,
    first: crate::table::Entries,
)
    requires
        extends(last, middle),
        extends(middle, first),
    ensures
        extends(last, first),
{
    assert(last.take(first.len() as int) =~= last.take(middle.len() as int).take(first.len() as int));
}

} // verus!
