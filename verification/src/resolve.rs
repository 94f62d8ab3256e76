//! The walk: every name of a module, pointed at the definition it means.
use vstd::prelude::*;
use vstd::string::*;

use crate::ast::{Name, Path, Program};
use crate::library::PRELUDE;
use crate::order::{declarations_of, lemma_nothing_declared, out_of_order, spec_out_of_order};
use crate::resolve::program::ResolvedProgram;
use crate::definition::{Definition, DefinitionKind, Definitions, Namespace, Origin};
use crate::error::{ResolveError, ResolveErrorKind};
use crate::prelude;
use crate::prelude::Supplied;
use crate::scope::Scope;
use crate::text::texts;

pub mod model;
pub mod pattern;
pub mod program;
pub mod traits;
pub mod walk;


verus! {

/// Resolves every name of `program`, the module called `module`, against the names `prelude`
/// supplies, or reports the first one that has no definition.
///
/// The refusal is the first name that names nothing, is declared twice, or hides something in
/// scope, and then the first declaration written above something that uses it.
pub fn resolve(program: Program, module: &str, prelude: &Program) -> (resolved: Result<
    ResolvedProgram,
    ResolveError,
>)
    ensures
        crate::resolve::model::resolves_as(resolved, program, module@, crate::resolve::model::spec_start(*prelude)),
        resolved matches Ok(found) ==> {
            &&& found.spec_program() == program
            &&& found.spec_module() == module@
            &&& spec_out_of_order(declarations_of(program.items@), found.spec_definitions()) is None
        },
        program.items@.len() == 0 ==> resolved is Ok,
{
    let mut resolver = Resolver::new(prelude);
    resolver.module(&program)?;
    checked(program, String::from_str(module), resolver.definitions)
}

/// The prelude, resolved against the names the JVM holds and the functions the compiler holds
/// for it, in place of the names it supplies to every other module.
pub fn prelude_resolved(prelude: Program) -> (resolved: Result<ResolvedProgram, ResolveError>)
    ensures
        crate::resolve::model::resolves_as(resolved, prelude, PRELUDE@, crate::resolve::model::prelude_start()),
        resolved matches Ok(found) ==> {
            &&& found.spec_program() == prelude
            &&& found.spec_module() == PRELUDE@
            &&& spec_out_of_order(declarations_of(prelude.items@), found.spec_definitions()) is None
        },
        prelude.items@.len() == 0 ==> resolved is Ok,
{
    let mut resolver = Resolver::of_the_prelude();
    resolver.module(&prelude)?;
    checked(prelude, String::from_str(PRELUDE), resolver.definitions)
}

/// A program whose names all resolved, refused where a declaration is written above what uses it.
fn checked(program: Program, module: String, definitions: Definitions) -> (resolved: Result<
    ResolvedProgram,
    ResolveError,
>)
    requires
        definitions.well_formed(),
    ensures
        match spec_out_of_order(declarations_of(program.items@), definitions@) {
            Some(pair) => resolved matches Err(error) && crate::resolve::model::written_above(
                error,
                declarations_of(program.items@),
                pair,
            ),
            None => resolved matches Ok(found) && found.spec_program() == program
                && found.spec_module() == module@ && found.spec_definitions() == definitions@,
        },
        program.items@.len() == 0 ==> resolved is Ok,
{
    proof {
        if program.items@.len() == 0 {
            assert(declarations_of(program.items@) =~= Seq::empty());
            lemma_nothing_declared(definitions@);
        }
    }
    match out_of_order(&program, &definitions) {
        Some(error) => Err(error),
        None => Ok(ResolvedProgram::new(module, program, definitions)),
    }
}

/// What resolving one thing amounts to: it worked, or it is the one error of the run.
pub type Resolved = Result<(), ResolveError>;

/// The two scopes and what has been resolved into them so far.
pub(crate) struct Resolver {
    pub(crate) types: Scope,
    pub(crate) values: Scope,
    pub(crate) definitions: Definitions,
    /// Every trait that has an instance for a type, which is what a second one is refused by.
    pub(crate) instances: Vec<(String, String)>,
    /// The methods each trait this module declares declares, which its instances must write.
    pub(crate) declared_traits: Vec<(String, Vec<String>)>,
    /// The traits the prelude declares, which an instance of one of them is read against.
    pub(crate) prelude_traits: Vec<Supplied>,
}

/// Where a name is written, which is what decides whether it must name a value.
#[derive(Clone, Copy, PartialEq, Eq, Structural)]
pub enum Position {
    /// Anywhere a value belongs, which is neither a function nor a module.
    Value,
    /// The name of a call, which is the one place a function name is written.
    Callee,
    /// The left of a `.`, which is the one place a module name is written.
    Receiver,
}

impl Position {
    /// Whether a name defined as `kind` belongs here beyond an ordinary value.
    pub open spec fn spec_takes(self, kind: DefinitionKind) -> bool {
        match self {
            Position::Value => false,
            Position::Callee => kind == DefinitionKind::Function || kind
                == DefinitionKind::TraitMethod,
            Position::Receiver => kind == DefinitionKind::Module,
        }
    }

    /// Whether a name defined as `kind` belongs here beyond an ordinary value.
    pub fn takes(self, kind: DefinitionKind) -> (takes: bool)
        ensures
            takes == self.spec_takes(kind),
    {
        match self {
            Position::Value => false,
            Position::Callee => matches!(kind, DefinitionKind::Function | DefinitionKind::TraitMethod),
            Position::Receiver => matches!(kind, DefinitionKind::Module),
        }
    }
}

/// The kind of definition a binding makes, which is what decides whether it may change.
pub open spec fn spec_bound(mutability: crate::ast::Mutability) -> DefinitionKind {
    match mutability {
        crate::ast::Mutability::Immutable => DefinitionKind::Local,
        crate::ast::Mutability::Mutable => DefinitionKind::Variable,
    }
}

/// The kind of definition a binding makes, which is what decides whether it may change.
pub fn bound(mutability: crate::ast::Mutability) -> (kind: DefinitionKind)
    ensures
        kind == spec_bound(mutability),
{
    match mutability {
        crate::ast::Mutability::Immutable => DefinitionKind::Local,
        crate::ast::Mutability::Mutable => DefinitionKind::Variable,
    }
}

/// What a name in `scope` means, recorded against the namespace and the place it is written.
pub fn use_name(scope: &Scope, found: &mut Definitions, name: &Name) -> (resolved: Resolved)
    requires
        old(found).well_formed(),
    ensures
        final(found).well_formed(),
        match scope.meaning(name.text@) {
            Some(definition) => resolved is Ok && final(found)@ == old(found)@.insert(
                (scope.spec_namespace(), name.span),
                definition,
            ),
            None => resolved is Err && final(found)@ == old(found)@ && resolved->Err_0
                == ResolveError {
                kind: match scope.spec_namespace() {
                    Namespace::Value => ResolveErrorKind::NoValue(name.text),
                    Namespace::Type => ResolveErrorKind::NoType(name.text),
                },
                span: name.span,
            },
        },
{
    match scope.look_up(&name.text) {
        Some(definition) => {
            found.insert(scope.namespace(), name.span, definition);
            Ok(())
        },
        None => {
            let kind = ResolveErrorKind::missing(scope.namespace(), &name.text);
            Err(ResolveError::at(name, kind))
        },
    }
}

/// Declares `name` in `scope`, and points the name at the definition it has just made.
pub fn introduce(scope: &mut Scope, found: &mut Definitions, name: &Name, kind: DefinitionKind) -> (resolved: Resolved)
    requires
        old(scope).well_formed(),
        old(found).well_formed(),
    ensures
        final(scope).well_formed(),
        final(found).well_formed(),
        final(scope).spec_namespace() == old(scope).spec_namespace(),
        final(scope).layers().len() == old(scope).layers().len(),
        final(scope).layers().drop_last() == old(scope).layers().drop_last(),
        match old(scope).meaning(name.text@) {
            None => {
                let definition = Definition { kind, origin: Origin::Declared(name.span) };
                &&& resolved is Ok
                &&& final(scope).layers() == old(scope).layers().drop_last().push(
                    old(scope).innermost().push((name.text@, definition)),
                )
                &&& final(found)@ == old(found)@.insert(
                    (old(scope).spec_namespace(), name.span),
                    definition,
                )
            },
            Some(_) => {
                &&& resolved is Err
                &&& final(scope).layers() == old(scope).layers()
                &&& final(found)@ == old(found)@
                &&& resolved->Err_0 == ResolveError {
                    kind: if crate::scope::layer_look_up(old(scope).innermost(), name.text@) is Some {
                        ResolveErrorKind::DeclaredTwice(name.text)
                    } else {
                        ResolveErrorKind::Shadowed(name.text)
                    },
                    span: name.span,
                }
            },
        },
{
    let namespace = scope.namespace();
    match scope.introduce(name, kind) {
        Ok(()) => {
            found.insert(namespace, name.span, Definition { kind, origin: Origin::Declared(name.span) });
            Ok(())
        },
        Err(clash) => Err(ResolveError::at(name, ResolveErrorKind::of(clash, &name.text))),
    }
}

/// Whether `definition` names a constructor.
pub open spec fn is_constructor(definition: Option<Definition>) -> bool {
    definition matches Some(found) && found.kind == DefinitionKind::Constructor
}

impl Resolver {
    /// Both scopes hold a layer, each is the namespace it is named for, and the table of
    /// definitions records each place once.
    pub(crate) open spec fn well_formed(&self) -> bool {
        &&& self.types.well_formed()
        &&& self.values.well_formed()
        &&& self.types.spec_namespace() == Namespace::Type
        &&& self.values.spec_namespace() == Namespace::Value
        &&& self.definitions.well_formed()
    }

    /// Neither scope holds anything it did not hold before.
    pub(crate) open spec fn same_scopes(&self, other: &Resolver) -> bool {
        &&& self.types.layers() == other.types.layers()
        &&& self.values.layers() == other.values.layers()
    }

    /// The value scope has changed in its innermost layer alone, and the type scope not at all.
    pub(crate) open spec fn grown_inside(&self, before: &Resolver) -> bool {
        &&& self.types.layers() == before.types.layers()
        &&& self.values.layers().len() == before.values.layers().len()
        &&& self.values.layers().drop_last() == before.values.layers().drop_last()
    }

    /// A resolver holding the names the prelude gives every module: its types and traits, its
    /// constructors, functions, and methods, and the instances it already has.
    pub(crate) fn new(prelude: &Program) -> (resolver: Resolver)
        ensures
            resolver.well_formed(),
            resolver.types.layers().len() == 1,
            resolver.values.layers().len() == 1,
            resolver.definitions@ == Map::<(Namespace, crate::ast::Span), Definition>::empty(),
            resolver.walk() == crate::resolve::model::spec_start(*prelude),
    {
        let mut types_supplied: Vec<(Vec<String>, DefinitionKind)> = Vec::new();
        types_supplied.push((prelude::types(prelude), DefinitionKind::Type));
        types_supplied.push((prelude::trait_names(prelude), DefinitionKind::Trait));
        let mut values_supplied: Vec<(Vec<String>, DefinitionKind)> = Vec::new();
        values_supplied.push((prelude::constructors(prelude), DefinitionKind::Constructor));
        values_supplied.push((prelude::functions(prelude), DefinitionKind::Function));
        values_supplied.push((prelude::method_names(prelude), DefinitionKind::TraitMethod));
        let ghost start = crate::resolve::model::spec_start(*prelude);
        proof {
            assert(crate::scope::supplied_view(types_supplied@) =~= seq![
                (texts(types_supplied@[0].0@), DefinitionKind::Type),
                (texts(types_supplied@[1].0@), DefinitionKind::Trait),
            ]);
            assert(crate::scope::supplied_view(values_supplied@) =~= seq![
                (texts(values_supplied@[0].0@), DefinitionKind::Constructor),
                (texts(values_supplied@[1].0@), DefinitionKind::Function),
                (texts(values_supplied@[2].0@), DefinitionKind::TraitMethod),
            ]);
        }
        let resolver = Resolver {
            types: Scope::of_prelude(Namespace::Type, types_supplied),
            values: Scope::of_prelude(Namespace::Value, values_supplied),
            definitions: Definitions::new(),
            instances: prelude::instances(prelude),
            declared_traits: Vec::new(),
            prelude_traits: prelude::supplied_traits(prelude),
        };
        proof {
            assert(resolver.walk().declared =~= start.declared);
            assert(resolver.walk().supplied =~= start.supplied);
            assert(resolver.walk().claims =~= start.claims);
            assert(resolver.walk().found =~= start.found);
        }
        resolver
    }

    /// A resolver for the prelude itself, which is resolved against what the JVM holds: its four
    /// types, `todo`, and the two functions the compiler holds for it.
    ///
    /// The prelude declares what every other module's scope is seeded with, so it cannot be
    /// resolved against that scope: every name it writes would already be in it.
    pub(crate) fn of_the_prelude() -> (resolver: Resolver)
        ensures
            resolver.walk() == crate::resolve::model::prelude_start(),
            resolver.well_formed(),
            resolver.types.layers().len() == 1,
            resolver.values.layers().len() == 1,
            resolver.definitions@ == Map::<(Namespace, crate::ast::Span), Definition>::empty(),
    {
        let mut types_supplied: Vec<(Vec<String>, DefinitionKind)> = Vec::new();
        types_supplied.push((owned(prelude::held()), DefinitionKind::Type));
        let mut functions = owned(prelude::supplied());
        let mut held = owned(prelude::held_for(crate::library::PRELUDE));
        let ghost first = functions@;
        let ghost second = held@;
        functions.append(&mut held);
        proof {
            assert(functions@ == first + second);
            assert(texts(functions@) =~= texts(first) + texts(second));
        }
        let mut values_supplied: Vec<(Vec<String>, DefinitionKind)> = Vec::new();
        values_supplied.push((functions, DefinitionKind::Function));
        let ghost start = crate::resolve::model::prelude_start();
        proof {
            assert(crate::scope::supplied_view(types_supplied@) =~= seq![
                (texts(types_supplied@[0].0@), DefinitionKind::Type),
            ]);
            assert(crate::scope::supplied_view(values_supplied@) =~= seq![
                (texts(values_supplied@[0].0@), DefinitionKind::Function),
            ]);
        }
        let resolver = Resolver {
            types: Scope::of_prelude(Namespace::Type, types_supplied),
            values: Scope::of_prelude(Namespace::Value, values_supplied),
            definitions: Definitions::new(),
            instances: Vec::new(),
            declared_traits: Vec::new(),
            prelude_traits: Vec::new(),
        };
        proof {
            assert(resolver.walk().declared =~= start.declared);
            assert(resolver.walk().supplied =~= start.supplied);
            assert(resolver.walk().claims =~= start.claims);
            assert(resolver.walk().found =~= start.found);
        }
        resolver
    }

    pub(crate) fn use_value(&mut self, name: &Name) -> (resolved: Resolved)
        requires
            old(self).well_formed(),
        ensures
            crate::resolve::model::outcome(resolved, final(self).walk(), crate::resolve::model::spec_use_value(old(self).walk(), *name)),
            final(self).well_formed(),
            final(self).same_scopes(old(self)),
            final(self).instances@ == old(self).instances@,
            final(self).declared_traits@ == old(self).declared_traits@,
            final(self).prelude_traits@ == old(self).prelude_traits@,
            match old(self).values.meaning(name.text@) {
                Some(definition) => resolved is Ok && final(self).definitions@
                    == old(self).definitions@.insert((Namespace::Value, name.span), definition),
                None => resolved == Err::<(), ResolveError>(
                    ResolveError { kind: ResolveErrorKind::NoValue(name.text), span: name.span },
                ) && final(self).definitions@ == old(self).definitions@,
            },
    {
        use_name(&self.values, &mut self.definitions, name)
    }

    pub(crate) fn use_type(&mut self, name: &Name) -> (resolved: Resolved)
        requires
            old(self).well_formed(),
        ensures
            crate::resolve::model::outcome(resolved, final(self).walk(), crate::resolve::model::spec_use_type(old(self).walk(), *name)),
            final(self).well_formed(),
            final(self).same_scopes(old(self)),
            final(self).instances@ == old(self).instances@,
            final(self).declared_traits@ == old(self).declared_traits@,
            final(self).prelude_traits@ == old(self).prelude_traits@,
            match old(self).types.meaning(name.text@) {
                Some(definition) => resolved is Ok && final(self).definitions@
                    == old(self).definitions@.insert((Namespace::Type, name.span), definition),
                None => resolved == Err::<(), ResolveError>(
                    ResolveError { kind: ResolveErrorKind::NoType(name.text), span: name.span },
                ) && final(self).definitions@ == old(self).definitions@,
            },
    {
        use_name(&self.types, &mut self.definitions, name)
    }

    pub(crate) fn introduce_value(&mut self, name: &Name, kind: DefinitionKind) -> (resolved: Resolved)
        requires
            old(self).well_formed(),
        ensures
            crate::resolve::model::outcome(resolved, final(self).walk(), crate::resolve::model::spec_introduce_value(old(self).walk(), *name, kind)),
            final(self).well_formed(),
            final(self).grown_inside(old(self)),
            final(self).instances@ == old(self).instances@,
            final(self).declared_traits@ == old(self).declared_traits@,
            final(self).prelude_traits@ == old(self).prelude_traits@,
            match old(self).values.meaning(name.text@) {
                None => {
                    let definition = Definition { kind, origin: Origin::Declared(name.span) };
                    &&& resolved is Ok
                    &&& final(self).values.layers() == old(self).values.layers().drop_last().push(
                        old(self).values.innermost().push((name.text@, definition)),
                    )
                    &&& final(self).definitions@ == old(self).definitions@.insert(
                        (Namespace::Value, name.span),
                        definition,
                    )
                },
                Some(_) => {
                    &&& resolved is Err
                    &&& final(self).same_scopes(old(self))
                    &&& final(self).definitions@ == old(self).definitions@
                    &&& resolved->Err_0 == ResolveError {
                        kind: if crate::scope::layer_look_up(
                            old(self).values.innermost(),
                            name.text@,
                        ) is Some {
                            ResolveErrorKind::DeclaredTwice(name.text)
                        } else {
                            ResolveErrorKind::Shadowed(name.text)
                        },
                        span: name.span,
                    }
                },
            },
    {
        introduce(&mut self.values, &mut self.definitions, name, kind)
    }

    pub(crate) fn introduce_type(&mut self, name: &Name, kind: DefinitionKind) -> (resolved: Resolved)
        requires
            old(self).well_formed(),
        ensures
            crate::resolve::model::outcome(resolved, final(self).walk(), crate::resolve::model::spec_introduce_type(old(self).walk(), *name, kind)),
            final(self).well_formed(),
            final(self).values.layers() == old(self).values.layers(),
            final(self).types.layers().len() == old(self).types.layers().len(),
            final(self).types.layers().drop_last() == old(self).types.layers().drop_last(),
            final(self).instances@ == old(self).instances@,
            final(self).declared_traits@ == old(self).declared_traits@,
            final(self).prelude_traits@ == old(self).prelude_traits@,
            match old(self).types.meaning(name.text@) {
                None => {
                    let definition = Definition { kind, origin: Origin::Declared(name.span) };
                    &&& resolved is Ok
                    &&& final(self).types.layers() == old(self).types.layers().drop_last().push(
                        old(self).types.innermost().push((name.text@, definition)),
                    )
                    &&& final(self).definitions@ == old(self).definitions@.insert(
                        (Namespace::Type, name.span),
                        definition,
                    )
                },
                Some(_) => {
                    &&& resolved is Err
                    &&& final(self).same_scopes(old(self))
                    &&& final(self).definitions@ == old(self).definitions@
                    &&& resolved->Err_0 == ResolveError {
                        kind: if crate::scope::layer_look_up(
                            old(self).types.innermost(),
                            name.text@,
                        ) is Some {
                            ResolveErrorKind::DeclaredTwice(name.text)
                        } else {
                            ResolveErrorKind::Shadowed(name.text)
                        },
                        span: name.span,
                    }
                },
            },
    {
        introduce(&mut self.types, &mut self.definitions, name, kind)
    }

    /// A type as a type is written, refusing a trait, which names what a type can do and is none.
    pub(crate) fn named_type(&mut self, name: &Name) -> (resolved: Resolved)
        requires
            old(self).well_formed(),
        ensures
            crate::resolve::model::outcome(resolved, final(self).walk(), crate::resolve::model::spec_named_type(old(self).walk(), *name)),
            final(self).well_formed(),
            final(self).same_scopes(old(self)),
            final(self).instances@ == old(self).instances@,
            final(self).declared_traits@ == old(self).declared_traits@,
            final(self).prelude_traits@ == old(self).prelude_traits@,
            match old(self).types.meaning(name.text@) {
                Some(definition) => {
                    &&& final(self).definitions@ == old(self).definitions@.insert(
                        (Namespace::Type, name.span),
                        definition,
                    )
                    &&& if definition.kind == DefinitionKind::Trait {
                        resolved == Err::<(), ResolveError>(
                            ResolveError {
                                kind: ResolveErrorKind::TraitAsType(name.text),
                                span: name.span,
                            },
                        )
                    } else {
                        resolved is Ok
                    }
                },
                None => resolved == Err::<(), ResolveError>(
                    ResolveError { kind: ResolveErrorKind::NoType(name.text), span: name.span },
                ) && final(self).definitions@ == old(self).definitions@,
            },
    {
        self.use_type(name)?;
        match self.types.look_up(&name.text) {
            Some(found) => {
                if found.kind == DefinitionKind::Trait {
                    return Err(ResolveError::at(name, ResolveErrorKind::TraitAsType(name.text.clone())));
                }
                Ok(())
            },
            None => Ok(()),
        }
    }

    /// The module a path is reached through, which is a name in scope and has to be a module.
    ///
    /// Nothing after the dot is resolved here: what that module declares is what answers it.
    pub(crate) fn reached_through(&mut self, module: &Name) -> (resolved: Resolved)
        requires
            old(self).well_formed(),
        ensures
            crate::resolve::model::outcome(resolved, final(self).walk(), crate::resolve::model::spec_reached_through(old(self).walk(), *module)),
            final(self).well_formed(),
            final(self).same_scopes(old(self)),
            final(self).instances@ == old(self).instances@,
            final(self).declared_traits@ == old(self).declared_traits@,
            final(self).prelude_traits@ == old(self).prelude_traits@,
            match old(self).values.meaning(module.text@) {
                Some(definition) => {
                    &&& final(self).definitions@ == old(self).definitions@.insert(
                        (Namespace::Value, module.span),
                        definition,
                    )
                    &&& if definition.kind == DefinitionKind::Module {
                        resolved is Ok
                    } else {
                        resolved == Err::<(), ResolveError>(
                            ResolveError {
                                kind: ResolveErrorKind::NotAModule(module.text),
                                span: module.span,
                            },
                        )
                    }
                },
                None => resolved == Err::<(), ResolveError>(
                    ResolveError { kind: ResolveErrorKind::NoValue(module.text), span: module.span },
                ) && final(self).definitions@ == old(self).definitions@,
            },
    {
        self.use_value(module)?;
        match self.values.look_up(&module.text) {
            Some(found) => {
                if found.kind == DefinitionKind::Module {
                    return Ok(());
                }
                Err(ResolveError::at(module, ResolveErrorKind::NotAModule(module.text.clone())))
            },
            None => Err(ResolveError::at(module, ResolveErrorKind::NotAModule(module.text.clone()))),
        }
    }

    /// The name a value is built with, which is this module's constructor or another module's.
    pub(crate) fn built_as(&mut self, path: &Path) -> (resolved: Resolved)
        requires
            old(self).well_formed(),
        ensures
            crate::resolve::model::outcome(resolved, final(self).walk(), crate::resolve::model::spec_built_as(old(self).walk(), *path)),
            final(self).well_formed(),
            final(self).same_scopes(old(self)),
            final(self).instances@ == old(self).instances@,
            final(self).declared_traits@ == old(self).declared_traits@,
            final(self).prelude_traits@ == old(self).prelude_traits@,
            match path.module {
                Some(module) => match old(self).values.meaning(module.text@) {
                    Some(definition) => if definition.kind == DefinitionKind::Module {
                        resolved is Ok
                    } else {
                        resolved == Err::<(), ResolveError>(
                            ResolveError {
                                kind: ResolveErrorKind::NotAModule(module.text),
                                span: module.span,
                            },
                        )
                    },
                    None => resolved == Err::<(), ResolveError>(
                        ResolveError { kind: ResolveErrorKind::NoValue(module.text), span: module.span },
                    ),
                },
                None => match old(self).values.meaning(path.name.text@) {
                    Some(definition) => resolved is Ok && final(self).definitions@
                        == old(self).definitions@.insert(
                        (Namespace::Value, path.name.span),
                        definition,
                    ),
                    None => resolved == Err::<(), ResolveError>(
                        ResolveError {
                            kind: ResolveErrorKind::NoValue(path.name.text),
                            span: path.name.span,
                        },
                    ),
                },
            },
    {
        match &path.module {
            Some(module) => self.reached_through(module),
            None => self.use_value(&path.name),
        }
    }
}

/// The names a vector of string slices holds, as owned strings.
fn owned(names: Vec<&'static str>) -> (owned: Vec<String>)
    ensures
        crate::text::texts(owned@) == crate::text::slice_texts(names@),
{
    let mut owned: Vec<String> = Vec::new();
    let mut i: usize = 0;
    while i < names.len()
        invariant
            i <= names@.len(),
            owned@.len() == i,
            forall|k: int| 0 <= k < i ==> owned@[k]@ == names@[k]@,
        decreases names.len() - i,
    {
        owned.push(String::from_str(names[i]));
        i = i + 1;
    }
    assert(crate::text::texts(owned@) =~= crate::text::slice_texts(names@));
    owned
}

} // verus!
