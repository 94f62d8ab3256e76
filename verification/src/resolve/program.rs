//! What the walk yields: a program whose every name points at the definition it means.
use vstd::prelude::*;

use crate::ast::{Expr, ExprKind, Name, Program, Span};
use crate::definition::{entries_map, keys_unique, Definition, DefinitionKind, Definitions, Namespace};

verus! {

/// A program whose every name points at the definition it means.
pub struct ResolvedProgram {
    /// The name this module is reached by, which says what the compiler holds for it.
    module: String,
    program: Program,
    definitions: Definitions,
}

impl ResolvedProgram {
    /// The name of the module.
    pub closed spec fn spec_module(&self) -> Seq<char> {
        self.module@
    }

    /// The tree that was resolved.
    pub closed spec fn spec_program(&self) -> Program {
        self.program
    }

    /// What each name written at each place means.
    pub closed spec fn spec_definitions(&self) -> Map<(Namespace, Span), Definition> {
        self.definitions@
    }

    /// Each place is recorded once.
    #[verifier::type_invariant]
    spec fn well_formed(self) -> bool {
        self.definitions.well_formed()
    }

    /// The program `module` names, with the definition of every name in it.
    pub(crate) fn new(module: String, program: Program, definitions: Definitions) -> (resolved:
        ResolvedProgram)
        requires
            definitions.well_formed(),
        ensures
            resolved.spec_module() == module@,
            resolved.spec_program() == program,
            resolved.spec_definitions() == definitions@,
    {
        ResolvedProgram { module, program, definitions }
    }

    /// The tree this was resolved from.
    pub fn program(&self) -> (program: &Program)
        ensures
            *program == self.spec_program(),
    {
        &self.program
    }

    /// The name of the module this is, which is the name a file or the library gives it.
    pub fn module(&self) -> (module: &str)
        ensures
            module@ == self.spec_module(),
    {
        self.module.as_str()
    }

    /// The module a `.` reaches inside, where the name written before the dot names one.
    ///
    /// The name before the dot says what the dot does, and every phase after this one has to
    /// read it the same way: a module is reached inside, and anything else is passed in front of
    /// the name or read as a field.
    pub fn module_reached<'w>(&self, receiver: &'w Expr) -> (module: Option<&'w Name>)
        ensures
            module == match receiver.kind {
                ExprKind::Name(name) => if self.spec_definitions().contains_key(
                    (Namespace::Value, name.span),
                ) && self.spec_definitions()[(Namespace::Value, name.span)].kind
                    == DefinitionKind::Module {
                    Some(&name)
                } else {
                    None
                },
                _ => None,
            },
    {
        proof {
            use_type_invariant(self);
        }
        match &receiver.kind {
            ExprKind::Name(name) => {
                match self.definition(Namespace::Value, name) {
                    Some(definition) => {
                        if definition.kind == DefinitionKind::Module {
                            Some(name)
                        } else {
                            None
                        }
                    },
                    None => None,
                }
            },
            _ => None,
        }
    }

    /// What `name` means where it is written, which is in one namespace or the other.
    ///
    /// A field label and a name reached through a `.` have none, because neither is a name in
    /// scope.
    pub fn definition(&self, namespace: Namespace, name: &Name) -> (found: Option<Definition>)
        ensures
            found == if self.spec_definitions().contains_key((namespace, name.span)) {
                Some(self.spec_definitions()[(namespace, name.span)])
            } else {
                None
            },
    {
        proof {
            use_type_invariant(self);
        }
        self.definitions.get(namespace, name.span)
    }

    /// Every name that has a definition: its namespace, its span, and what it means.
    ///
    /// The order is no order, so a reader that prints them sorts them first.
    pub fn resolutions(&self) -> (resolutions: Vec<(Namespace, Span, Definition)>)
        ensures
            entries_map(resolutions@) == self.spec_definitions(),
            keys_unique(resolutions@),
    {
        proof {
            use_type_invariant(self);
        }
        self.definitions.to_vec()
    }
}

} // verus!
