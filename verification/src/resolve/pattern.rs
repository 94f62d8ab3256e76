//! A pattern: what a value has to be, and the names the arm below it goes on to read.
//!
//! Resolution decides only which names bind and which name a constructor, because a bare name is
//! both until this phase says which.
use vstd::prelude::*;

use crate::ast::{Name, Path, Pattern, PatternKind};
use crate::definition::DefinitionKind;
use crate::error::{ResolveError, ResolveErrorKind};
use crate::resolve::model;
use crate::resolve::{is_constructor, Resolved, Resolver};
use crate::scope::{spec_look_up, Layer};

verus! {

/// The first name `pattern` binds where `values` is what is in scope, and nothing where it
/// binds nothing.
pub open spec fn first_binding(values: Seq<Layer>, pattern: Pattern) -> Option<Name>
    decreases pattern, 0int,
{
    match pattern.kind {
        PatternKind::Name(path) => if path.module is None && !is_constructor(
            spec_look_up(values, path.name.text@),
        ) {
            Some(path.name)
        } else {
            None
        },
        PatternKind::Record { fields, .. } => if fields@.len() > 0 {
            Some(fields@[0])
        } else {
            None
        },
        PatternKind::Tuple { elements, .. } => first_binding_among(values, elements@, 0),
        PatternKind::Or(alternatives) => first_binding_among(values, alternatives@, 0),
        _ => None,
    }
}

/// The first name any of `patterns` binds, from the one at `from` on.
pub open spec fn first_binding_among(values: Seq<Layer>, patterns: Seq<Pattern>, from: int) -> Option<
    Name,
>
    decreases patterns, patterns.len() - from,
{
    if 0 <= from < patterns.len() {
        match first_binding(values, patterns[from]) {
            Some(bound) => Some(bound),
            None => first_binding_among(values, patterns, from + 1),
        }
    } else {
        None
    }
}

/// Where none of `patterns` binds from `from` on, none of them does one by one.
proof fn lemma_none_among(values: Seq<Layer>, patterns: Seq<Pattern>, from: int, k: int)
    requires
        0 <= from <= k < patterns.len(),
        first_binding_among(values, patterns, from) is None,
    ensures
        first_binding(values, patterns[k]) is None,
    decreases k - from,
{
    if from < k {
        lemma_none_among(values, patterns, from + 1, k);
    }
}

impl Resolver {
    /// A pattern: the constructors it names, and the names it binds in the innermost layer.
    ///
    /// A pattern that binds nothing changes no scope.
    pub(crate) fn pattern(&mut self, pattern: &Pattern) -> (resolved: Resolved)
        requires
            old(self).well_formed(),
        ensures
            model::outcome(resolved, final(self).walk(), model::spec_pattern(old(self).walk(), *pattern)),
            final(self).well_formed(),
            final(self).keeps_tables(old(self)),
            resolved is Ok ==> final(self).grown_inside(old(self)),
            resolved is Ok && first_binding(old(self).values.layers(), *pattern) is None
                ==> final(self).same_scopes(old(self)),
        decreases pattern, 1int,
    {
        match &pattern.kind {
            PatternKind::Name(path) => self.bare_pattern(path),
            PatternKind::Tuple { path, elements } => {
                self.built_as(path)?;
                let mut i: usize = 0;
                while i < elements.len()
                    invariant
                        model::spec_pattern(old(self).walk(), *pattern) == model::spec_patterns(self.walk(), elements@, i as int),
                        self.well_formed(),
                        self.keeps_tables(old(self)),
                        self.grown_inside(old(self)),
                        first_binding(old(self).values.layers(), *pattern) is None ==> self.same_scopes(
                            old(self),
                        ),
                        pattern.kind == (PatternKind::Tuple { path: *path, elements: *elements }),
                    decreases elements.len() - i,
                {
                    proof {
                        assert(decreases_to!(pattern => elements@[i as int]));
                        if first_binding(old(self).values.layers(), *pattern) is None {
                            lemma_none_among(old(self).values.layers(), elements@, 0, i as int);
                        }
                    }
                    self.pattern(&elements[i])?;
                    i = i + 1;
                }
                Ok(())
            },
            PatternKind::Record { path, fields } => {
                self.built_as(path)?;
                let mut i: usize = 0;
                while i < fields.len()
                    invariant
                        model::spec_pattern(old(self).walk(), *pattern) == model::spec_introduce_values(self.walk(), fields@, DefinitionKind::Local, i as int),
                        self.well_formed(),
                        self.keeps_tables(old(self)),
                        self.grown_inside(old(self)),
                        fields@.len() == 0 ==> self.same_scopes(old(self)),
                    decreases fields.len() - i,
                {
                    self.introduce_value(&fields[i], DefinitionKind::Local)?;
                    i = i + 1;
                }
                Ok(())
            },
            PatternKind::Or(alternatives) => {
                proof {
                    assert(decreases_to!(pattern => alternatives@));
                }
                self.any_of(alternatives)
            },
            PatternKind::Integer(_) | PatternKind::String(_) | PatternKind::Bool(_)
            | PatternKind::Wildcard => Ok(()),
        }
    }

    /// `Pending | Running`, whose alternatives match without binding anything.
    ///
    /// Alternatives that bind would have to bind the same names at the same types, which is a
    /// rule about the set of them rather than about each, and the arms it would save are written
    /// as one arm each.
    pub(crate) fn any_of(&mut self, alternatives: &Vec<Pattern>) -> (resolved: Resolved)
        requires
            old(self).well_formed(),
        ensures
            model::outcome(resolved, final(self).walk(), model::spec_any_of(old(self).walk(), alternatives@, 0)),
            final(self).well_formed(),
            final(self).keeps_tables(old(self)),
            resolved is Ok ==> final(self).same_scopes(old(self)),
            resolved is Ok ==> forall|k: int|
                0 <= k < alternatives@.len() ==> first_binding(
                    old(self).values.layers(),
                    #[trigger] alternatives@[k],
                ) is None,
        decreases alternatives@, 0int,
    {
        let mut i: usize = 0;
        while i < alternatives.len()
            invariant
                model::spec_any_of(old(self).walk(), alternatives@, 0) == model::spec_any_of(self.walk(), alternatives@, i as int),
                self.well_formed(),
                self.keeps_tables(old(self)),
                self.same_scopes(old(self)),
                forall|k: int|
                    0 <= k < i ==> first_binding(
                        old(self).values.layers(),
                        #[trigger] alternatives@[k],
                    ) is None,
            decreases alternatives.len() - i,
        {
            match self.binds(&alternatives[i]) {
                Some(bound) => {
                    let kind = ResolveErrorKind::BindsInsideOr(bound.text.clone());
                    return Err(ResolveError::at(&bound, kind));
                },
                None => {},
            }
            proof {
                assert(decreases_to!(alternatives@ => alternatives@[i as int]));
            }
            self.pattern(&alternatives[i])?;
            i = i + 1;
        }
        Ok(())
    }

    /// The first name `pattern` would bind, which is nothing where it binds nothing.
    pub(crate) fn binds(&self, pattern: &Pattern) -> (bound: Option<Name>)
        ensures
            bound == first_binding(self.values.layers(), *pattern),
        decreases pattern, 1int,
    {
        match &pattern.kind {
            PatternKind::Name(path) => {
                if path.module.is_some() {
                    return None;
                }
                let constructs = match self.values.look_up(&path.name.text) {
                    Some(found) => found.kind == DefinitionKind::Constructor,
                    None => false,
                };
                if constructs {
                    None
                } else {
                    Some(path.name.copied())
                }
            },
            PatternKind::Record { fields, .. } => {
                if fields.len() > 0 {
                    Some(fields[0].copied())
                } else {
                    None
                }
            },
            PatternKind::Tuple { elements, .. } => {
                proof {
                    assert(decreases_to!(pattern => elements@));
                }
                self.binds_among(elements)
            },
            PatternKind::Or(alternatives) => {
                proof {
                    assert(decreases_to!(pattern => alternatives@));
                }
                self.binds_among(alternatives)
            },
            PatternKind::Integer(_) | PatternKind::String(_) | PatternKind::Bool(_)
            | PatternKind::Wildcard => None,
        }
    }

    /// The first name any of `patterns` would bind.
    fn binds_among(&self, patterns: &Vec<Pattern>) -> (bound: Option<Name>)
        ensures
            bound == first_binding_among(self.values.layers(), patterns@, 0),
        decreases patterns@, 0int,
    {
        let ghost values = self.values.layers();
        let mut i: usize = 0;
        while i < patterns.len()
            invariant
                i <= patterns@.len(),
                values == self.values.layers(),
                first_binding_among(values, patterns@, 0) == first_binding_among(
                    values,
                    patterns@,
                    i as int,
                ),
            decreases patterns.len() - i,
        {
            proof {
                assert(decreases_to!(patterns@ => patterns@[i as int]));
            }
            let bound = self.binds(&patterns[i]);
            if bound.is_some() {
                return bound;
            }
            i = i + 1;
        }
        None
    }

    /// A bare name matches what a constructor of that name carries, and otherwise binds the value.
    ///
    /// One reached through a module matches and never binds: a binding is a name of this module,
    /// and a dotted name is a name of another.
    fn bare_pattern(&mut self, path: &Path) -> (resolved: Resolved)
        requires
            old(self).well_formed(),
        ensures
            model::outcome(resolved, final(self).walk(), model::spec_bare_pattern(old(self).walk(), *path)),
            final(self).well_formed(),
            final(self).keeps_tables(old(self)),
            resolved is Ok ==> final(self).grown_inside(old(self)),
            resolved is Ok && (path.module is Some || is_constructor(
                old(self).values.meaning(path.name.text@),
            )) ==> final(self).same_scopes(old(self)),
    {
        match &path.module {
            Some(module) => return self.reached_through(module),
            None => {},
        }
        let name = &path.name;
        let constructs = match self.values.look_up(&name.text) {
            Some(found) => found.kind == DefinitionKind::Constructor,
            None => false,
        };
        if constructs {
            return self.use_value(name);
        }
        self.introduce_value(name, DefinitionKind::Local)
    }
}

} // verus!
