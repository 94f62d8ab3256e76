//! The walk over bodies: every statement and expression, with the scopes each one opens.
use vstd::prelude::*;

use crate::ast::{Argument, Block, Expr, ExprKind, ForHeader, ForLoop, Function, IfExpr};
use crate::ast::{Item, MatchExpr, Name, Program, RecordField, Statement, StatementKind};
use crate::ast::{TypeDeclaration, TypeDefinition, TypeRef, TypeRefKind, Variant, VariantPayload};
use crate::definition::{DefinitionKind, Namespace};
use crate::error::{ResolveError, ResolveErrorKind};
use crate::resolve::model;
use crate::resolve::{bound, Position, Resolved, Resolver};

verus! {

impl Resolver {
    /// What the walk leaves alone: the prelude's traits.
    pub(crate) open spec fn keeps(&self, before: &Resolver) -> bool {
        &&& self.prelude_traits@ == before.prelude_traits@
    }

    /// Both scopes have changed in their innermost layers alone.
    pub(crate) open spec fn both_grown_inside(&self, before: &Resolver) -> bool {
        &&& self.types.layers().len() == before.types.layers().len()
        &&& self.types.layers().drop_last() == before.types.layers().drop_last()
        &&& self.values.layers().len() == before.values.layers().len()
        &&& self.values.layers().drop_last() == before.values.layers().drop_last()
    }

    /// Every name a module declares is in scope before any body is walked.
    pub(crate) fn module(&mut self, program: &Program) -> (resolved: Resolved)
        requires
            old(self).well_formed(),
        ensures
            model::outcome(resolved, final(self).walk(), model::spec_module(old(self).walk(), *program)),
            final(self).well_formed(),
            final(self).keeps(old(self)),
            resolved is Ok ==> final(self).types.layers().drop_last() == old(self).types.layers()
                && final(self).values.layers().drop_last() == old(self).values.layers(),
            program.items@.len() == 0 ==> resolved is Ok,
    {
        self.types.enter();
        self.values.enter();
        let ghost entered = *self;
        let mut i: usize = 0;
        while i < program.items.len()
            invariant
                model::spec_module(old(self).walk(), *program) == match model::spec_declares(self.walk(), program.items@, i as int) { Ok(declared) => model::spec_defines(declared, program.items@, 0), Err(error) => Err(error) },
                self.well_formed(),
                self.keeps(old(self)),
                self.both_grown_inside(&entered),
                entered.types.layers().drop_last() == old(self).types.layers(),
                entered.values.layers().drop_last() == old(self).values.layers(),
                entered.types.layers().len() == old(self).types.layers().len() + 1,
                entered.values.layers().len() == old(self).values.layers().len() + 1,
            decreases program.items.len() - i,
        {
            self.declare(&program.items[i])?;
            i = i + 1;
        }
        let mut j: usize = 0;
        while j < program.items.len()
            invariant
                model::spec_module(old(self).walk(), *program) == model::spec_defines(self.walk(), program.items@, j as int),
                self.well_formed(),
                self.keeps(old(self)),
                self.both_grown_inside(&entered),
                entered.types.layers().drop_last() == old(self).types.layers(),
                entered.values.layers().drop_last() == old(self).values.layers(),
                entered.types.layers().len() == old(self).types.layers().len() + 1,
                entered.values.layers().len() == old(self).values.layers().len() + 1,
            decreases program.items.len() - j,
        {
            let ghost before = *self;
            self.define(&program.items[j])?;
            j = j + 1;
        }
        Ok(())
    }

    fn declare(&mut self, item: &Item) -> (resolved: Resolved)
        requires
            old(self).well_formed(),
        ensures
            model::outcome(resolved, final(self).walk(), model::spec_declare(old(self).walk(), *item)),
            final(self).well_formed(),
            final(self).keeps(old(self)),
            resolved is Ok ==> final(self).both_grown_inside(old(self)),
    {
        match item {
            Item::Import(import) => self.introduce_value(&import.module, DefinitionKind::Module),
            Item::Type(declaration) => self.declare_type(declaration),
            Item::Trait(declaration) => self.declare_trait(declaration),
            Item::Instance(_) | Item::Derive(_) => Ok(()),
            Item::Function(function) => self.introduce_value(&function.name, DefinitionKind::Function),
        }
    }

    /// A type declaration names a type, and names the value each of its variants is built with.
    fn declare_type(&mut self, declaration: &TypeDeclaration) -> (resolved: Resolved)
        requires
            old(self).well_formed(),
        ensures
            model::outcome(resolved, final(self).walk(), model::spec_declare_type(old(self).walk(), *declaration)),
            final(self).well_formed(),
            final(self).keeps_tables(old(self)),
            resolved is Ok ==> final(self).both_grown_inside(old(self)),
    {
        self.introduce_type(&declaration.name, DefinitionKind::Type)?;
        match &declaration.definition {
            TypeDefinition::Variants(variants) => {
                let mut i: usize = 0;
                while i < variants.len()
                    invariant
                        model::spec_declare_type(old(self).walk(), *declaration) == model::spec_introduce_values(self.walk(), model::variant_names(variants@), DefinitionKind::Constructor, i as int),
                        self.well_formed(),
                        self.keeps_tables(old(self)),
                        self.both_grown_inside(old(self)),
                    decreases variants.len() - i,
                {
                    self.introduce_value(&variants[i].name, DefinitionKind::Constructor)?;
                    i = i + 1;
                }
                Ok(())
            },
            _ => self.introduce_value(&declaration.name, DefinitionKind::Constructor),
        }
    }

    fn define(&mut self, item: &Item) -> (resolved: Resolved)
        requires
            old(self).well_formed(),
        ensures
            model::outcome(resolved, final(self).walk(), model::spec_define(old(self).walk(), *item)),
            final(self).well_formed(),
            final(self).keeps(old(self)),
            resolved is Ok ==> final(self).same_scopes(old(self)),
    {
        match item {
            Item::Import(_) => Ok(()),
            Item::Type(declaration) => self.type_declaration(declaration),
            Item::Trait(declaration) => self.trait_declaration(declaration),
            Item::Instance(declaration) => self.instance(declaration),
            Item::Derive(declaration) => self.derive(declaration),
            Item::Function(function) => self.function(function),
        }
    }

    fn type_declaration(&mut self, declaration: &TypeDeclaration) -> (resolved: Resolved)
        requires
            old(self).well_formed(),
        ensures
            model::outcome(resolved, final(self).walk(), model::spec_type_declaration(old(self).walk(), *declaration)),
            final(self).well_formed(),
            final(self).keeps_tables(old(self)),
            resolved is Ok ==> final(self).same_scopes(old(self)),
    {
        self.types.enter();
        let ghost entered = *self;
        let mut i: usize = 0;
        while i < declaration.parameters.len()
            invariant
                model::spec_type_declaration(old(self).walk(), *declaration) == match model::spec_introduce_types(self.walk(), declaration.parameters@, DefinitionKind::TypeParameter, i as int) { Ok(after) => model::type_declaration_rest(after, *declaration), Err(error) => Err(error) },
                self.well_formed(),
                self.keeps_tables(old(self)),
                self.both_grown_inside(&entered),
                entered.types.layers().drop_last() == old(self).types.layers(),
                entered.values.layers() == old(self).values.layers(),
                self.values.layers() == old(self).values.layers(),
            decreases declaration.parameters.len() - i,
        {
            let ghost before = *self;
            self.introduce_type(&declaration.parameters[i], DefinitionKind::TypeParameter)?;
            i = i + 1;
        }
        match &declaration.definition {
            TypeDefinition::Record(fields) => self.record_fields(fields)?,
            TypeDefinition::Variants(variants) => {
                let mut j: usize = 0;
                while j < variants.len()
                    invariant
                        model::spec_type_declaration(old(self).walk(), *declaration) == match model::spec_variants(self.walk(), variants@, j as int) { Ok(read) => Ok(model::leave_types(read)), Err(error) => Err(error) },
                        self.well_formed(),
                        self.keeps_tables(old(self)),
                        self.both_grown_inside(&entered),
                        entered.types.layers().drop_last() == old(self).types.layers(),
                        entered.values.layers() == old(self).values.layers(),
                        self.values.layers() == old(self).values.layers(),
                self.values.layers() == old(self).values.layers(),
                    decreases variants.len() - j,
                {
                    self.variant(&variants[j])?;
                    j = j + 1;
                }
            },
            TypeDefinition::Foreign { .. } => {},
        }
        self.types.leave();
        Ok(())
    }

    fn variant(&mut self, variant: &Variant) -> (resolved: Resolved)
        requires
            old(self).well_formed(),
        ensures
            model::outcome(resolved, final(self).walk(), model::spec_variant(old(self).walk(), *variant)),
            final(self).well_formed(),
            final(self).keeps_tables(old(self)),
            resolved is Ok ==> final(self).same_scopes(old(self)),
    {
        match &variant.payload {
            VariantPayload::Bare => Ok(()),
            VariantPayload::Tuple(types) => {
                let mut i: usize = 0;
                while i < types.len()
                    invariant
                        model::spec_variant(old(self).walk(), *variant) == model::spec_type_refs(self.walk(), types@, i as int),
                        self.well_formed(),
                        self.keeps_tables(old(self)),
                        self.same_scopes(old(self)),
                    decreases types.len() - i,
                {
                    self.type_ref(&types[i])?;
                    i = i + 1;
                }
                Ok(())
            },
            VariantPayload::Record(fields) => self.record_fields(fields),
        }
    }

    fn record_fields(&mut self, fields: &Vec<RecordField>) -> (resolved: Resolved)
        requires
            old(self).well_formed(),
        ensures
            model::outcome(resolved, final(self).walk(), model::spec_record_fields(old(self).walk(), fields@, 0)),
            final(self).well_formed(),
            final(self).keeps_tables(old(self)),
            resolved is Ok ==> final(self).same_scopes(old(self)),
    {
        let mut i: usize = 0;
        while i < fields.len()
            invariant
                model::spec_record_fields(old(self).walk(), fields@, 0) == model::spec_record_fields(self.walk(), fields@, i as int),
                self.well_formed(),
                self.keeps_tables(old(self)),
                self.same_scopes(old(self)),
            decreases fields.len() - i,
        {
            self.type_ref(&fields[i].type_ref)?;
            i = i + 1;
        }
        Ok(())
    }

    /// A written type: its name, or the module it is reached through, and each argument.
    pub(crate) fn type_ref(&mut self, type_ref: &TypeRef) -> (resolved: Resolved)
        requires
            old(self).well_formed(),
        ensures
            model::outcome(resolved, final(self).walk(), model::spec_type_ref(old(self).walk(), *type_ref)),
            final(self).well_formed(),
            final(self).keeps_tables(old(self)),
            final(self).same_scopes(old(self)),
        decreases type_ref,
    {
        match &type_ref.kind {
            TypeRefKind::Unit => Ok(()),
            TypeRefKind::Named { path, arguments } => {
                match &path.module {
                    Some(module) => self.reached_through(module)?,
                    None => self.named_type(&path.name)?,
                }
                let mut i: usize = 0;
                while i < arguments.len()
                    invariant
                        model::spec_type_ref(old(self).walk(), *type_ref) == model::spec_type_refs(self.walk(), arguments@, i as int),
                        self.well_formed(),
                        self.keeps_tables(old(self)),
                        self.same_scopes(old(self)),
                        type_ref.kind == (TypeRefKind::Named { path: *path, arguments: *arguments }),
                    decreases arguments.len() - i,
                {
                    proof {
                        assert(decreases_to!(*type_ref => type_ref.kind));
                        assert(decreases_to!(type_ref.kind => type_ref.kind->arguments));
                        assert(decreases_to!(*arguments => arguments@));
                        assert(decreases_to!(type_ref => arguments@[i as int]));
                    }
                    self.type_ref(&arguments[i])?;
                    i = i + 1;
                }
                Ok(())
            },
        }
    }

    /// A function: its type parameters and their constraints, its parameters, its result, and
    /// its body, each read with what the declaration above it has put in scope.
    pub(crate) fn function(&mut self, function: &Function) -> (resolved: Resolved)
        requires
            old(self).well_formed(),
        ensures
            model::outcome(resolved, final(self).walk(), model::spec_function(old(self).walk(), *function)),
            final(self).well_formed(),
            final(self).keeps_tables(old(self)),
            resolved is Ok ==> final(self).same_scopes(old(self)),
    {
        self.types.enter();
        self.values.enter();
        let ghost entered = *self;
        let mut i: usize = 0;
        while i < function.type_parameters.len()
            invariant
                model::spec_function(old(self).walk(), *function) == match model::spec_introduce_types(self.walk(), model::type_parameter_names(function.type_parameters@), DefinitionKind::TypeParameter, i as int) { Ok(after) => model::function_from_constraints(after, *function), Err(error) => Err(error) },
                self.well_formed(),
                self.keeps_tables(old(self)),
                self.both_grown_inside(&entered),
                entered.types.layers().drop_last() == old(self).types.layers(),
                entered.values.layers().drop_last() == old(self).values.layers(),
            decreases function.type_parameters.len() - i,
        {
            self.introduce_type(&function.type_parameters[i].name, DefinitionKind::TypeParameter)?;
            i = i + 1;
        }
        let mut j: usize = 0;
        while j < function.type_parameters.len()
            invariant
                model::spec_function(old(self).walk(), *function) == match model::spec_constraints(self.walk(), function.type_parameters@, j as int) { Ok(after) => model::function_from_parameters(after, *function), Err(error) => Err(error) },
                self.well_formed(),
                self.keeps_tables(old(self)),
                self.both_grown_inside(&entered),
                entered.types.layers().drop_last() == old(self).types.layers(),
                entered.values.layers().drop_last() == old(self).values.layers(),
            decreases function.type_parameters.len() - j,
        {
            let ghost before = *self;
            self.constrained(&function.type_parameters[j])?;
            j = j + 1;
        }
        let mut k: usize = 0;
        while k < function.parameters.len()
            invariant
                model::spec_function(old(self).walk(), *function) == match model::spec_parameters(self.walk(), function.parameters@, k as int) { Ok(after) => model::function_from_result(after, *function), Err(error) => Err(error) },
                self.well_formed(),
                self.keeps_tables(old(self)),
                self.both_grown_inside(&entered),
                entered.types.layers().drop_last() == old(self).types.layers(),
                entered.values.layers().drop_last() == old(self).values.layers(),
            decreases function.parameters.len() - k,
        {
            let parameter = &function.parameters[k];
            match &parameter.type_ref {
                Some(type_ref) => self.type_ref(type_ref)?,
                None => {},
            }
            self.introduce_value(&parameter.name, DefinitionKind::Parameter)?;
            k = k + 1;
        }
        match &function.result {
            Some(result) => self.type_ref(result)?,
            None => {},
        }
        self.block(&function.body)?;
        self.values.leave();
        self.types.leave();
        Ok(())
    }

    /// A block opens a layer of its own, which every binding inside it leaves with.
    pub(crate) fn block(&mut self, block: &Block) -> (resolved: Resolved)
        requires
            old(self).well_formed(),
        ensures
            model::outcome(resolved, final(self).walk(), model::spec_block(old(self).walk(), *block)),
            final(self).well_formed(),
            final(self).keeps_tables(old(self)),
            resolved is Ok ==> final(self).same_scopes(old(self)),
        decreases block, 0nat,
    {
        self.values.enter();
        let ghost entered = *self;
        let mut i: usize = 0;
        while i < block.statements.len()
            invariant
                model::spec_block(old(self).walk(), *block) == match model::spec_statements(self.walk(), block.statements@, i as int) { Ok(after) => Ok(model::leave_values(after)), Err(error) => Err(error) },
                self.well_formed(),
                self.keeps_tables(old(self)),
                self.grown_inside(&entered),
                entered.values.layers().drop_last() == old(self).values.layers(),
                entered.types.layers() == old(self).types.layers(),
            decreases block.statements.len() - i,
        {
            proof {
                assert(decreases_to!(block => block.statements@[i as int]));
            }
            self.statement(&block.statements[i])?;
            i = i + 1;
        }
        self.values.leave();
        Ok(())
    }

    fn statement(&mut self, statement: &Statement) -> (resolved: Resolved)
        requires
            old(self).well_formed(),
        ensures
            model::outcome(resolved, final(self).walk(), model::spec_statement(old(self).walk(), *statement)),
            final(self).well_formed(),
            final(self).keeps_tables(old(self)),
            resolved is Ok ==> final(self).grown_inside(old(self)),
        decreases statement, 0nat,
    {
        match &statement.kind {
            StatementKind::Binding { mutability, name, value } => {
                self.expr(value)?;
                self.introduce_value(name, bound(*mutability))
            },
            StatementKind::Assign { target, value, .. } => {
                self.assigned_to(target)?;
                self.expr(value)
            },
            StatementKind::Return(value) => match value {
                Some(value) => self.expr(value),
                None => Ok(()),
            },
            StatementKind::Break | StatementKind::Continue => Ok(()),
            StatementKind::For(loop_) => self.for_loop(loop_),
            StatementKind::Discard(expr) | StatementKind::Expr(expr) => self.expr(expr),
        }
    }

    fn for_loop(&mut self, loop_: &ForLoop) -> (resolved: Resolved)
        requires
            old(self).well_formed(),
        ensures
            model::outcome(resolved, final(self).walk(), model::spec_for(old(self).walk(), *loop_)),
            final(self).well_formed(),
            final(self).keeps_tables(old(self)),
            resolved is Ok ==> final(self).same_scopes(old(self)),
        decreases loop_, 0nat,
    {
        self.values.enter();
        let ghost entered = *self;
        assert(entered.values.layers().drop_last() =~= old(self).values.layers());
        match &loop_.header {
            ForHeader::Forever => {},
            ForHeader::While(condition) => self.expr(condition)?,
            ForHeader::In { binding, iterable } => {
                self.expr(iterable)?;
                self.introduce_value(binding, DefinitionKind::Local)?;
            },
        }
        self.block(&loop_.body)?;
        self.values.leave();
        Ok(())
    }

    /// The name an assignment changes, which is a `var` binding and nothing else.
    ///
    /// Mutation is explicit, so what a name holds changes only where `var` said it may. A
    /// constructor names a way to build a value, and there is no slot to store into.
    fn assigned_to(&mut self, name: &Name) -> (resolved: Resolved)
        requires
            old(self).well_formed(),
        ensures
            model::outcome(resolved, final(self).walk(), model::spec_assigned_to(old(self).walk(), *name)),
            final(self).well_formed(),
            final(self).keeps_tables(old(self)),
            final(self).same_scopes(old(self)),
            old(self).values.meaning(name.text@) is None ==> resolved == Err::<(), ResolveError>(
                ResolveError { kind: ResolveErrorKind::NoValue(name.text), span: name.span },
            ),
            old(self).values.meaning(name.text@) matches Some(found) ==> (
                if found.kind == DefinitionKind::Function || found.kind == DefinitionKind::TraitMethod {
                    resolved == Err::<(), ResolveError>(
                        ResolveError { kind: ResolveErrorKind::NotCalled(name.text), span: name.span },
                    )
                } else if found.kind == DefinitionKind::Module {
                    resolved == Err::<(), ResolveError>(
                        ResolveError {
                            kind: ResolveErrorKind::NotReachedThrough(name.text),
                            span: name.span,
                        },
                    )
                } else if found.kind == DefinitionKind::Variable {
                    resolved is Ok
                } else {
                    resolved == Err::<(), ResolveError>(
                        ResolveError { kind: ResolveErrorKind::NotAVariable(name.text), span: name.span },
                    )
                }
            ),
    {
        self.named(name, Position::Value)?;
        match self.values.look_up(&name.text) {
            Some(found) => {
                if found.kind == DefinitionKind::Variable {
                    return Ok(());
                }
                Err(ResolveError::at(name, ResolveErrorKind::NotAVariable(name.text.clone())))
            },
            None => Err(ResolveError::at(name, ResolveErrorKind::NotAVariable(name.text.clone()))),
        }
    }

    /// Whether `receiver` is written as the name of a module, which a dot reaches inside.
    fn names_a_module(&self, receiver: &Expr) -> (module: bool)
        requires
            self.well_formed(),
        ensures
            module == model::names_a_module(self.walk(), *receiver),
            module == (receiver.kind matches ExprKind::Name(name) && self.values.meaning(name.text@) matches Some(
                found,
            ) && found.kind == DefinitionKind::Module),
    {
        match &receiver.kind {
            ExprKind::Name(name) => match self.values.look_up(&name.text) {
                Some(found) => found.kind == DefinitionKind::Module,
                None => false,
            },
            _ => false,
        }
    }

    /// An expression in a position that takes more than a value, when it is a bare name.
    fn written(&mut self, expr: &Expr, position: Position) -> (resolved: Resolved)
        requires
            old(self).well_formed(),
        ensures
            model::outcome(resolved, final(self).walk(), model::spec_written(old(self).walk(), *expr, position)),
            final(self).well_formed(),
            final(self).keeps_tables(old(self)),
            resolved is Ok ==> final(self).same_scopes(old(self)),
        decreases expr, 1nat,
    {
        match &expr.kind {
            ExprKind::Name(name) => self.named(name, position),
            // `io.println(…)`: the name inside the module is what is called, so the module is
            // reached through and nothing here is held as a value. Before any other dot, the
            // value is passed in front, and the name after the dot is the function called.
            ExprKind::Field { receiver, field } => {
                if position == Position::Callee {
                    let through_module = self.names_a_module(receiver);
                    self.written(receiver, Position::Receiver)?;
                    if through_module {
                        Ok(())
                    } else {
                        self.named(field, Position::Callee)
                    }
                } else {
                    self.expr(expr)
                }
            },
            _ => self.expr(expr),
        }
    }

    /// Resolves `name`, then refuses it when what it names is no value and the position wants
    /// one: a function is reached by calling it, and a module by naming a name inside it.
    pub(crate) fn named(&mut self, name: &Name, position: Position) -> (resolved: Resolved)
        requires
            old(self).well_formed(),
        ensures
            model::outcome(resolved, final(self).walk(), model::spec_named(old(self).walk(), *name, position)),
            final(self).well_formed(),
            final(self).keeps_tables(old(self)),
            final(self).same_scopes(old(self)),
            match old(self).values.meaning(name.text@) {
                None => resolved == Err::<(), ResolveError>(
                    ResolveError { kind: ResolveErrorKind::NoValue(name.text), span: name.span },
                ),
                Some(found) => {
                    &&& final(self).definitions@ == old(self).definitions@.insert(
                        (Namespace::Value, name.span),
                        found,
                    )
                    &&& if position.spec_takes(found.kind) {
                        resolved is Ok
                    } else if found.kind == DefinitionKind::Function || found.kind
                        == DefinitionKind::TraitMethod {
                        resolved == Err::<(), ResolveError>(
                            ResolveError { kind: ResolveErrorKind::NotCalled(name.text), span: name.span },
                        )
                    } else if found.kind == DefinitionKind::Module {
                        resolved == Err::<(), ResolveError>(
                            ResolveError {
                                kind: ResolveErrorKind::NotReachedThrough(name.text),
                                span: name.span,
                            },
                        )
                    } else {
                        resolved is Ok
                    }
                },
            },
    {
        self.use_value(name)?;
        let found = match self.values.look_up(&name.text) {
            Some(found) => found,
            None => return Ok(()),
        };
        if position.takes(found.kind) {
            return Ok(());
        }
        match found.kind {
            DefinitionKind::Function | DefinitionKind::TraitMethod => {
                Err(ResolveError::at(name, ResolveErrorKind::NotCalled(name.text.clone())))
            },
            DefinitionKind::Module => {
                Err(ResolveError::at(name, ResolveErrorKind::NotReachedThrough(name.text.clone())))
            },
            _ => Ok(()),
        }
    }

    /// Every expression of `expr`, with each name in it pointed at what it means.
    pub(crate) fn expr(&mut self, expr: &Expr) -> (resolved: Resolved)
        requires
            old(self).well_formed(),
        ensures
            model::outcome(resolved, final(self).walk(), model::spec_expr(old(self).walk(), *expr)),
            final(self).well_formed(),
            final(self).keeps_tables(old(self)),
            resolved is Ok ==> final(self).same_scopes(old(self)),
        decreases expr, 0nat,
    {
        match &expr.kind {
            ExprKind::Name(name) => self.named(name, Position::Value),
            ExprKind::Integer(_) | ExprKind::String(_) | ExprKind::Bool(_) | ExprKind::Unit => Ok(()),
            ExprKind::Unary { operand, .. } => self.expr(operand),
            ExprKind::Binary { left, right, .. } => {
                self.expr(left)?;
                self.expr(right)
            },
            ExprKind::Call { callee, arguments } => {
                self.written(callee, Position::Callee)?;
                let mut i: usize = 0;
                while i < arguments.len()
                    invariant
                        model::spec_expr(old(self).walk(), *expr) == model::spec_arguments(self.walk(), arguments@, i as int),
                        self.well_formed(),
                        self.keeps_tables(old(self)),
                        self.same_scopes(old(self)),
                        expr.kind == (ExprKind::Call { callee: *callee, arguments: *arguments }),
                    decreases arguments.len() - i,
                {
                    proof {
                        assert(decreases_to!(*expr => expr.kind));
                        assert(decreases_to!(expr.kind => expr.kind->arguments));
                        assert(decreases_to!(*arguments => arguments@));
                        assert(decreases_to!(arguments@ => arguments@[i as int]));
                        assert(decreases_to!(expr => arguments@[i as int].value));
                    }
                    self.expr(&arguments[i].value)?;
                    i = i + 1;
                }
                Ok(())
            },
            // A name inside a module is one of its functions, which nothing holds as a value.
            ExprKind::Field { receiver, field } => {
                let through_module = self.names_a_module(receiver);
                self.written(receiver, Position::Receiver)?;
                if through_module {
                    Err(ResolveError::at(field, ResolveErrorKind::NotCalled(field.text.clone())))
                } else {
                    Ok(())
                }
            },
            ExprKind::Try(inner) => self.expr(inner),
            ExprKind::List(elements) => {
                let mut i: usize = 0;
                while i < elements.len()
                    invariant
                        model::spec_expr(old(self).walk(), *expr) == model::spec_exprs(self.walk(), elements@, i as int),
                        self.well_formed(),
                        self.keeps_tables(old(self)),
                        self.same_scopes(old(self)),
                        expr.kind == ExprKind::List(*elements),
                    decreases elements.len() - i,
                {
                    proof {
                        assert(decreases_to!(*expr => expr.kind));
                        assert(decreases_to!(expr.kind => expr.kind->List_0));
                        assert(decreases_to!(*elements => elements@));
                        assert(decreases_to!(expr => elements@[i as int]));
                    }
                    self.expr(&elements[i])?;
                    i = i + 1;
                }
                Ok(())
            },
            ExprKind::Record { base, fields } => {
                self.built_as(base)?;
                let mut i: usize = 0;
                while i < fields.len()
                    invariant
                        model::spec_expr(old(self).walk(), *expr) == model::spec_field_values(self.walk(), fields@, i as int),
                        self.well_formed(),
                        self.keeps_tables(old(self)),
                        self.same_scopes(old(self)),
                        expr.kind == (ExprKind::Record { base: *base, fields: *fields }),
                    decreases fields.len() - i,
                {
                    proof {
                        assert(decreases_to!(*expr => expr.kind));
                        assert(decreases_to!(expr.kind => expr.kind->fields));
                        assert(decreases_to!(*fields => fields@));
                        assert(decreases_to!(fields@ => fields@[i as int]));
                        assert(decreases_to!(expr => fields@[i as int].value));
                    }
                    self.expr(&fields[i].value)?;
                    i = i + 1;
                }
                Ok(())
            },
            ExprKind::If(chain) => self.if_expr(chain),
            ExprKind::Match(match_expr) => self.match_expr(match_expr),
        }
    }

    fn if_expr(&mut self, chain: &IfExpr) -> (resolved: Resolved)
        requires
            old(self).well_formed(),
        ensures
            model::outcome(resolved, final(self).walk(), model::spec_if(old(self).walk(), *chain)),
            final(self).well_formed(),
            final(self).keeps_tables(old(self)),
            resolved is Ok ==> final(self).same_scopes(old(self)),
        decreases chain, 0nat,
    {
        let mut i: usize = 0;
        while i < chain.branches.len()
            invariant
                model::spec_if(old(self).walk(), *chain) == match model::spec_branches(self.walk(), chain.branches@, i as int) { Ok(after) => match chain.otherwise { Some(block) => model::spec_block(after, block), None => Ok(after) }, Err(error) => Err(error) },
                self.well_formed(),
                self.keeps_tables(old(self)),
                self.same_scopes(old(self)),
            decreases chain.branches.len() - i,
        {
            proof {
                assert(decreases_to!(chain => chain.branches@[i as int].condition));
                assert(decreases_to!(chain => chain.branches@[i as int].block));
            }
            self.expr(&chain.branches[i].condition)?;
            self.block(&chain.branches[i].block)?;
            i = i + 1;
        }
        match &chain.otherwise {
            Some(block) => self.block(block),
            None => Ok(()),
        }
    }

    fn match_expr(&mut self, match_expr: &MatchExpr) -> (resolved: Resolved)
        requires
            old(self).well_formed(),
        ensures
            model::outcome(resolved, final(self).walk(), model::spec_match(old(self).walk(), *match_expr)),
            final(self).well_formed(),
            final(self).keeps_tables(old(self)),
            resolved is Ok ==> final(self).same_scopes(old(self)),
        decreases match_expr, 0nat,
    {
        self.expr(&match_expr.scrutinee)?;
        let mut i: usize = 0;
        while i < match_expr.arms.len()
            invariant
                model::spec_match(old(self).walk(), *match_expr) == model::spec_arms(self.walk(), match_expr.arms@, i as int),
                self.well_formed(),
                self.keeps_tables(old(self)),
                self.same_scopes(old(self)),
            decreases match_expr.arms.len() - i,
        {
            proof {
                assert(decreases_to!(match_expr => match_expr.arms@[i as int].body));
            }
            let ghost before = *self;
            self.values.enter();
            let ghost entered = *self;
            assert(entered.values.layers().drop_last() =~= before.values.layers());
            self.pattern(&match_expr.arms[i].pattern)?;
            self.expr(&match_expr.arms[i].body)?;
            self.values.leave();
            i = i + 1;
        }
        Ok(())
    }
}

} // verus!
