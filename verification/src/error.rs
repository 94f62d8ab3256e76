//! The one error name resolution can fail with.
use vstd::prelude::*;
use vstd::string::*;

use crate::ast::{Name, Span};
use crate::code::Code;
use crate::definition::Namespace;
use crate::scope::Clash;

verus! {

/// `before`, then `text`, then `after`, as one string.
pub fn quoted(before: &str, text: &str, after: &str) -> (written: String)
    ensures
        written@ == before@ + text@ + after@,
{
    let mut written = String::from_str(before);
    written.append(text);
    written.append(after);
    written
}

/// `before`, `one`, `between`, `other`, and `after`, as one string.
pub fn quoted_two(before: &str, one: &str, between: &str, other: &str, after: &str) -> (written:
    String)
    ensures
        written@ == before@ + one@ + between@ + other@ + after@,
{
    let mut written = String::from_str(before);
    written.append(one);
    written.append(between);
    written.append(other);
    written.append(after);
    written
}

/// What went wrong, in the words the reader sees.
#[derive(Clone, Debug, PartialEq, Eq)]
pub enum ResolveErrorKind {
    NoValue(String),
    NoType(String),
    DeclaredTwice(String),
    Shadowed(String),
    /// A declaration written above one that uses it, named in that order.
    WrittenAbove { declared: String, used_by: String },
    /// A function name written as anything but the name of a call.
    NotCalled(String),
    /// A module name written as a value rather than as what a name is reached through.
    NotReachedThrough(String),
    /// A name that is no module written on the left of the dot of a type or of a pattern.
    NotAModule(String),
    /// An assignment naming something other than a `var` binding.
    NotAVariable(String),
    /// A second instance of one trait for one type, named by both.
    InstanceTwice { of: String, for_type: String },
    /// A method a trait declares that the instance does not write.
    MethodMissing { of: String, method: String },
    /// A method an instance writes that its trait never declared.
    MethodUndeclared { of: String, method: String },
    /// A method an instance writes a second body for, which its trait declares once.
    MethodTwice { of: String, method: String },
    /// Something that is not a trait, written where a trait belongs.
    NotATrait(String),
    /// A trait a derive names that is not one a type derives.
    NotDerivable(String),
    /// A type a derive names that this module does not declare.
    NotDeclaredHere(String),
    /// A trait written where a type belongs.
    TraitAsType(String),
    /// A name that binds, written inside an or-pattern.
    BindsInsideOr(String),
}

impl ResolveErrorKind {
    /// The failure a name missing from `namespace` amounts to.
    pub fn missing(namespace: Namespace, text: &String) -> (kind: Self)
        ensures
            kind == match namespace {
                Namespace::Value => ResolveErrorKind::NoValue(*text),
                Namespace::Type => ResolveErrorKind::NoType(*text),
            },
    {
        match namespace {
            Namespace::Value => Self::NoValue(text.clone()),
            Namespace::Type => Self::NoType(text.clone()),
        }
    }

    /// The failure a declaration written above something using it amounts to.
    pub fn written_above(declared: &String, used_by: &String) -> (kind: Self)
        ensures
            kind == (ResolveErrorKind::WrittenAbove { declared: *declared, used_by: *used_by }),
    {
        Self::WrittenAbove { declared: declared.clone(), used_by: used_by.clone() }
    }

    /// The failure a [`Clash`] over `text` amounts to.
    pub fn of(clash: Clash, text: &String) -> (kind: Self)
        ensures
            kind == match clash {
                Clash::Twice => ResolveErrorKind::DeclaredTwice(*text),
                Clash::Shadowed => ResolveErrorKind::Shadowed(*text),
            },
    {
        match clash {
            Clash::Twice => Self::DeclaredTwice(text.clone()),
            Clash::Shadowed => Self::Shadowed(text.clone()),
        }
    }

    /// The code this failure is refused with.
    pub open spec fn spec_code(&self) -> Code {
        match self {
            ResolveErrorKind::NoValue(_) | ResolveErrorKind::NoType(_) => Code::UnresolvedName,
            ResolveErrorKind::DeclaredTwice(_) => Code::NameDeclaredTwice,
            ResolveErrorKind::Shadowed(_) => Code::NameShadowed,
            ResolveErrorKind::WrittenAbove { .. } => Code::DefinitionBeforeUse,
            ResolveErrorKind::NotCalled(_) | ResolveErrorKind::NotReachedThrough(_) => Code::NotAValue,
            ResolveErrorKind::NotAModule(_) => Code::NotAModule,
            ResolveErrorKind::NotAVariable(_) => Code::NotAVariable,
            ResolveErrorKind::InstanceTwice { .. } => Code::InstanceDeclaredTwice,
            ResolveErrorKind::MethodMissing { .. }
            | ResolveErrorKind::MethodUndeclared { .. }
            | ResolveErrorKind::MethodTwice { .. } => Code::InstanceMethods,
            ResolveErrorKind::NotATrait(_) => Code::NotATrait,
            ResolveErrorKind::NotDerivable(_) | ResolveErrorKind::NotDeclaredHere(_) => Code::NotDerivable,
            ResolveErrorKind::TraitAsType(_) => Code::TraitAsType,
            ResolveErrorKind::BindsInsideOr(_) => Code::BindsInsideOr,
        }
    }

    /// The code this failure is refused with.
    pub fn code(&self) -> (code: Code)
        ensures
            code == self.spec_code(),
    {
        match self {
            Self::NoValue(_) | Self::NoType(_) => Code::UnresolvedName,
            Self::DeclaredTwice(_) => Code::NameDeclaredTwice,
            Self::Shadowed(_) => Code::NameShadowed,
            Self::WrittenAbove { .. } => Code::DefinitionBeforeUse,
            Self::NotCalled(_) | Self::NotReachedThrough(_) => Code::NotAValue,
            Self::NotAModule(_) => Code::NotAModule,
            Self::NotAVariable(_) => Code::NotAVariable,
            Self::InstanceTwice { .. } => Code::InstanceDeclaredTwice,
            Self::MethodMissing { .. } | Self::MethodUndeclared { .. } | Self::MethodTwice {
                ..
            } => Code::InstanceMethods,
            Self::NotATrait(_) => Code::NotATrait,
            Self::NotDerivable(_) | Self::NotDeclaredHere(_) => Code::NotDerivable,
            Self::TraitAsType(_) => Code::TraitAsType,
            Self::BindsInsideOr(_) => Code::BindsInsideOr,
        }
    }

    /// The `help:` line, which every one of these has.
    pub open spec fn spec_help(&self) -> Seq<char> {
        match self {
            ResolveErrorKind::NoValue(_) | ResolveErrorKind::NoType(_) =>
                "a name is declared in this file, imported, or supplied by the prelude"@,
            ResolveErrorKind::DeclaredTwice(_) => "one name has one definition; rename one of the two"@,
            ResolveErrorKind::Shadowed(_) => "rename the inner one; Lumen never hides a name"@,
            ResolveErrorKind::WrittenAbove { .. } => "a file reads top down: move it below what uses it"@,
            ResolveErrorKind::NotCalled(_) => "version 0.1 reaches a function by calling it; write the call"@,
            ResolveErrorKind::NotReachedThrough(_) =>
                "a module is what a name is reached through, as `io.println` is"@,
            ResolveErrorKind::NotAModule(_) =>
                "a type of another module is reached through the import: write `demo.User`"@,
            ResolveErrorKind::NotAVariable(_) =>
                "mutation is explicit: bind it with `var`, or bind a new name"@,
            ResolveErrorKind::InstanceTwice { .. } =>
                "one trait and one type have one instance; join the two"@,
            ResolveErrorKind::MethodMissing { .. } =>
                "an instance writes a body for every method it declares"@,
            ResolveErrorKind::MethodUndeclared { .. } =>
                "an instance writes the trait's methods and no others"@,
            ResolveErrorKind::MethodTwice { .. } =>
                "one method of a trait gets one body from an instance"@,
            ResolveErrorKind::NotATrait(_) =>
                "a trait is declared with `trait`, and `Eq` is the one supplied"@,
            ResolveErrorKind::NotDerivable(_) =>
                "`Eq`, `Ord`, `Hash`, and `Show` are the traits a type derives; write others by hand"@,
            ResolveErrorKind::NotDeclaredHere(_) =>
                "a derive reads the declaration it names, so it names one this module writes"@,
            ResolveErrorKind::TraitAsType(_) =>
                "name the type, and constrain it with `<T: Eq<T>>` where it is"@,
            ResolveErrorKind::BindsInsideOr(_) =>
                "write one arm for each alternative where one of them binds"@,
        }
    }

    /// The `help:` line, which every one of these has.
    pub fn help(&self) -> (help: &'static str)
        ensures
            help@ == self.spec_help(),
    {
        match self {
            Self::NoValue(_) | Self::NoType(_) => {
                "a name is declared in this file, imported, or supplied by the prelude"
            },
            Self::DeclaredTwice(_) => "one name has one definition; rename one of the two",
            Self::Shadowed(_) => "rename the inner one; Lumen never hides a name",
            Self::WrittenAbove { .. } => "a file reads top down: move it below what uses it",
            Self::NotCalled(_) => "version 0.1 reaches a function by calling it; write the call",
            Self::NotReachedThrough(_) => {
                "a module is what a name is reached through, as `io.println` is"
            },
            Self::NotAModule(_) => {
                "a type of another module is reached through the import: write `demo.User`"
            },
            Self::NotAVariable(_) => "mutation is explicit: bind it with `var`, or bind a new name",
            Self::InstanceTwice { .. } => "one trait and one type have one instance; join the two",
            Self::MethodMissing { .. } => "an instance writes a body for every method it declares",
            Self::MethodUndeclared { .. } => "an instance writes the trait's methods and no others",
            Self::MethodTwice { .. } => "one method of a trait gets one body from an instance",
            Self::NotATrait(_) => "a trait is declared with `trait`, and `Eq` is the one supplied",
            Self::NotDerivable(_) => {
                "`Eq`, `Ord`, `Hash`, and `Show` are the traits a type derives; write others by hand"
            },
            Self::NotDeclaredHere(_) => {
                "a derive reads the declaration it names, so it names one this module writes"
            },
            Self::TraitAsType(_) => "name the type, and constrain it with `<T: Eq<T>>` where it is",
            Self::BindsInsideOr(_) => "write one arm for each alternative where one of them binds",
        }
    }

    /// The `error:` line, without its prefix.
    pub open spec fn spec_message(&self) -> Seq<char> {
        match self {
            ResolveErrorKind::NoValue(text) => "there is nothing named `"@ + text@ + "`"@,
            ResolveErrorKind::NoType(text) => "there is no type named `"@ + text@ + "`"@,
            ResolveErrorKind::DeclaredTwice(text) => "`"@ + text@ + "` is declared twice in this module"@,
            ResolveErrorKind::Shadowed(text) => "`"@ + text@ + "` is already in scope here"@,
            ResolveErrorKind::WrittenAbove { declared, used_by } => "`"@ + declared@
                + "` is written above `"@ + used_by@ + "`, which uses it"@,
            ResolveErrorKind::NotCalled(text) => "`"@ + text@
                + "` is a function, so it is written as a call"@,
            ResolveErrorKind::NotReachedThrough(text) => "`"@ + text@
                + "` is a module, so a name inside it is what is written"@,
            ResolveErrorKind::NotAModule(text) => "`"@ + text@
                + "` is a module in neither scope, and a type is reached through one"@,
            ResolveErrorKind::NotAVariable(text) => "`"@ + text@
                + "` is not a `var`, so it is never assigned to"@,
            ResolveErrorKind::InstanceTwice { of, for_type } => "`"@ + of@
                + "` already has an instance for `"@ + for_type@ + "`"@,
            ResolveErrorKind::MethodMissing { of, method } => "`"@ + of@ + "` declares `"@
                + method@ + "`, which this instance does not write"@,
            ResolveErrorKind::MethodUndeclared { of, method } => "`"@ + of@ + "` declares no `"@
                + method@ + "` for this instance to write"@,
            ResolveErrorKind::MethodTwice { of, method } => "`"@ + of@ + "` declares `"@ + method@
                + "` once, and this instance writes it twice"@,
            ResolveErrorKind::NotATrait(text) => "`"@ + text@ + "` is not a trait"@,
            ResolveErrorKind::NotDerivable(text) => "`"@ + text@
                + "` is not a trait a type derives"@,
            ResolveErrorKind::NotDeclaredHere(text) => "`"@ + text@
                + "` is not a type this module declares"@,
            ResolveErrorKind::TraitAsType(text) => "`"@ + text@ + "` is a trait, not a type"@,
            ResolveErrorKind::BindsInsideOr(text) => "`"@ + text@
                + "` binds inside an or-pattern, which binds nothing"@,
        }
    }

    /// The `error:` line, without its prefix.
    pub fn message(&self) -> (message: String)
        ensures
            message@ == self.spec_message(),
    {
        match self {
            Self::NoValue(text) => quoted("there is nothing named `", text.as_str(), "`"),
            Self::NoType(text) => quoted("there is no type named `", text.as_str(), "`"),
            Self::DeclaredTwice(text) => quoted(
                "`",
                text.as_str(),
                "` is declared twice in this module",
            ),
            Self::Shadowed(text) => quoted("`", text.as_str(), "` is already in scope here"),
            Self::WrittenAbove { declared, used_by } => quoted_two(
                "`",
                declared.as_str(),
                "` is written above `",
                used_by.as_str(),
                "`, which uses it",
            ),
            Self::NotCalled(text) => quoted(
                "`",
                text.as_str(),
                "` is a function, so it is written as a call",
            ),
            Self::NotReachedThrough(text) => quoted(
                "`",
                text.as_str(),
                "` is a module, so a name inside it is what is written",
            ),
            Self::NotAModule(text) => quoted(
                "`",
                text.as_str(),
                "` is a module in neither scope, and a type is reached through one",
            ),
            Self::NotAVariable(text) => quoted(
                "`",
                text.as_str(),
                "` is not a `var`, so it is never assigned to",
            ),
            Self::InstanceTwice { of, for_type } => quoted_two(
                "`",
                of.as_str(),
                "` already has an instance for `",
                for_type.as_str(),
                "`",
            ),
            Self::MethodMissing { of, method } => quoted_two(
                "`",
                of.as_str(),
                "` declares `",
                method.as_str(),
                "`, which this instance does not write",
            ),
            Self::MethodUndeclared { of, method } => quoted_two(
                "`",
                of.as_str(),
                "` declares no `",
                method.as_str(),
                "` for this instance to write",
            ),
            Self::MethodTwice { of, method } => quoted_two(
                "`",
                of.as_str(),
                "` declares `",
                method.as_str(),
                "` once, and this instance writes it twice",
            ),
            Self::NotATrait(text) => quoted("`", text.as_str(), "` is not a trait"),
            Self::NotDerivable(text) => quoted(
                "`",
                text.as_str(),
                "` is not a trait a type derives",
            ),
            Self::NotDeclaredHere(text) => quoted(
                "`",
                text.as_str(),
                "` is not a type this module declares",
            ),
            Self::TraitAsType(text) => quoted("`", text.as_str(), "` is a trait, not a type"),
            Self::BindsInsideOr(text) => quoted(
                "`",
                text.as_str(),
                "` binds inside an or-pattern, which binds nothing",
            ),
        }
    }
}

/// Why resolution failed, and where.
///
/// Resolution stops at the first error, so there is exactly one of these per failed run.
#[derive(Clone, Debug, PartialEq, Eq)]
pub struct ResolveError {
    pub kind: ResolveErrorKind,
    pub span: Span,
}

impl ResolveError {
    /// The failure `name` caused, pointing at where it is written.
    pub fn at(name: &Name, kind: ResolveErrorKind) -> (error: Self)
        ensures
            error.kind == kind,
            error.span == name.span,
    {
        ResolveError { kind, span: name.span }
    }

    /// The source the error points at.
    pub fn span(&self) -> (span: Span)
        ensures
            span == self.span,
    {
        self.span
    }

    /// The code this failure is refused with.
    pub fn code(&self) -> (code: Code)
        ensures
            code == self.kind.spec_code(),
    {
        self.kind.code()
    }

    /// The `error:` line, without its prefix.
    pub fn message(&self) -> (message: String)
        ensures
            message@ == self.kind.spec_message(),
    {
        self.kind.message()
    }

    /// The `help:` line, which every one of these has.
    pub fn help(&self) -> (help: &'static str)
        ensures
            help@ == self.kind.spec_help(),
    {
        self.kind.help()
    }
}

} // verus!
