//! The one error type inference can fail with.
use vstd::prelude::*;
use vstd::string::*;

use crate::ast::Span;
use crate::code::Code;
use crate::prelude::EQ;
use crate::reaching_java::ReachingJava;
use crate::text::{count_of, decimal, signed_decimal, signed_decimal_of};
use crate::types::{spec_shown, Type, TypeView};

verus! {

/// What a declaration takes and what a use of it gave, for the two arities that can be wrong.
#[derive(Debug, PartialEq, Eq)]
pub struct Count {
    pub name: String,
    pub takes: usize,
    pub given: usize,
}

impl Count {
    /// `name` takes so many of `what`, and so many were given, in the words a message reads.
    pub open spec fn spec_worded(&self, what: Seq<char>) -> Seq<char> {
        "`"@ + self.name@ + "` takes "@ + decimal(self.takes as nat) + " "@ + what + (if self.takes
            == 1 {
            ""@
        } else {
            "s"@
        }) + " but "@ + decimal(self.given as nat) + " "@ + (if self.given == 1 {
            "was"@
        } else {
            "were"@
        }) + " given"@
    }

    /// `name` takes so many of `what`, and so many were given, in the words a message reads.
    pub fn worded(&self, what: &str) -> (written: String)
        ensures
            written@ == self.spec_worded(what@),
    {
        let plural = if self.takes == 1 {
            ""
        } else {
            "s"
        };
        let was_or_were = if self.given == 1 {
            "was"
        } else {
            "were"
        };
        let mut written = String::from_str("`");
        written.append(self.name.as_str());
        written.append("` takes ");
        let takes = count_of(self.takes);
        written.append(takes.as_str());
        written.append(" ");
        written.append(what);
        written.append(plural);
        written.append(" but ");
        let given = count_of(self.given);
        written.append(given.as_str());
        written.append(" ");
        written.append(was_or_were);
        written.append(" given");
        written
    }
}

/// What went wrong, in the words the reader sees.
#[derive(Debug, PartialEq, Eq)]
pub enum TypeErrorKind {
    Mismatch { expected: Type, found: Type },
    WrongArgumentCount(Count),
    WrongTypeArgumentCount(Count),
    UnknownField { of: Type, field: String },
    UnknownReceiver(String),
    Infinite,
    MissingField { of: String, field: String },
    FieldWrittenTwice { of: String, field: String },
    /// A whole number written at a type whose instance of `IntegerLiteral` does not hold it.
    LiteralDoesNotFit { value: i64, at: Type, lowest: i64, highest: i64 },
    /// A bound of an `IntegerLiteral` instance written as something other than one whole number.
    BoundIsNotAWholeNumber { bound: String, of: String },
    /// An operator written over a type that has no instance of the trait that operator is.
    NoOperator { written_as: &'static str, of: String, at: Type },
    DivisorIsZero,
    /// A statement leaves a value behind and nothing takes it.
    Discarded(Type),
    /// A call passes its arguments positionally where the declaration repeats a type.
    Unnamed { function: String, repeated: Type },
    /// An argument is named something other than the parameter it is passed for.
    Misnamed { written: String, parameter: String },
    /// A constructor call names its arguments, and a constructor has no names to write.
    NamedConstructor(String),
    /// A call of a prelude function names its arguments, which this module cannot check.
    NamedPrelude(String),
    /// A parameter is a bare `Bool`, so a call of it passes `true` and says no more.
    FlagParameter(String),
    NotAPredicate(String),
    /// A name reached inside a module, which the module does not declare.
    NotInModule { module: String, name: String },
    /// A function reached through a module whose signature names a type that module declares.
    TypeOfAnotherModule {
        module: String,
        name: String,
        /// The type the module keeps to itself, which is the one this one cannot write.
        declared: String,
    },
    /// A generic function reached through a module, which is written where it is declared.
    GenericThroughModule { module: String, name: String },
    /// A trait method, or a constrained generic, used at a type that has no instance.
    NoInstance { of: String, at: Type },
    /// A type deriving `Eq` that holds a value of a type that has none.
    HeldTypeHasNoInstance {
        deriving: String,
        held: Type,
        /// Where the value sits in the declaration: a field's name, or a variant's and its own.
        held_as: String,
    },
    /// A parameter of a trait's method that states no type.
    SignatureWithoutType(String),
    /// A declared type holds a value of itself, around a ring that comes back to it.
    HoldsItself {
        /// The types the ring runs through, beginning at the one refused.
        ring: Vec<String>,
    },
    /// An `extern` declaration reaching what the boundary does not carry.
    Java(ReachingJava),
}

/// `first` holds each of `rest` in turn, which holds `first` again.
pub open spec fn spec_ring(first: Seq<char>, rest: Seq<Seq<char>>) -> Seq<char>
    decreases rest.len(),
{
    if rest.len() == 0 {
        "`"@ + first + "` holds "@
    } else {
        spec_ring(first, rest.drop_last()) + "`"@ + rest.last() + "`, which holds "@
    }
}

impl TypeErrorKind {
    /// A ring runs through one type at least.
    pub open spec fn well_formed(&self) -> bool {
        self matches TypeErrorKind::HoldsItself { ring } ==> ring@.len() > 0
    }

    /// The code this failure is refused with.
    pub open spec fn spec_code(&self) -> Code {
        match self {
            TypeErrorKind::Mismatch { .. } => Code::TypeMismatch,
            TypeErrorKind::WrongArgumentCount(_) | TypeErrorKind::WrongTypeArgumentCount(_) => Code::WrongArgumentCount,
            TypeErrorKind::UnknownField { .. } | TypeErrorKind::UnknownReceiver(_) => Code::UnknownField,
            TypeErrorKind::Infinite => Code::InfiniteType,
            TypeErrorKind::MissingField { .. } => Code::MissingField,
            TypeErrorKind::FieldWrittenTwice { .. } => Code::FieldWrittenTwice,
            TypeErrorKind::NoOperator { .. } => Code::NoOperator,
            TypeErrorKind::LiteralDoesNotFit { .. } => Code::LiteralDoesNotFit,
            TypeErrorKind::BoundIsNotAWholeNumber { .. } => Code::BoundIsNotAWholeNumber,
            TypeErrorKind::NoInstance { .. } => Code::NoInstance,
            TypeErrorKind::HeldTypeHasNoInstance { .. } => Code::HeldTypeHasNoInstance,
            TypeErrorKind::SignatureWithoutType(_) => Code::SignatureWithoutType,
            TypeErrorKind::DivisorIsZero => Code::DivisorIsZero,
            TypeErrorKind::Discarded(_) => Code::Discarded,
            TypeErrorKind::Unnamed { .. } => Code::Unnamed,
            TypeErrorKind::Misnamed { .. } => Code::Misnamed,
            TypeErrorKind::NamedConstructor(_) | TypeErrorKind::NamedPrelude(_) => Code::Unnameable,
            TypeErrorKind::FlagParameter(_) => Code::FlagParameter,
            TypeErrorKind::NotAPredicate(_) => Code::NotAPredicate,
            TypeErrorKind::NotInModule { .. } => Code::NotInModule,
            TypeErrorKind::TypeOfAnotherModule { .. } => Code::TypeOfAnotherModule,
            TypeErrorKind::GenericThroughModule { .. } => Code::GenericThroughModule,
            TypeErrorKind::HoldsItself { .. } => Code::HoldsItself,
            TypeErrorKind::Java(java) => java.spec_code(),
        }
    }

    /// The code this failure is refused with.
    pub fn code(&self) -> (code: Code)
        ensures
            code == self.spec_code(),
    {
        match self {
            TypeErrorKind::Mismatch { .. } => Code::TypeMismatch,
            TypeErrorKind::WrongArgumentCount(_) | TypeErrorKind::WrongTypeArgumentCount(_) => Code::WrongArgumentCount,
            TypeErrorKind::UnknownField { .. } | TypeErrorKind::UnknownReceiver(_) => Code::UnknownField,
            TypeErrorKind::Infinite => Code::InfiniteType,
            TypeErrorKind::MissingField { .. } => Code::MissingField,
            TypeErrorKind::FieldWrittenTwice { .. } => Code::FieldWrittenTwice,
            TypeErrorKind::NoOperator { .. } => Code::NoOperator,
            TypeErrorKind::LiteralDoesNotFit { .. } => Code::LiteralDoesNotFit,
            TypeErrorKind::BoundIsNotAWholeNumber { .. } => Code::BoundIsNotAWholeNumber,
            TypeErrorKind::NoInstance { .. } => Code::NoInstance,
            TypeErrorKind::HeldTypeHasNoInstance { .. } => Code::HeldTypeHasNoInstance,
            TypeErrorKind::SignatureWithoutType(_) => Code::SignatureWithoutType,
            TypeErrorKind::DivisorIsZero => Code::DivisorIsZero,
            TypeErrorKind::Discarded(_) => Code::Discarded,
            TypeErrorKind::Unnamed { .. } => Code::Unnamed,
            TypeErrorKind::Misnamed { .. } => Code::Misnamed,
            TypeErrorKind::NamedConstructor(_) | TypeErrorKind::NamedPrelude(_) => Code::Unnameable,
            TypeErrorKind::FlagParameter(_) => Code::FlagParameter,
            TypeErrorKind::NotAPredicate(_) => Code::NotAPredicate,
            TypeErrorKind::NotInModule { .. } => Code::NotInModule,
            TypeErrorKind::TypeOfAnotherModule { .. } => Code::TypeOfAnotherModule,
            TypeErrorKind::GenericThroughModule { .. } => Code::GenericThroughModule,
            TypeErrorKind::HoldsItself { .. } => Code::HoldsItself,
            TypeErrorKind::Java(java) => java.code(),
        }
    }

    /// The one line that says what to do about it, which every one of these has.
    ///
    /// A type with no `Eq` is the one whose answer names the source that gives it one, because a
    /// derive writes that instance for whoever asks and the reader may not know.
    pub open spec fn spec_help(&self) -> Seq<char> {
        match self.spec_derived_instead() {
            Some(derived) => derived,
            None => self.spec_stated(),
        }
    }

    /// The one line that says what to do about it, which every one of these has.
    pub fn help(&self) -> (help: String)
        ensures
            help@ == self.spec_help(),
    {
        match self.derived_instead() {
            Some(derived) => derived,
            None => String::from_str(self.stated()),
        }
    }

    /// The derive that would give a type the `Eq` a comparison of it wanted, where that is what
    /// went wrong.
    pub open spec fn spec_derived_instead(&self) -> Option<Seq<char>> {
        match self {
            TypeErrorKind::NoOperator { of, at, .. } => if of@ == EQ@ && (at@ matches TypeView::Named(
                _,
                arguments,
            ) && arguments.len() == 0) {
                Some(
                    "`"@ + spec_shown(at@) + "` gets one by deriving it: write `derive Eq for "@
                        + spec_shown(at@) + "`"@,
                )
            } else {
                None
            },
            _ => None,
        }
    }

    /// The derive that would give a type the `Eq` a comparison of it wanted, where that is what
    /// went wrong.
    pub fn derived_instead(&self) -> (derived: Option<String>)
        ensures
            derived matches Some(written) ==> self.spec_derived_instead() == Some(written@),
            derived is None ==> self.spec_derived_instead() is None,
    {
        match self {
            TypeErrorKind::NoOperator { of, at, .. } => {
                if !crate::text::same_text(of.as_str(), EQ) {
                    return None;
                }
                match at {
                    Type::Named { arguments, .. } => {
                        proof {
                            crate::types::lemma_views_of(arguments@);
                        }
                        if arguments.len() != 0 {
                            return None;
                        }
                        let shown = at.shown();
                        let mut written = String::from_str("`");
                        written.append(shown.as_str());
                        written.append("` gets one by deriving it: write `derive Eq for ");
                        written.append(shown.as_str());
                        written.append("`");
                        Some(written)
                    },
                    _ => None,
                }
            },
            _ => None,
        }
    }

    /// The rule each refusal is made under, in one line.
    pub open spec fn spec_stated(&self) -> Seq<char> {
        match self {
            TypeErrorKind::Mismatch { .. } => "one type is not another, however alike they are held"@,
            TypeErrorKind::WrongArgumentCount(_) => "a call passes one argument for each the declaration lists"@,
            TypeErrorKind::WrongTypeArgumentCount(_) => "a type is written with one argument for each the declaration lists"@,
            TypeErrorKind::UnknownField { .. } => "a field is looked up in the record its type declares"@,
            TypeErrorKind::UnknownReceiver(_) => "declare the type of a parameter or a result so the field can be found"@,
            TypeErrorKind::Infinite => "one of these two is being used where the other was meant"@,
            TypeErrorKind::MissingField { .. } => "building a record gives every field a value; update one to change only some"@,
            TypeErrorKind::FieldWrittenTwice { .. } => "a record gives each of its fields one value"@,
            TypeErrorKind::NoOperator { .. } => "an operator is a trait method, so a type gets one by writing that trait's instance"@,
            TypeErrorKind::LiteralDoesNotFit { .. } => "write a whole number the type holds, or widen what its instance says it holds"@,
            TypeErrorKind::BoundIsNotAWholeNumber { .. } => "a bound is read rather than run, so write it as one whole number and nothing else"@,
            TypeErrorKind::NoInstance { .. } => "write the instance, or constrain the type parameter the call is made at"@,
            TypeErrorKind::HeldTypeHasNoInstance { .. } => "a derived `Eq` compares by the `Eq` of what it holds; give the held type one"@,
            TypeErrorKind::SignatureWithoutType(_) => "a signature has no body to read a type off, so it writes each one out"@,
            TypeErrorKind::DivisorIsZero => "a zero written here is never anything else; drop the division"@,
            TypeErrorKind::Discarded(_) => "write `_ = ` in front of it to throw the value away on purpose"@,
            TypeErrorKind::Unnamed { .. } => "a call names its arguments when the declaration gives two parameters one type"@,
            TypeErrorKind::Misnamed { .. } => "arguments are named in the order the declaration lists its parameters"@,
            TypeErrorKind::NamedConstructor(_) => "a variant whose values want names declares them as fields and is built as a record"@,
            TypeErrorKind::NamedPrelude(_) => "only a call of a function this module declares names its arguments"@,
            TypeErrorKind::FlagParameter(_) => "declare a two-variant type and take that instead, so the call says which of the two"@,
            TypeErrorKind::NotAPredicate(_) => "begin the name with `is_`, `has_`, `can_`, or `should_`"@,
            TypeErrorKind::NotInModule { .. } => "a module declares the functions it offers, and nothing else is a name it has"@,
            TypeErrorKind::TypeOfAnotherModule { .. } => "a signature written in types both modules have is what one module offers another"@,
            TypeErrorKind::GenericThroughModule { .. } => "write it in the module that reaches it, or give it a signature at one set of types"@,
            TypeErrorKind::HoldsItself { .. } => "hold an `Option` of it, which is how a type holds another of its own kind"@,
            TypeErrorKind::Java(java) => java.spec_rule(),
        }
    }

    /// The rule each refusal is made under, in one line.
    pub fn stated(&self) -> (stated: &'static str)
        ensures
            stated@ == self.spec_stated(),
    {
        match self {
            TypeErrorKind::Mismatch { .. } => "one type is not another, however alike they are held",
            TypeErrorKind::WrongArgumentCount(_) => "a call passes one argument for each the declaration lists",
            TypeErrorKind::WrongTypeArgumentCount(_) => "a type is written with one argument for each the declaration lists",
            TypeErrorKind::UnknownField { .. } => "a field is looked up in the record its type declares",
            TypeErrorKind::UnknownReceiver(_) => "declare the type of a parameter or a result so the field can be found",
            TypeErrorKind::Infinite => "one of these two is being used where the other was meant",
            TypeErrorKind::MissingField { .. } => "building a record gives every field a value; update one to change only some",
            TypeErrorKind::FieldWrittenTwice { .. } => "a record gives each of its fields one value",
            TypeErrorKind::NoOperator { .. } => "an operator is a trait method, so a type gets one by writing that trait's instance",
            TypeErrorKind::LiteralDoesNotFit { .. } => "write a whole number the type holds, or widen what its instance says it holds",
            TypeErrorKind::BoundIsNotAWholeNumber { .. } => "a bound is read rather than run, so write it as one whole number and nothing else",
            TypeErrorKind::NoInstance { .. } => "write the instance, or constrain the type parameter the call is made at",
            TypeErrorKind::HeldTypeHasNoInstance { .. } => "a derived `Eq` compares by the `Eq` of what it holds; give the held type one",
            TypeErrorKind::SignatureWithoutType(_) => "a signature has no body to read a type off, so it writes each one out",
            TypeErrorKind::DivisorIsZero => "a zero written here is never anything else; drop the division",
            TypeErrorKind::Discarded(_) => "write `_ = ` in front of it to throw the value away on purpose",
            TypeErrorKind::Unnamed { .. } => "a call names its arguments when the declaration gives two parameters one type",
            TypeErrorKind::Misnamed { .. } => "arguments are named in the order the declaration lists its parameters",
            TypeErrorKind::NamedConstructor(_) => "a variant whose values want names declares them as fields and is built as a record",
            TypeErrorKind::NamedPrelude(_) => "only a call of a function this module declares names its arguments",
            TypeErrorKind::FlagParameter(_) => "declare a two-variant type and take that instead, so the call says which of the two",
            TypeErrorKind::NotAPredicate(_) => "begin the name with `is_`, `has_`, `can_`, or `should_`",
            TypeErrorKind::NotInModule { .. } => "a module declares the functions it offers, and nothing else is a name it has",
            TypeErrorKind::TypeOfAnotherModule { .. } => "a signature written in types both modules have is what one module offers another",
            TypeErrorKind::GenericThroughModule { .. } => "write it in the module that reaches it, or give it a signature at one set of types",
            TypeErrorKind::HoldsItself { .. } => "hold an `Option` of it, which is how a type holds another of its own kind",
            TypeErrorKind::Java(java) => java.the_rule(),
        }
    }

    /// What went wrong, in the words the reader sees.
    pub open spec fn spec_message(&self) -> Seq<char> {
        match self {
            TypeErrorKind::Mismatch { expected, found } => "expected `"@ + spec_shown(expected@)
                + "`, found `"@ + spec_shown(found@) + "`"@,
            TypeErrorKind::WrongArgumentCount(count) => count.spec_worded("argument"@),
            TypeErrorKind::WrongTypeArgumentCount(count) => count.spec_worded("type argument"@),
            TypeErrorKind::UnknownField { of, field } => "`"@ + spec_shown(of@)
                + "` has no field named `"@ + field@ + "`"@,
            TypeErrorKind::UnknownReceiver(field) => "the type here is not known, so `"@ + field@
                + "` cannot be found"@,
            TypeErrorKind::NotInModule { module, name } => "`"@ + module@ + "` declares no `"@
                + name@ + "`"@,
            TypeErrorKind::TypeOfAnotherModule { module, name, declared } => "`"@ + module@ + "."@
                + name@ + "` names `"@ + declared@ + "`, which `"@ + module@
                + "` keeps to itself"@,
            TypeErrorKind::GenericThroughModule { module, name } => "`"@ + module@ + "."@ + name@
                + "` is generic, so `"@ + module@ + "` alone writes it"@,
            TypeErrorKind::HoldsItself { ring } => spec_ring(
                ring@[0]@,
                crate::text::texts(ring@).drop_first(),
            ) + "`"@ + ring@[0]@ + "`"@,
            TypeErrorKind::Infinite => "this would have a type that contains itself"@,
            TypeErrorKind::MissingField { of, field } => "`"@ + of@ + "` needs a field named `"@
                + field@ + "`"@,
            TypeErrorKind::FieldWrittenTwice { of, field } => "`"@ + of@ + "` is given `"@
                + field@ + "` twice"@,
            TypeErrorKind::LiteralDoesNotFit { value, at, lowest, highest } => "`"@
                + signed_decimal(*value as int) + "` does not fit `"@ + spec_shown(at@)
                + "`, which holds `"@ + signed_decimal(*lowest as int) + "` to `"@
                + signed_decimal(*highest as int) + "`"@,
            TypeErrorKind::BoundIsNotAWholeNumber { bound, of } => "`"@ + bound@ + "` of `"@
                + of@ + "` is read rather than run, so it is one whole number"@,
            TypeErrorKind::NoOperator { written_as, of, at } => "`"@ + spec_shown(at@)
                + "` has no `"@ + of@ + "`, so `"@ + written_as@ + "` is not written over it"@,
            TypeErrorKind::NoInstance { of, at } => "`"@ + spec_shown(at@) + "` has no instance of `"@
                + of@ + "`"@,
            TypeErrorKind::HeldTypeHasNoInstance { deriving, held, held_as } => "`"@ + deriving@
                + "` derives `Eq`, and the `"@ + spec_shown(held@) + "` it holds as `"@
                + held_as@ + "` has none"@,
            TypeErrorKind::SignatureWithoutType(name) => "`"@ + name@
                + "` states no type, and a signature is never inferred"@,
            TypeErrorKind::DivisorIsZero => "this divisor is zero, so there is no answer"@,
            TypeErrorKind::Discarded(left) => "`"@ + spec_shown(left@)
                + "` is left here and nothing takes it"@,
            TypeErrorKind::Unnamed { function, repeated } => "`"@ + function@
                + "` gives two parameters the type `"@ + spec_shown(repeated@)
                + "`, so this call names its arguments"@,
            TypeErrorKind::Misnamed { written, parameter } => "this argument is named `"@
                + written@ + "`, and the parameter here is `"@ + parameter@ + "`"@,
            TypeErrorKind::NamedConstructor(called) => "`"@ + called@
                + "` is a constructor, so it carries its values in order and names none"@,
            TypeErrorKind::NamedPrelude(called) => "`"@ + called@
                + "` comes from the prelude, which declares no parameter names to write"@,
            TypeErrorKind::FlagParameter(function) => "this parameter is a `Bool`, so a call of `"@
                + function@ + "` passes `true` and says no more"@,
            TypeErrorKind::NotAPredicate(function) => "`"@ + function@
                + "` gives back a `Bool`, so its name asks the question it answers"@,
            TypeErrorKind::Java(java) => java.spec_message(),
        }
    }
    /// What went wrong, in the words the reader sees.
    pub fn message(&self) -> (message: String)
        requires
            self.well_formed(),
        ensures
            message@ == self.spec_message(),
    {
        match self {
            TypeErrorKind::Mismatch { expected, found } => {
                let mut message = String::from_str("expected `");
                let expected = expected.shown();
                message.append(expected.as_str());
                message.append("`, found `");
                let found = found.shown();
                message.append(found.as_str());
                message.append("`");
                message
            },
            TypeErrorKind::WrongArgumentCount(count) => count.worded("argument"),
            TypeErrorKind::WrongTypeArgumentCount(count) => count.worded("type argument"),
            TypeErrorKind::UnknownField { of, field } => {
                let mut message = String::from_str("`");
                let of = of.shown();
                message.append(of.as_str());
                message.append("` has no field named `");
                message.append(field.as_str());
                message.append("`");
                message
            },
            TypeErrorKind::UnknownReceiver(field) => {
                let mut message = String::from_str("the type here is not known, so `");
                message.append(field.as_str());
                message.append("` cannot be found");
                message
            },
            TypeErrorKind::NotInModule { module, name } => {
                let mut message = String::from_str("`");
                message.append(module.as_str());
                message.append("` declares no `");
                message.append(name.as_str());
                message.append("`");
                message
            },
            TypeErrorKind::TypeOfAnotherModule { module, name, declared } => {
                let mut message = String::from_str("`");
                message.append(module.as_str());
                message.append(".");
                message.append(name.as_str());
                message.append("` names `");
                message.append(declared.as_str());
                message.append("`, which `");
                message.append(module.as_str());
                message.append("` keeps to itself");
                message
            },
            TypeErrorKind::GenericThroughModule { module, name } => {
                let mut message = String::from_str("`");
                message.append(module.as_str());
                message.append(".");
                message.append(name.as_str());
                message.append("` is generic, so `");
                message.append(module.as_str());
                message.append("` alone writes it");
                message
            },
            TypeErrorKind::HoldsItself { ring } => ring_held(ring),
            TypeErrorKind::Infinite => String::from_str("this would have a type that contains itself"),
            TypeErrorKind::MissingField { of, field } => {
                let mut message = String::from_str("`");
                message.append(of.as_str());
                message.append("` needs a field named `");
                message.append(field.as_str());
                message.append("`");
                message
            },
            TypeErrorKind::FieldWrittenTwice { of, field } => {
                let mut message = String::from_str("`");
                message.append(of.as_str());
                message.append("` is given `");
                message.append(field.as_str());
                message.append("` twice");
                message
            },
            TypeErrorKind::LiteralDoesNotFit { value, at, lowest, highest } => {
                let mut message = String::from_str("`");
                let value = signed_decimal_of(*value);
                message.append(value.as_str());
                message.append("` does not fit `");
                let at = at.shown();
                message.append(at.as_str());
                message.append("`, which holds `");
                let lowest = signed_decimal_of(*lowest);
                message.append(lowest.as_str());
                message.append("` to `");
                let highest = signed_decimal_of(*highest);
                message.append(highest.as_str());
                message.append("`");
                message
            },
            TypeErrorKind::BoundIsNotAWholeNumber { bound, of } => {
                let mut message = String::from_str("`");
                message.append(bound.as_str());
                message.append("` of `");
                message.append(of.as_str());
                message.append("` is read rather than run, so it is one whole number");
                message
            },
            TypeErrorKind::NoOperator { written_as, of, at } => {
                let mut message = String::from_str("`");
                let at = at.shown();
                message.append(at.as_str());
                message.append("` has no `");
                message.append(of.as_str());
                message.append("`, so `");
                message.append(written_as);
                message.append("` is not written over it");
                message
            },
            TypeErrorKind::NoInstance { of, at } => {
                let mut message = String::from_str("`");
                let at = at.shown();
                message.append(at.as_str());
                message.append("` has no instance of `");
                message.append(of.as_str());
                message.append("`");
                message
            },
            TypeErrorKind::HeldTypeHasNoInstance { deriving, held, held_as } => {
                let mut message = String::from_str("`");
                message.append(deriving.as_str());
                message.append("` derives `Eq`, and the `");
                let held = held.shown();
                message.append(held.as_str());
                message.append("` it holds as `");
                message.append(held_as.as_str());
                message.append("` has none");
                message
            },
            TypeErrorKind::SignatureWithoutType(name) => {
                let mut message = String::from_str("`");
                message.append(name.as_str());
                message.append("` states no type, and a signature is never inferred");
                message
            },
            TypeErrorKind::DivisorIsZero => String::from_str("this divisor is zero, so there is no answer"),
            TypeErrorKind::Discarded(left) => {
                let mut message = String::from_str("`");
                let left = left.shown();
                message.append(left.as_str());
                message.append("` is left here and nothing takes it");
                message
            },
            TypeErrorKind::Unnamed { function, repeated } => {
                let mut message = String::from_str("`");
                message.append(function.as_str());
                message.append("` gives two parameters the type `");
                let repeated = repeated.shown();
                message.append(repeated.as_str());
                message.append("`, so this call names its arguments");
                message
            },
            TypeErrorKind::Misnamed { written, parameter } => {
                let mut message = String::from_str("this argument is named `");
                message.append(written.as_str());
                message.append("`, and the parameter here is `");
                message.append(parameter.as_str());
                message.append("`");
                message
            },
            TypeErrorKind::NamedConstructor(called) => {
                let mut message = String::from_str("`");
                message.append(called.as_str());
                message.append("` is a constructor, so it carries its values in order and names none");
                message
            },
            TypeErrorKind::NamedPrelude(called) => {
                let mut message = String::from_str("`");
                message.append(called.as_str());
                message.append("` comes from the prelude, which declares no parameter names to write");
                message
            },
            TypeErrorKind::FlagParameter(function) => {
                let mut message = String::from_str("this parameter is a `Bool`, so a call of `");
                message.append(function.as_str());
                message.append("` passes `true` and says no more");
                message
            },
            TypeErrorKind::NotAPredicate(function) => {
                let mut message = String::from_str("`");
                message.append(function.as_str());
                message.append("` gives back a `Bool`, so its name asks the question it answers");
                message
            },
            TypeErrorKind::Java(java) => java.message(),
        }
    }
}

/// The message of a ring: its first type holds each of the others in turn, and then itself.
fn ring_held(ring: &Vec<String>) -> (message: String)
    requires
        ring@.len() > 0,
    ensures
        message@ == spec_ring(ring@[0]@, crate::text::texts(ring@).drop_first()) + "`"@ + ring@[0]@
            + "`"@,
{
    let ghost rest = crate::text::texts(ring@).drop_first();
    let mut message = String::from_str("`");
    message.append(ring[0].as_str());
    message.append("` holds ");
    let mut i: usize = 1;
    while i < ring.len()
        invariant
            1 <= i <= ring@.len(),
            rest == crate::text::texts(ring@).drop_first(),
            message@ == spec_ring(ring@[0]@, rest.take(i - 1)),
        decreases ring.len() - i,
    {
        message.append("`");
        message.append(ring[i].as_str());
        message.append("`, which holds ");
        assert(rest.take(i as int).drop_last() =~= rest.take(i - 1));
        i = i + 1;
    }
    assert(rest.take(ring@.len() - 1) =~= rest);
    message.append("`");
    message.append(ring[0].as_str());
    message.append("`");
    message
}

/// Why inference failed, and where.
///
/// Inference stops at the first error, so there is exactly one of these per failed run.
#[derive(Debug, PartialEq, Eq)]
pub struct TypeError {
    kind: Box<TypeErrorKind>,
    span: Span,
}

impl TypeError {
    /// What went wrong.
    pub closed spec fn spec_kind(&self) -> TypeErrorKind {
        *self.kind
    }

    /// The source the error points at.
    pub closed spec fn spec_span(&self) -> Span {
        self.span
    }

    /// A ring runs through one type at least.
    #[verifier::type_invariant]
    spec fn well_formed(self) -> bool {
        self.kind.well_formed()
    }

    /// The failure at `span`.
    pub fn at(span: Span, kind: TypeErrorKind) -> (error: TypeError)
        requires
            kind.well_formed(),
        ensures
            error.spec_kind() == kind,
            error.spec_span() == span,
    {
        TypeError { kind: Box::new(kind), span }
    }

    /// What went wrong.
    pub fn kind(&self) -> (kind: &TypeErrorKind)
        ensures
            *kind == self.spec_kind(),
    {
        &self.kind
    }

    /// The source the error points at.
    pub fn span(&self) -> (span: Span)
        ensures
            span == self.spec_span(),
    {
        self.span
    }

    /// The code this failure is refused with.
    pub fn code(&self) -> (code: Code)
        ensures
            code == self.spec_kind().spec_code(),
    {
        self.kind.code()
    }

    /// The `error:` line, without its prefix.
    pub fn message(&self) -> (message: String)
        ensures
            message@ == self.spec_kind().spec_message(),
    {
        proof {
            use_type_invariant(self);
        }
        self.kind.message()
    }

    /// The `help:` line, which every one of these has.
    pub fn help(&self) -> (help: String)
        ensures
            help@ == self.spec_kind().spec_help(),
    {
        self.kind.help()
    }
}

} // verus!
