//! The code each refusal is made with, which says which rule it is without its wording.
use vstd::prelude::*;

verus! {

/// Which rule a refusal is made under.
#[derive(Clone, Copy, Debug, PartialEq, Eq, Structural)]
pub enum Code {
    UnresolvedName,
    NameDeclaredTwice,
    NameShadowed,
    DefinitionBeforeUse,
    NotAValue,
    NotAModule,
    NotAVariable,
    InstanceDeclaredTwice,
    InstanceMethods,
    NotATrait,
    NotDerivable,
    TraitAsType,
    BindsInsideOr,
    TypeMismatch,
    WrongArgumentCount,
    UnknownField,
    InfiniteType,
    MissingField,
    FieldWrittenTwice,
    NoOperator,
    LiteralDoesNotFit,
    BoundIsNotAWholeNumber,
    NoInstance,
    HeldTypeHasNoInstance,
    SignatureWithoutType,
    DivisorIsZero,
    Discarded,
    Unnamed,
    Misnamed,
    Unnameable,
    FlagParameter,
    NotAPredicate,
    NotInModule,
    TypeOfAnotherModule,
    GenericThroughModule,
    HoldsItself,
    DoesNotCross,
    NotAJavaName,
    DerivesAForeignType,
    ReachesNoClass,
    BuildsAnInterface,
    WidensNoInt,
    NarrowsWithoutOption,
}

} // verus!
