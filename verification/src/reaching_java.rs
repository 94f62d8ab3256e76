//! What a refusal about an `extern` declaration says, and the rule it says it against.
//!
//! These read as one group: each says that the boundary is a signature and the Java name beside
//! it and nothing more. The group is a type of its own, so a new kind of it is added here alone,
//! and every one of them is stated here alone.
use vstd::prelude::*;
use vstd::string::*;

use crate::boundary::Crossing;
use crate::code::Code;
use crate::types::{spec_shown, Type};

verus! {

/// What an `extern` declaration does not reach, and why the boundary does not carry it.
#[derive(Debug, PartialEq, Eq)]
pub enum ReachingJava {
    /// An `extern` signature names a type no Java member takes or gives back.
    DoesNotCross {
        written: Type,
        /// Where in the signature the type sits, which is what decides whether it may be there.
        crossing: Crossing,
    },
    /// An `extern` states something that is no Java name, in the place it states one.
    NotAJavaName(String),
    /// A derive names a type an `extern type` declares.
    DerivesAForeignType(String),
    /// An `extern` whose kind reaches a class is written with a signature naming none.
    ReachesNoClass(String),
    /// An `extern new` builds what it gives back, and an `extern type` named that an interface.
    BuildsAnInterface(Type),
    /// An `extern` says its member gives a width, and what it gives back is no `Int`.
    WidensNoInt {
        /// The word the declaration wrote, which is `int` or `char`.
        width: String,
        written: Type,
    },
}

impl ReachingJava {
    /// The code this failure is refused with.
    pub open spec fn spec_code(&self) -> Code {
        match self {
            ReachingJava::DoesNotCross { .. } => Code::DoesNotCross,
            ReachingJava::NotAJavaName(_) => Code::NotAJavaName,
            ReachingJava::DerivesAForeignType(_) => Code::DerivesAForeignType,
            ReachingJava::ReachesNoClass(_) => Code::ReachesNoClass,
            ReachingJava::BuildsAnInterface(_) => Code::BuildsAnInterface,
            ReachingJava::WidensNoInt { .. } => Code::WidensNoInt,
        }
    }

    /// The code this failure is refused with.
    pub fn code(&self) -> (code: Code)
        ensures
            code == self.spec_code(),
    {
        match self {
            ReachingJava::DoesNotCross { .. } => Code::DoesNotCross,
            ReachingJava::NotAJavaName(_) => Code::NotAJavaName,
            ReachingJava::DerivesAForeignType(_) => Code::DerivesAForeignType,
            ReachingJava::ReachesNoClass(_) => Code::ReachesNoClass,
            ReachingJava::BuildsAnInterface(_) => Code::BuildsAnInterface,
            ReachingJava::WidensNoInt { .. } => Code::WidensNoInt,
        }
    }

    /// The rule this refusal is said against.
    pub open spec fn spec_rule(&self) -> Seq<char> {
        match self {
            ReachingJava::DoesNotCross { .. } => "a boundary carries `Bool`, `Int`, `String`, a `List`, and a type an `extern` names"@,
            ReachingJava::NotAJavaName(_) => "a Java name is its segments, each a name, with a dot between two of them"@,
            ReachingJava::DerivesAForeignType(_) => "write an `instance` over `extern` declarations instead"@,
            ReachingJava::ReachesNoClass(_) => "a class is `String`, or a type an `extern type` declares"@,
            ReachingJava::BuildsAnInterface(_) => "a `new` builds a class; reach one through a member of a class instead"@,
            ReachingJava::WidensNoInt { .. } => "a width widens to an `Int`; drop the word, or give an `Int` back"@,
        }
    }

    /// The rule this refusal is said against.
    pub fn the_rule(&self) -> (rule: &'static str)
        ensures
            rule@ == self.spec_rule(),
    {
        match self {
            ReachingJava::DoesNotCross { .. } => "a boundary carries `Bool`, `Int`, `String`, a `List`, and a type an `extern` names",
            ReachingJava::NotAJavaName(_) => "a Java name is its segments, each a name, with a dot between two of them",
            ReachingJava::DerivesAForeignType(_) => "write an `instance` over `extern` declarations instead",
            ReachingJava::ReachesNoClass(_) => "a class is `String`, or a type an `extern type` declares",
            ReachingJava::BuildsAnInterface(_) => "a `new` builds a class; reach one through a member of a class instead",
            ReachingJava::WidensNoInt { .. } => "a width widens to an `Int`; drop the word, or give an `Int` back",
        }
    }

    /// What the declaration could not reach, in the words the reader is shown.
    pub open spec fn spec_message(&self) -> Seq<char> {
        match self {
            ReachingJava::DoesNotCross { written, crossing } => "`"@ + spec_shown(written@)
                + "` is no type a Java member "@ + crossing.spec_what_a_member_does(),
            ReachingJava::NotAJavaName(written) => "`"@ + written@ + "` is no Java name"@,
            ReachingJava::DerivesAForeignType(named) => "`"@ + named@
                + "` is an extern type, and a derive reads what a type holds"@,
            ReachingJava::ReachesNoClass(reaches) => "a `"@ + reaches@
                + "` reaches a class, and this signature names none"@,
            ReachingJava::BuildsAnInterface(built) => "a `new` builds a class, and `"@ + spec_shown(
                built@,
            ) + "` is an interface"@,
            ReachingJava::WidensNoInt { width, written } => "`"@ + width@
                + "` widens to an `Int`, and this signature gives back `"@ + spec_shown(written@)
                + "`"@,
        }
    }

    /// What the declaration could not reach, in the words the reader is shown.
    pub fn message(&self) -> (message: String)
        ensures
            message@ == self.spec_message(),
    {
        match self {
            ReachingJava::DoesNotCross { written, crossing } => {
                let mut message = String::from_str("`");
                let shown = written.shown();
                message.append(shown.as_str());
                message.append("` is no type a Java member ");
                message.append(crossing.what_a_member_does());
                message
            },
            ReachingJava::NotAJavaName(written) => {
                let mut message = String::from_str("`");
                message.append(written.as_str());
                message.append("` is no Java name");
                message
            },
            ReachingJava::DerivesAForeignType(named) => {
                let mut message = String::from_str("`");
                message.append(named.as_str());
                message.append("` is an extern type, and a derive reads what a type holds");
                message
            },
            ReachingJava::ReachesNoClass(reaches) => {
                let mut message = String::from_str("a `");
                message.append(reaches.as_str());
                message.append("` reaches a class, and this signature names none");
                message
            },
            ReachingJava::BuildsAnInterface(built) => {
                let mut message = String::from_str("a `new` builds a class, and `");
                let shown = built.shown();
                message.append(shown.as_str());
                message.append("` is an interface");
                message
            },
            ReachingJava::WidensNoInt { width, written } => {
                let mut message = String::from_str("`");
                message.append(width.as_str());
                message.append("` widens to an `Int`, and this signature gives back `");
                let shown = written.shown();
                message.append(shown.as_str());
                message.append("`");
                message
            },
        }
    }
}

} // verus!
