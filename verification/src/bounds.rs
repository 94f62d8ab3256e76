//! What an instance of `IntegerLiteral` says its type holds, which is read rather than run.
//!
//! The body of `lowest` and of `highest` is one whole number and nothing else, optionally with a
//! `-` in front, which the parser reads as the one negative number it spells. The compiler reads
//! those two bodies where it reads any other declaration, so a literal that does not fit is
//! refused while the program is compiled and never at run time.
use vstd::prelude::*;
use vstd::string::*;

use crate::ast::{ExprKind, Function, InstanceDeclaration, StatementKind};
use crate::prelude::{first_where, lemma_first_where, HIGHEST, LOWEST};
use crate::text::same_text;
use crate::type_error::{TypeError, TypeErrorKind};

verus! {

/// The whole numbers one type holds, which is what a literal written at it is held to.
#[derive(Clone, Copy, Debug, PartialEq, Eq, Structural)]
pub struct Bounds {
    pub lowest: i64,
    pub highest: i64,
}

impl Bounds {
    /// The whole numbers an `Int` holds, which is every one the lexer reads.
    pub fn of_int() -> (bounds: Bounds)
        ensures
            bounds.lowest == i64::MIN,
            bounds.highest == i64::MAX,
    {
        Bounds { lowest: i64::MIN, highest: i64::MAX }
    }

    /// Whether `value` is one of the whole numbers these bounds hold.
    pub fn holds(self, value: i64) -> (held: bool)
        ensures
            held == (self.lowest <= value && value <= self.highest),
    {
        self.lowest <= value && value <= self.highest
    }
}

/// The one whole number `method` is written as, or nothing where its body says anything else.
pub open spec fn spec_read(method: Function) -> Option<i64> {
    if method.body.statements@.len() == 1 {
        match method.body.statements@[0].kind {
            StatementKind::Expr(written) => match written.kind {
                ExprKind::Integer(value) => Some(value),
                _ => None,
            },
            _ => None,
        }
    } else {
        None
    }
}

/// The whole number `method` is written as, or nothing where its body says anything else.
///
/// A `-` in front of a number is part of the number the parser read, so nothing here looks for
/// one: `-5` and `- 5` are both the one literal `-5` by the time any of this is reached.
pub fn read(method: &Function) -> (value: Option<i64>)
    ensures
        value == spec_read(*method),
{
    if method.body.statements.len() != 1 {
        return None;
    }
    match &method.body.statements[0].kind {
        StatementKind::Expr(written) => match written.kind {
            ExprKind::Integer(value) => Some(value),
            _ => None,
        },
        _ => None,
    }
}

/// Whether a method is the one called `named`.
pub open spec fn method_named(named: Seq<char>) -> spec_fn(Function) -> bool {
    |method: Function| method.name.text@ == named
}

/// The whole number the method `named` is written as, in an instance that writes one, or the
/// refusal of a body that is anything else.
pub open spec fn spec_whole_number(declaration: InstanceDeclaration, named: Seq<char>) -> Result<
    i64,
    TypeErrorKind,
> {
    let k = first_where(declaration.methods@, method_named(named))->Some_0;
    match spec_read(declaration.methods@[k]) {
        Some(value) => Ok(value),
        None => Err(
            TypeErrorKind::BoundIsNotAWholeNumber {
                bound: declaration.methods@[k].name.text,
                of: declaration.for_type.text,
            },
        ),
    }
}

/// Whether an instance writes a method called `named`.
pub open spec fn writes_method(declaration: InstanceDeclaration, named: Seq<char>) -> bool {
    exists|k: int|
        0 <= k < declaration.methods@.len() && #[trigger] declaration.methods@[k].name.text@
            == named
}

/// The one whole number the method `named` is written as, in the instance that writes it.
pub fn whole_number(declaration: &InstanceDeclaration, named: &str) -> (value: Result<i64, TypeError>)
    requires
        writes_method(*declaration, named@),
    ensures
        match spec_whole_number(*declaration, named@) {
            Ok(number) => value == Ok::<i64, TypeError>(number),
            Err(kind) => value matches Err(error) && error.spec_kind().spec_message()
                == kind.spec_message() && error.spec_kind().spec_code() == kind.spec_code()
                && error.spec_span() == declaration.methods@[first_where(
                declaration.methods@,
                method_named(named@),
            )->Some_0].body.span,
        },
{
    let ghost wanted = method_named(named@);
    let mut i: usize = 0;
    while i < declaration.methods.len()
        invariant
            i <= declaration.methods@.len(),
            wanted == method_named(named@),
            writes_method(*declaration, named@),
            forall|j: int| 0 <= j < i ==> !wanted(#[trigger] declaration.methods@[j]),
        decreases declaration.methods.len() - i,
    {
        let method = &declaration.methods[i];
        if same_text(method.name.text.as_str(), named) {
            proof {
                lemma_first_where(declaration.methods@, wanted, i as int);
            }
            return match read(method) {
                Some(number) => Ok(number),
                None => {
                    let kind = TypeErrorKind::BoundIsNotAWholeNumber {
                        bound: String::from_str(named),
                        of: declaration.for_type.text.clone(),
                    };
                    Err(TypeError::at(method.body.span, kind))
                },
            };
        }
        i = i + 1;
    }
    proof {
        let k = choose|k: int|
            0 <= k < declaration.methods@.len() && #[trigger] declaration.methods@[k].name.text@
                == named@;
        assert(wanted(declaration.methods@[k]));
    }
    vstd::pervasive::unreached()
}

/// The bounds `declaration` states, read off the bodies of its `lowest` and its `highest`.
pub fn stated(declaration: &InstanceDeclaration) -> (bounds: Result<Bounds, TypeError>)
    requires
        writes_method(*declaration, LOWEST@),
        writes_method(*declaration, HIGHEST@),
    ensures
        match (spec_whole_number(*declaration, LOWEST@), spec_whole_number(*declaration, HIGHEST@)) {
            (Ok(lowest), Ok(highest)) => bounds == Ok::<Bounds, TypeError>(
                Bounds { lowest, highest },
            ),
            (Err(kind), _) => bounds matches Err(error) && error.spec_kind().spec_message()
                == kind.spec_message(),
            (Ok(_), Err(kind)) => bounds matches Err(error) && error.spec_kind().spec_message()
                == kind.spec_message(),
        },
{
    let lowest = whole_number(declaration, LOWEST)?;
    let highest = whole_number(declaration, HIGHEST)?;
    Ok(Bounds { lowest, highest })
}

} // verus!
