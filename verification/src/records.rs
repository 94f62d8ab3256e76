//! The rules a record is built and read by: each field given once, each one the record has, and
//! none it does not.
use vstd::prelude::*;

use crate::ast::{FieldValue, Name, Path, Span};
use crate::text::same_text;
use crate::type_error::{Count, TypeError, TypeErrorKind};
use crate::types::Type;

verus! {

/// How a path is written: the module and a dot in front of the name where it has one.
pub open spec fn path_text(path: Path) -> Seq<char> {
    match path.module {
        Some(module) => module.text@ + "."@ + path.name.text@,
        None => path.name.text@,
    }
}

/// How a path is written: the module and a dot in front of the name where it has one.
pub fn written_path(path: &Path) -> (written: String)
    ensures
        written@ == path_text(*path),
{
    match &path.module {
        Some(module) => {
            let mut written = module.text.clone();
            written.append(".");
            written.append(path.name.text.as_str());
            written
        },
        None => path.name.text.clone(),
    }
}

/// The place of the label `field` names, or the report that the record has no such field.
pub fn labelled(labels: &Vec<String>, field: &Name, of: &Type) -> (index: Result<usize, TypeError>)
    ensures
        match index {
            Ok(k) => k < labels@.len() && labels@[k as int]@ == field.text@ && forall|j: int|
                0 <= j < k ==> labels@[j]@ != field.text@,
            Err(error) => (forall|k: int| 0 <= k < labels@.len() ==> labels@[k]@ != field.text@)
                && (error.spec_kind() matches TypeErrorKind::UnknownField { of: found, field: named }
                && found@ == of@ && named@ == field.text@) && error.spec_span() == field.span,
        },
{
    let mut i: usize = 0;
    while i < labels.len()
        invariant
            i <= labels@.len(),
            forall|j: int| 0 <= j < i ==> labels@[j]@ != field.text@,
        decreases labels.len() - i,
    {
        if same_text(labels[i].as_str(), field.text.as_str()) {
            return Ok(i);
        }
        i = i + 1;
    }
    let kind = TypeErrorKind::UnknownField { of: of.copied(), field: field.text.clone() };
    Err(TypeError::at(field.span, kind))
}

/// A variant that carries nothing has no field to give a value to.
pub fn build_without_fields(built: Type, fields: &Vec<FieldValue>) -> (checked: Result<Type, TypeError>)
    ensures
        fields@.len() == 0 ==> checked == Ok::<Type, TypeError>(built),
        fields@.len() > 0 ==> (checked matches Err(error) && error.spec_kind() == (
        TypeErrorKind::UnknownField { of: built, field: fields@[0].name.text })
            && error.spec_span() == fields@[0].name.span),
{
    if fields.len() == 0 {
        return Ok(built);
    }
    let field = &fields[0];
    let kind = TypeErrorKind::UnknownField { of: built, field: field.name.text.clone() };
    Err(TypeError::at(field.name.span, kind))
}

/// Whether the field at `k` repeats a name a field before it already gave.
pub open spec fn repeats(fields: Seq<FieldValue>, k: int) -> bool {
    exists|j: int| 0 <= j < k && #[trigger] fields[j].name.text@ == fields[k].name.text@
}

/// Reports the first field of `fields` that a field before it already gave a value.
pub fn written_once(base: &Path, fields: &Vec<FieldValue>) -> (checked: Result<(), TypeError>)
    ensures
        match checked {
            Ok(()) => forall|k: int| 0 <= k < fields@.len() ==> !repeats(fields@, k),
            Err(error) => exists|k: int|
                0 <= k < fields@.len() && repeats(fields@, k) && (forall|j: int|
                    0 <= j < k ==> !repeats(fields@, j)) && (error.spec_kind() matches TypeErrorKind::FieldWrittenTwice {
                    of,
                    field,
                } && of@ == path_text(*base) && field@ == fields@[k].name.text@) && error.spec_span()
                    == fields@[k].name.span,
        },
{
    let mut i: usize = 0;
    while i < fields.len()
        invariant
            i <= fields@.len(),
            forall|k: int| 0 <= k < i ==> !repeats(fields@, k),
        decreases fields.len() - i,
    {
        let mut j: usize = 0;
        while j < i
            invariant
                j <= i < fields@.len(),
                forall|k: int| 0 <= k < i ==> !repeats(fields@, k),
                forall|k: int| 0 <= k < j ==> fields@[k].name.text@ != fields@[i as int].name.text@,
            decreases i - j,
        {
            if same_text(fields[j].name.text.as_str(), fields[i].name.text.as_str()) {
                let kind = TypeErrorKind::FieldWrittenTwice {
                    of: written_path(base),
                    field: fields[i].name.text.clone(),
                };
                let error = TypeError::at(fields[i].name.span, kind);
                assert(repeats(fields@, i as int));
                assert(0 <= i < fields@.len() && repeats(fields@, i as int) && (forall|m: int|
                    0 <= m < i ==> !repeats(fields@, m)) && (error.spec_kind() matches TypeErrorKind::FieldWrittenTwice {
                    of,
                    field,
                } && of@ == path_text(*base) && field@ == fields@[i as int].name.text@) && error.spec_span()
                    == fields@[i as int].name.span);
                return Err(error);
            }
            j = j + 1;
        }
        i = i + 1;
    }
    Ok(())
}

/// A variant that carries its values in order has no field names to write them against.
///
/// Every field written against one is a field it does not have; writing none of them is a call
/// that passed nothing where it carries something.
pub fn built_without_labels(base: &Path, fields: &Vec<FieldValue>, carries: usize, built: &Type) -> (refused:
    TypeError)
    ensures
        fields@.len() == 0 ==> (refused.spec_kind() matches TypeErrorKind::WrongArgumentCount(count)
            && count.name@ == base.name.text@ && count.takes == carries && count.given == 0)
            && refused.spec_span() == base.name.span,
        fields@.len() > 0 ==> (refused.spec_kind() matches TypeErrorKind::UnknownField { of, field }
            && of@ == built@ && field@ == fields@[0].name.text@) && refused.spec_span()
            == fields@[0].name.span,
{
    if fields.len() == 0 {
        return miscounted(&base.name, carries, 0);
    }
    let field = &fields[0];
    let kind = TypeErrorKind::UnknownField { of: built.copied(), field: field.name.text.clone() };
    TypeError::at(field.name.span, kind)
}

/// A call of `name` that passes `given` arguments where it takes `takes`.
pub fn miscounted(name: &Name, takes: usize, given: usize) -> (refused: TypeError)
    ensures
        refused.spec_kind() matches TypeErrorKind::WrongArgumentCount(count) && count.name@
            == name.text@ && count.takes == takes && count.given == given,
        refused.spec_span() == name.span,
{
    let count = Count { name: name.text.clone(), takes, given };
    TypeError::at(name.span, TypeErrorKind::WrongArgumentCount(count))
}

/// Whether some field gives a value to the label `label`.
pub open spec fn given(fields: Seq<FieldValue>, label: Seq<char>) -> bool {
    exists|k: int| 0 <= k < fields.len() && #[trigger] fields[k].name.text@ == label
}

/// Refuses a record built without a value for one of its labels, naming the first of them.
pub fn missing_field(base: &Path, labels: &Vec<String>, fields: &Vec<FieldValue>, at: Span) -> (checked:
    Result<(), TypeError>)
    ensures
        match checked {
            Ok(()) => forall|k: int| 0 <= k < labels@.len() ==> given(fields@, #[trigger] labels@[k]@),
            Err(error) => exists|k: int|
                0 <= k < labels@.len() && !given(fields@, #[trigger] labels@[k]@) && (forall|j: int|
                    0 <= j < k ==> given(fields@, labels@[j]@)) && (error.spec_kind() matches TypeErrorKind::MissingField {
                    of,
                    field,
                } && of@ == path_text(*base) && field@ == labels@[k]@) && error.spec_span() == at,
        },
{
    let mut i: usize = 0;
    while i < labels.len()
        invariant
            i <= labels@.len(),
            forall|k: int| 0 <= k < i ==> given(fields@, #[trigger] labels@[k]@),
        decreases labels.len() - i,
    {
        let mut j: usize = 0;
        let mut found = false;
        while j < fields.len()
            invariant
                j <= fields@.len(),
                i < labels@.len(),
                forall|k: int| 0 <= k < i ==> given(fields@, #[trigger] labels@[k]@),
                found ==> given(fields@, labels@[i as int]@),
                !found ==> forall|k: int| 0 <= k < j ==> fields@[k].name.text@ != labels@[i as int]@,
            decreases fields.len() - j,
        {
            if same_text(fields[j].name.text.as_str(), labels[i].as_str()) {
                found = true;
            }
            j = j + 1;
        }
        if !found {
            let kind = TypeErrorKind::MissingField { of: written_path(base), field: labels[i].clone() };
            let error = TypeError::at(at, kind);
            assert(!given(fields@, labels@[i as int]@));
            assert(0 <= i < labels@.len() && !given(fields@, labels@[i as int]@) && (forall|m: int|
                0 <= m < i ==> given(fields@, labels@[m]@)) && (error.spec_kind() matches TypeErrorKind::MissingField {
                of,
                field,
            } && of@ == path_text(*base) && field@ == labels@[i as int]@) && error.spec_span() == at);
            return Err(error);
        }
        i = i + 1;
    }
    Ok(())
}

/// A field reached through something that has no fields, or through a type nothing settled.
pub fn unreachable_field(through: &Type, field: &Name) -> (refused: TypeError)
    ensures
        refused.spec_span() == field.span,
        through@ is Var ==> refused.spec_kind() == TypeErrorKind::UnknownReceiver(field.text),
        !(through@ is Var) ==> (refused.spec_kind() matches TypeErrorKind::UnknownField { of, field: named }
            && of@ == through@ && named@ == field.text@),
{
    let kind = match through {
        Type::Var(_) => TypeErrorKind::UnknownReceiver(field.text.clone()),
        _ => TypeErrorKind::UnknownField { of: through.copied(), field: field.text.clone() },
    };
    TypeError::at(field.span, kind)
}

} // verus!
