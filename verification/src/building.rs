//! Building a record: what `User { … }` gives once the value of each field has a type.
use vstd::prelude::*;

use crate::ast::{FieldValue, Path, Span};
use crate::calls::expect;
use crate::environment::key::{Key, KeyView};
use crate::environment::{Environment, EnvironmentView};
use crate::lookup::{first_index, lemma_first_index};
use crate::records::{
    build_without_fields, built_without_labels, given, labelled, missing_field, path_text,
};
use crate::table::Table;
use crate::unify::size;
use crate::text::texts;
use crate::type_error::{TypeError, TypeErrorKind};
use crate::types::{lemma_views_of, views_of, Type, TypeView};
use crate::unify::{
    arguments_unify, grew, lemma_grew, lemma_grew_same, lemma_pairs_size, next_bound, pairs_size, room,
    Clash,
};

verus! {

/// The labels the constructor defined at `key` takes, in order; none where it takes none.
pub open spec fn labels_of(environment: EnvironmentView, key: KeyView) -> Seq<Seq<char>> {
    if environment.labels.contains_key(key) {
        environment.labels[key]
    } else {
        Seq::empty()
    }
}

/// Whether the field at `k` names one of `labels` and its value is followed to the type the
/// constructor takes at the first such label.
pub open spec fn field_fits(
    table: Table,
    labels: Seq<Seq<char>>,
    parameters: Seq<TypeView>,
    fields: Seq<FieldValue>,
    found: Seq<Type>,
    k: int,
) -> bool {
    first_index(labels, fields[k].name.text@) matches Some(i) && table.spec_solved(parameters[i])
        == table.spec_solved(found[k]@)
}

/// How the field at `k` is refused: as a field the record does not have, at its name, where it
/// names no label; otherwise at its value, as a value of the wrong type.
pub open spec fn field_refused(
    error: TypeError,
    table: Table,
    labels: Seq<Seq<char>>,
    parameters: Seq<TypeView>,
    result: TypeView,
    fields: Seq<FieldValue>,
    found: Seq<Type>,
    k: int,
) -> bool {
    match first_index(labels, fields[k].name.text@) {
        None => (error.spec_kind() matches TypeErrorKind::UnknownField { of, field } && of@ == result
            && field@ == fields[k].name.text@) && error.spec_span() == fields[k].name.span,
        Some(i) => error.spec_span() == fields[k].value.span && (error.spec_kind()
            == TypeErrorKind::Infinite || (error.spec_kind() matches TypeErrorKind::Mismatch {
            expected,
            found: given,
        } && expected@ == table.spec_solved(parameters[i]) && given@ == table.spec_solved(
            found[k]@,
        ))),
    }
}

/// Whether `error` names the first of `labels` that no field gives a value, at `at`.
pub open spec fn label_missing(
    error: TypeError,
    base: Path,
    labels: Seq<Seq<char>>,
    fields: Seq<FieldValue>,
    at: Span,
) -> bool {
    exists|k: int|
        0 <= k < labels.len() && !given(fields, #[trigger] labels[k]) && (forall|j: int|
            0 <= j < k ==> given(fields, labels[j])) && (error.spec_kind() matches TypeErrorKind::MissingField {
            of,
            field,
        } && of@ == path_text(base) && field@ == labels[k]) && error.spec_span() == at
}

/// Whether each of `fields` names one of `labels`.
pub open spec fn all_labelled(labels: Seq<Seq<char>>, fields: Seq<FieldValue>) -> bool {
    forall|k: int| 0 <= k < fields.len() ==> #[trigger] first_index(labels, fields[k].name.text@) is Some
}

/// The type the constructor takes at the label each of `fields` names, in the order the fields
/// are written.
pub open spec fn taken_at(
    labels: Seq<Seq<char>>,
    parameters: Seq<TypeView>,
    fields: Seq<FieldValue>,
) -> Seq<TypeView> {
    Seq::new(
        fields.len(),
        |k: int|
            match first_index(labels, fields[k].name.text@) {
                Some(j) => parameters[j],
                None => TypeView::Unit,
            },
    )
}

/// How a build's refusal stands to unification: the clash it reports where it reports one, and
/// `Ok` where it was built, or refused for something else.
pub open spec fn clash_in(built: Result<Type, TypeError>) -> Result<(), Clash> {
    match built {
        Err(error) => if error.spec_kind() == TypeErrorKind::Infinite {
            Err(Clash::Infinite)
        } else if error.spec_kind() is Mismatch {
            Err(Clash::Mismatch)
        } else {
            Ok(())
        },
        Ok(_) => Ok(()),
    }
}

/// The record `base { … }` builds with the constructor defined at `key`, whose type at this use
/// is `built_as`; `found` holds the type of each field's value, in the order the fields are written.
///
/// A constructor that takes nothing has no field to give a value to. One that carries its values
/// without labels has no field names to write them against. Otherwise each field, in order, must
/// name a label and give a value of the type taken there, and every label must be given; the
/// record built is what the constructor gives.
#[verifier::rlimit(60)]
pub fn build(
    table: &mut Table,
    environment: &Environment,
    key: &Key,
    built_as: &Type,
    base: &Path,
    fields: &Vec<FieldValue>,
    found: &Vec<Type>,
    at: Span,
) -> (built: Result<Type, TypeError>)
    requires
        old(table).well_formed(),
        old(table).holds_made(built_as@),
        fields@.len() == found@.len(),
        forall|k: int| 0 <= k < found@.len() ==> old(table).holds_made((#[trigger] found@[k])@),
    ensures
        grew(*final(table), *old(table)),
        match built_as@ {
            TypeView::Function(parameters, result) => {
                let labels = labels_of(environment@, key@);
                if labels.len() != parameters.len() {
                    &&& final(table).entries() == old(table).entries()
                    &&& built matches Err(error)
                    &&& fields@.len() == 0 ==> (error.spec_kind() matches TypeErrorKind::WrongArgumentCount(count)
                        && count.name@ == base.name.text@ && count.takes == parameters.len()
                        && count.given == 0) && error.spec_span() == base.name.span
                    &&& fields@.len() > 0 ==> (error.spec_kind() matches TypeErrorKind::UnknownField {
                        of,
                        field,
                    } && of@ == *result && field@ == fields@[0].name.text@) && error.spec_span()
                        == fields@[0].name.span
                } else {
                    &&& built matches Ok(record) ==> record@ == *result && (forall|k: int|
                        0 <= k < fields@.len() ==> #[trigger] field_fits(
                            *final(table),
                            labels,
                            parameters,
                            fields@,
                            found@,
                            k,
                        )) && forall|j: int| 0 <= j < labels.len() ==> given(fields@, #[trigger] labels[j])
                    &&& built matches Err(error) ==> (exists|k: int|
                        0 <= k < fields@.len() && (forall|j: int|
                            0 <= j < k ==> #[trigger] field_fits(
                                *final(table),
                                labels,
                                parameters,
                                fields@,
                                found@,
                                j,
                            )) && #[trigger] field_refused(
                            error,
                            *final(table),
                            labels,
                            parameters,
                            *result,
                            fields@,
                            found@,
                            k,
                        )) || ((forall|k: int|
                        0 <= k < fields@.len() ==> #[trigger] field_fits(
                            *final(table),
                            labels,
                            parameters,
                            fields@,
                            found@,
                            k,
                        )) && label_missing(error, *base, labels, fields@, at))
                    &&& all_labelled(labels, fields@) ==> arguments_unify(
                        *old(table),
                        pairs_size(
                            *old(table),
                            taken_at(labels, parameters, fields@),
                            views_of(found@),
                            fields@.len() as int,
                        ) + 1,
                        taken_at(labels, parameters, fields@),
                        views_of(found@),
                        0,
                        clash_in(built),
                        *final(table),
                    )
                    &&& ((forall|k: int|
                        0 <= k < fields@.len() ==> #[trigger] field_fits(
                            *old(table),
                            labels,
                            parameters,
                            fields@,
                            found@,
                            k,
                        )) && forall|j: int| 0 <= j < labels.len() ==> given(fields@, #[trigger] labels[j]))
                        ==> built is Ok && final(table).entries() == old(table).entries()
                }
            },
            _ => {
                &&& final(table).entries() == old(table).entries()
                &&& fields@.len() == 0 ==> (built matches Ok(record) && record@ == built_as@)
                &&& fields@.len() > 0 ==> (built matches Err(error) && (error.spec_kind() matches TypeErrorKind::UnknownField {
                    of,
                    field,
                } && of@ == built_as@ && field@ == fields@[0].name.text@) && error.spec_span()
                    == fields@[0].name.span)
            },
        },
{
    proof {
        table.lemma_well_formed();
        assert(table.entries().take(table.entries().len() as int) =~= table.entries());
    }
    let labels = environment.labels(key);
    let ghost label_texts = labels_of(environment@, key@);
    let (parameters, result) = match built_as {
        Type::Function { parameters, result } => (parameters, result),
        _ => {
            return build_without_fields(built_as.copied(), fields);
        },
    };
    proof {
        lemma_views_of(parameters@);
        assert(texts(labels@) == label_texts);
        assert forall|k: int| 0 <= k < labels@.len() implies #[trigger] texts(labels@)[k]
            == labels@[k]@ by {}
    }
    if labels.len() != parameters.len() {
        return Err(built_without_labels(base, fields, parameters.len(), result));
    }
    let ghost start = *table;
    let ghost taken = taken_at(label_texts, views_of(parameters@), fields@);
    let ghost supplied = views_of(found@);
    let ghost first_bound: nat = pairs_size(start, taken, supplied, fields@.len() as int) + 1;
    let ghost mut current: nat = first_bound;
    let ghost labelled_all = all_labelled(label_texts, fields@);
    proof {
        lemma_views_of(found@);
        assert forall|k: int| 0 <= k < fields@.len() implies size(start.spec_solved(#[trigger] taken[k]))
            + size(start.spec_solved(supplied[k])) < current by {
            lemma_pairs_size(start, taken, supplied, fields@.len() as int, k);
        }
    }
    let mut i: usize = 0;
    while i < fields.len()
        invariant
            i <= fields@.len(),
            fields@.len() == found@.len(),
            taken == taken_at(label_texts, views_of(parameters@), fields@),
            supplied == views_of(found@),
            supplied.len() == found@.len(),
            forall|k: int| 0 <= k < found@.len() ==> #[trigger] supplied[k] == found@[k]@,
            first_bound == pairs_size(start, taken, supplied, fields@.len() as int) + 1,
            labelled_all == all_labelled(label_texts, fields@),
            forall|k: int|
                i <= k < fields@.len() ==> size(table.spec_solved(#[trigger] taken[k])) + size(
                    table.spec_solved(supplied[k]),
                ) < current,
            forall|r: Result<(), Clash>, a: Table|
                #[trigger] arguments_unify(*table, current, taken, supplied, i as int, r, a) ==> arguments_unify(
                    start,
                    first_bound,
                    taken,
                    supplied,
                    0,
                    r,
                    a,
                ),
            start == *old(table),
            grew(*table, start),
            built_as@ == TypeView::Function(views_of(parameters@), Box::new(result@)),
            texts(labels@) == label_texts,
            label_texts == labels_of(environment@, key@),
            label_texts.len() == parameters@.len(),
            views_of(parameters@).len() == parameters@.len(),
            forall|k: int| 0 <= k < labels@.len() ==> #[trigger] texts(labels@)[k] == labels@[k]@,
            start.holds_made(built_as@),
            forall|k: int| 0 <= k < found@.len() ==> start.holds_made((#[trigger] found@[k])@),
            forall|k: int|
                0 <= k < i ==> #[trigger] field_fits(
                    *table,
                    label_texts,
                    views_of(parameters@),
                    fields@,
                    found@,
                    k,
                ),
            (forall|k: int|
                0 <= k < fields@.len() ==> #[trigger] field_fits(
                    start,
                    label_texts,
                    views_of(parameters@),
                    fields@,
                    found@,
                    k,
                )) ==> table.entries() == start.entries(),
        decreases fields.len() - i,
    {
        let field = &fields[i];
        let index = match labelled(&labels, &field.name, result) {
            Ok(index) => index,
            Err(error) => {
                proof {
                    assert forall|k: int| 0 <= k < label_texts.len() implies #[trigger] label_texts[k]
                        != field.name.text@ by {
                        assert(texts(labels@)[k] == labels@[k]@);
                    }
                    assert(first_index(label_texts, field.name.text@) is None);
                    assert(!field_fits(start, label_texts, views_of(parameters@), fields@, found@, i as int));
                    assert(field_refused(
                        error,
                        *table,
                        label_texts,
                        views_of(parameters@),
                        result@,
                        fields@,
                        found@,
                        i as int,
                    ));
                }
                return Err(error);
            },
        };
        proof {
            assert forall|j: int| 0 <= j < index implies label_texts[j] != field.name.text@ by {
                assert(texts(labels@)[j] == labels@[j]@);
            }
            assert(texts(labels@)[index as int] == labels@[index as int]@);
            lemma_first_index(label_texts, field.name.text@, index as int);
            table.lemma_well_formed();
            assert(start.holds_made(parameters@[index as int]@)) by {
                assert forall|x: crate::types::TypeVar| crate::table::mentions(
                    parameters@[index as int]@,
                    x,
                ) implies x.0 < start.made() by {
                    lemma_views_of(parameters@);
                    assert(views_of(parameters@)[index as int] == parameters@[index as int]@);
                    crate::lookup::lemma_mentions_among_at(
                        views_of(parameters@),
                        index as int,
                        parameters@.len() as int,
                        x,
                    );
                    assert(crate::table::mentions(built_as@, x));
                }
            }
            if forall|k: int|
                0 <= k < fields@.len() ==> #[trigger] field_fits(
                    start,
                    label_texts,
                    views_of(parameters@),
                    fields@,
                    found@,
                    k,
                ) {
                assert(field_fits(start, label_texts, views_of(parameters@), fields@, found@, i as int));
                assert(table.rank() == start.rank());
            }
        }
        let ghost before = *table;
        proof {
            assert(taken[i as int] == views_of(parameters@)[index as int]);
            assert(size(before.spec_solved(taken[i as int])) + size(before.spec_solved(supplied[i as int])) < current);
        }
        let met = expect(table, &parameters[index], &found[i], field.value.span);
        proof {
            lemma_views_of(parameters@);
            assert(views_of(parameters@)[index as int] == parameters@[index as int]@);
            lemma_grew(*table, before, start);
            table.lemma_well_formed();
            before.lemma_well_formed();
            assert forall|k: int| 0 <= k < i implies #[trigger] field_fits(
                *table,
                label_texts,
                views_of(parameters@),
                fields@,
                found@,
                k,
            ) by {
                let j = first_index(label_texts, fields@[k].name.text@)->Some_0;
                assert(field_fits(before, label_texts, views_of(parameters@), fields@, found@, k));
                crate::laws::law_unified_stays_unified(
                    *table,
                    before,
                    views_of(parameters@)[j],
                    found@[k]@,
                );
            }
        }
        if let Err(error) = met {
            proof {
                assert(crate::unify::unifies(before, taken[i as int], supplied[i as int], clash_in(Err(error)), *table));
                assert(arguments_unify(before, current, taken, supplied, i as int, clash_in(Err(error)), *table));
                assert(field_refused(
                    error,
                    *table,
                    label_texts,
                    views_of(parameters@),
                    result@,
                    fields@,
                    found@,
                    i as int,
                ));
            }
            return Err(error);
        }
        proof {
            table.lemma_count();
            let u: () = met->Ok_0;
            assert(u == ());
            assert(crate::unify::unifies(before, taken[i as int], supplied[i as int], Ok(()), *table));
            let next = next_bound(before, *table, current, taken, supplied);
            assert forall|k: int| i + 1 <= k < fields@.len() implies size(
                table.spec_solved(#[trigger] taken[k]),
            ) + size(table.spec_solved(supplied[k])) < next by {
                if table.entries().len() == before.entries().len() {
                    lemma_grew_same(*table, before);
                } else {
                    lemma_pairs_size(*table, taken, supplied, taken.len() as int, k);
                }
            }
            assert forall|r: Result<(), Clash>, a: Table|
                #[trigger] arguments_unify(*table, next, taken, supplied, i + 1, r, a) implies arguments_unify(
                    start,
                    first_bound,
                    taken,
                    supplied,
                    0,
                    r,
                    a,
                ) by {
                assert(grew(*table, before) && room(*table));
                assert(arguments_unify(before, current, taken, supplied, i as int, r, a));
            }
            current = next;
        }
        i = i + 1;
    }
    proof {
        assert(arguments_unify(*table, current, taken, supplied, i as int, Ok(()), *table));
    }
    match missing_field(base, &labels, fields, at) {
        Ok(()) => {},
        Err(error) => {
            proof {
                let k = choose|k: int|
                    0 <= k < labels@.len() && !given(fields@, #[trigger] labels@[k]@) && (forall|j: int|
                        0 <= j < k ==> given(fields@, labels@[j]@)) && (error.spec_kind() matches TypeErrorKind::MissingField {
                        of,
                        field,
                    } && of@ == path_text(*base) && field@ == labels@[k]@) && error.spec_span() == at;
                assert(texts(labels@)[k] == labels@[k]@);
                assert forall|j: int| 0 <= j < k implies given(fields@, label_texts[j]) by {
                    assert(texts(labels@)[j] == labels@[j]@);
                }
                assert(!given(fields@, label_texts[k]));
            }
            return Err(error);
        },
    }
    Ok(result.copied())
}

} // verus!
