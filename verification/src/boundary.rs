//! What crosses the boundary an `extern` declaration is, and what a Java name is.
//!
//! A signature is the whole of the boundary: every type in it compiles to exactly the JVM type
//! the member's own descriptor holds, so the types that may be written are the ones that have
//! one. What a declaration cannot say is not reachable, and the answer to that is another
//! declaration rather than a rule that widens one of these.
use vstd::prelude::*;

use crate::ast::{Called, ExternDeclaration, Gives, JavaName, Reaches, Span};
use crate::prelude::{first_where, lemma_first_where};
use crate::reaching_java::ReachingJava;
use crate::text::same_text;
use crate::type_error::{TypeError, TypeErrorKind};
use crate::types::{lemma_views_of, plain, views_of, Type, TypeView, INT, LIST, OPTION, RESULT, STRING};

verus! {

/// Where a type is written in an `extern` signature, which is what decides whether it may be.
#[derive(Clone, Copy, Debug, PartialEq, Eq, Structural)]
pub enum Crossing {
    /// A parameter, which is a value the caller already holds.
    Taken,
    /// The result of a call, which is where nothing given back and the two answers are written.
    GivenBack,
    /// The result of a `field`, which is a value a class holds and so is never nothing at all.
    Held,
}

impl Crossing {
    /// Where the result of `reaches` is written, which a `field` alone holds rather than gives.
    ///
    /// The JVM has no field of type `void`, so a `field` declared `()` reaches nothing to read,
    /// and refusing it here is what leaves the lowering with a value to get in every case.
    pub fn of(reaches: &Reaches) -> (crossing: Crossing)
        ensures
            crossing == if reaches is Field {
                Crossing::Held
            } else {
                Crossing::GivenBack
            },
    {
        match reaches {
            Reaches::Field(_) => Crossing::Held,
            Reaches::Static(_) | Reaches::Method(_) | Reaches::New => Crossing::GivenBack,
        }
    }

    /// What a member does with a value written here, as a message reads it.
    pub open spec fn spec_what_a_member_does(self) -> Seq<char> {
        match self {
            Crossing::Taken => "takes"@,
            Crossing::GivenBack => "gives back"@,
            Crossing::Held => "holds"@,
        }
    }

    /// What a member does with a value written here, as a message reads it.
    pub fn what_a_member_does(self) -> (words: &'static str)
        ensures
            words@ == self.spec_what_a_member_does(),
    {
        match self {
            Crossing::Taken => "takes",
            Crossing::GivenBack => "gives back",
            Crossing::Held => "holds",
        }
    }
}

/// How a method of each extern type is called, by the name an `extern type` gives it.
pub type Foreign = Vec<(String, Called)>;

/// The extern types, as the specifications read them.
pub open spec fn foreign_view(foreign: Seq<(String, Called)>) -> Seq<(Seq<char>, Called)> {
    foreign.map_values(|one: (String, Called)| (one.0@, one.1))
}

/// Whether an extern type is the one called `name`.
pub open spec fn foreign_named(name: Seq<char>) -> spec_fn((Seq<char>, Called)) -> bool {
    |one: (Seq<char>, Called)| one.0 == name
}

/// How the extern type called `name` is called, where an `extern type` declares one.
pub open spec fn called_as(foreign: Seq<(Seq<char>, Called)>, name: Seq<char>) -> Option<Called> {
    match first_where(foreign, foreign_named(name)) {
        Some(k) => Some(foreign[k].1),
        None => None,
    }
}

/// How the extern type called `name` is called, where an `extern type` declares one.
pub fn calls(foreign: &Foreign, name: &String) -> (called: Option<Called>)
    ensures
        called == called_as(foreign_view(foreign@), name@),
{
    let ghost view = foreign_view(foreign@);
    let ghost wanted = foreign_named(name@);
    let mut i: usize = 0;
    while i < foreign.len()
        invariant
            i <= foreign@.len(),
            view == foreign_view(foreign@),
            wanted == foreign_named(name@),
            forall|j: int| 0 <= j < i ==> !wanted(#[trigger] view[j]),
        decreases foreign.len() - i,
    {
        if foreign[i].0 == *name {
            proof {
                lemma_first_where(view, wanted, i as int);
            }
            return Some(foreign[i].1);
        }
        i = i + 1;
    }
    None
}

/// Whether a value of `held` is one the JVM holds as a reference, which is what may be `null`.
pub open spec fn spec_is_a_reference(held: TypeView, foreign: Seq<(Seq<char>, Called)>) -> bool {
    held matches TypeView::Named(name, arguments) && arguments.len() == 0 && (name == STRING@
        || called_as(foreign, name) is Some)
}

/// Whether a Java member carries `held` where `crossing` says it is written.
///
/// `()` is the one a `field` parts company over: a member gives nothing back, and a field holds
/// something or is no field. `List<T>` is a `java.util.List` already, so a member takes one as it
/// takes any other value; it is a parameter and never a result, because a list a member gives
/// back is a JVM object the member may still reach through and change, and what it holds is held
/// to the same rule.
pub open spec fn spec_carries(crossing: Crossing, foreign: Seq<(Seq<char>, Called)>, held: TypeView) -> bool
    decreases held, 1int,
{
    match held {
        TypeView::Named(name, arguments) => if arguments.len() == 0 && (name == "Bool"@ || name
            == INT@ || name == STRING@) {
            true
        } else if name == LIST@ && arguments.len() == 1 {
            crossing == Crossing::Taken && spec_carries(Crossing::Taken, foreign, arguments[0])
        } else if arguments.len() == 0 {
            called_as(foreign, name) is Some
        } else {
            spec_is_an_answer(crossing, foreign, held)
        },
        _ => held is Unit && crossing == Crossing::GivenBack,
    }
}

/// Whether `held` is an answer a member gives back, carrying what it wraps where it is.
///
/// `Option` and `Result` are answers rather than values, so each is a result and never a
/// parameter. `Option<Int>` is neither: a `long` is never `null`, so nothing it held could say
/// `None`. Neither wraps `()` either, because a variant carrying nothing at all is not a thing a
/// constructor of one builds.
pub open spec fn spec_is_an_answer(crossing: Crossing, foreign: Seq<(Seq<char>, Called)>, held: TypeView) -> bool
    decreases held, 0int,
{
    match held {
        TypeView::Named(name, arguments) => if crossing == Crossing::Taken {
            false
        } else if name == OPTION@ && arguments.len() == 1 {
            spec_is_a_reference(arguments[0], foreign)
        } else if name == RESULT@ && arguments.len() == 2 && (arguments[1] matches TypeView::Named(
            error,
            _,
        ) && error == STRING@) {
            !(arguments[0] is Unit) && spec_carries(crossing, foreign, arguments[0])
        } else {
            false
        },
        _ => false,
    }
}

/// Whether a value of `held` is one the JVM holds as a reference, which is what may be `null`.
pub fn is_a_reference(held: &Type, foreign: &Foreign) -> (reference: bool)
    ensures
        reference == spec_is_a_reference(held@, foreign_view(foreign@)),
{
    match held {
        Type::Named { name, arguments } => {
            proof {
                lemma_views_of(arguments@);
            }
            arguments.len() == 0 && (same_text(name.as_str(), STRING) || calls(foreign, name).is_some())
        },
        _ => false,
    }
}

/// Whether a Java member carries `held` where `crossing` says it is written.
pub fn carries(crossing: Crossing, foreign: &Foreign, held: &Type) -> (carried: bool)
    ensures
        carried == spec_carries(crossing, foreign_view(foreign@), held@),
    decreases held@, 1int,
{
    match held {
        Type::Named { name, arguments } => {
            proof {
                lemma_views_of(arguments@);
            }
            if arguments.len() == 0 && (same_text(name.as_str(), "Bool") || same_text(name.as_str(), INT)
                || same_text(name.as_str(), STRING)) {
                return true;
            }
            if same_text(name.as_str(), LIST) && arguments.len() == 1 {
                proof {
                    assert(decreases_to!(held@ => held@->Named_1));
                    assert(decreases_to!(held@->Named_1 => held@->Named_1[0]));
                }
                return crossing == Crossing::Taken && carries(Crossing::Taken, foreign, &arguments[0]);
            }
            if arguments.len() == 0 {
                return calls(foreign, name).is_some();
            }
            is_an_answer(crossing, foreign, held)
        },
        Type::Unit => crossing == Crossing::GivenBack,
        _ => false,
    }
}

/// Whether `held` is an answer a member gives back, carrying what it wraps where it is.
pub fn is_an_answer(crossing: Crossing, foreign: &Foreign, held: &Type) -> (answer: bool)
    ensures
        answer == spec_is_an_answer(crossing, foreign_view(foreign@), held@),
    decreases held@, 0int,
{
    match held {
        Type::Named { name, arguments } => {
            proof {
                lemma_views_of(arguments@);
            }
            if crossing == Crossing::Taken {
                return false;
            }
            if same_text(name.as_str(), OPTION) && arguments.len() == 1 {
                return is_a_reference(&arguments[0], foreign);
            }
            if same_text(name.as_str(), RESULT) && arguments.len() == 2 {
                let error_is_string = match &arguments[1] {
                    Type::Named { name: error, .. } => same_text(error.as_str(), STRING),
                    _ => false,
                };
                if error_is_string {
                    proof {
                        assert(decreases_to!(held@ => held@->Named_1));
                        assert(decreases_to!(held@->Named_1 => held@->Named_1[0]));
                    }
                    let unit = match &arguments[0] {
                        Type::Unit => true,
                        _ => false,
                    };
                    return !unit && carries(crossing, foreign, &arguments[0]);
                }
            }
            false
        },
        _ => false,
    }
}

/// `held` held to what a Java member carries where it is written, or why it is not one.
pub fn crosses(held: &Type, crossing: Crossing, foreign: &Foreign, span: Span) -> (crossed: Result<
    (),
    TypeError,
>)
    ensures
        spec_carries(crossing, foreign_view(foreign@), held@) ==> crossed is Ok,
        !spec_carries(crossing, foreign_view(foreign@), held@) ==> (crossed matches Err(error)
            && error.spec_kind() matches TypeErrorKind::Java(ReachingJava::DoesNotCross { written, crossing: at })
            && written@ == held@ && at == crossing && error.spec_span() == span),
{
    if carries(crossing, foreign, held) {
        return Ok(());
    }
    let kind = TypeErrorKind::Java(ReachingJava::DoesNotCross { written: held.copied(), crossing });
    Err(TypeError::at(span, kind))
}

/// What `wrapper` wraps where `held` is one, and `held` itself where it is not.
pub open spec fn spec_inside(wrapper: Seq<char>, held: TypeView) -> TypeView {
    match held {
        TypeView::Named(name, arguments) => if name == wrapper && arguments.len() > 0 {
            arguments[0]
        } else {
            held
        },
        _ => held,
    }
}

/// What the member's own descriptor gives back, which is the result with its answers read off.
pub open spec fn spec_given_back(result: TypeView) -> TypeView {
    spec_inside(OPTION@, spec_inside(RESULT@, result))
}

/// What `wrapper` wraps where `held` is one, and `held` itself where it is not.
pub fn inside<'a>(wrapper: &str, held: &'a Type) -> (wrapped: &'a Type)
    ensures
        wrapped@ == spec_inside(wrapper@, held@),
{
    match held {
        Type::Named { name, arguments } => {
            proof {
                lemma_views_of(arguments@);
            }
            if same_text(name.as_str(), wrapper) && arguments.len() > 0 {
                &arguments[0]
            } else {
                held
            }
        },
        _ => held,
    }
}

/// What the member's own descriptor gives back, which is the result with its answers read off.
pub fn given_back(result: &Type) -> (given: &Type)
    ensures
        given@ == spec_given_back(result@),
{
    inside(OPTION, inside(RESULT, result))
}

/// Whether `held` is a type an `extern type` named an interface.
pub fn is_an_interface(held: &Type, foreign: &Foreign) -> (interface: bool)
    ensures
        interface == (held@ matches TypeView::Named(name, _) && called_as(foreign_view(foreign@), name)
            == Some(Called::AsAnInterface)),
{
    match held {
        Type::Named { name, .. } => match calls(foreign, name) {
            Some(Called::AsAnInterface) => true,
            _ => false,
        },
        _ => false,
    }
}

/// Whether `held` is the `Int` a widened `int` becomes.
pub fn is_an_int(held: &Type) -> (int_type: bool)
    ensures
        int_type == (held@ == plain(INT@)),
{
    match held {
        Type::Named { name, arguments } => {
            proof {
                lemma_views_of(arguments@);
                if arguments@.len() == 0 {
                    assert(views_of(arguments@) =~= Seq::<TypeView>::empty());
                }
            }
            same_text(name.as_str(), INT) && arguments.len() == 0
        },
        _ => false,
    }
}

/// Where the receiver of a `method` is written, which is the whole declaration where none is.
pub fn receiver_of(declaration: &ExternDeclaration) -> (span: Span)
    ensures
        span == if declaration.parameters@.len() > 0 {
            declaration.parameters@[0].span
        } else {
            declaration.span
        },
{
    if declaration.parameters.len() > 0 {
        declaration.parameters[0].span
    } else {
        declaration.span
    }
}

/// The class `declaration` reaches, held to being one its signature names.
///
/// A `method` is called on its receiver and a `new` builds what it gives back, so each of the
/// two names its class in the signature rather than in the string. A signature naming none
/// leaves the declaration with no class to reach.
pub fn reaches_a_class(
    declaration: &ExternDeclaration,
    taken: &Vec<Type>,
    result: &Type,
    foreign: &Foreign,
) -> (reached: Result<(), TypeError>)
    ensures
        match declaration.reaches {
            Reaches::Method(_) => taken@.len() > 0 && spec_is_a_reference(
                taken@[0]@,
                foreign_view(foreign@),
            ),
            Reaches::New => spec_is_a_reference(spec_given_back(result@), foreign_view(foreign@)),
            _ => true,
        } <==> reached is Ok,
        reached matches Err(error) ==> error.spec_kind() == TypeErrorKind::Java(
            ReachingJava::ReachesNoClass(error.spec_kind()->Java_0->ReachesNoClass_0),
        ) && error.spec_kind()->Java_0->ReachesNoClass_0@ == declaration.reaches.spec_written()
            && error.spec_span() == match declaration.reaches {
            Reaches::New => declaration.result.span,
            _ => if declaration.parameters@.len() > 0 {
                declaration.parameters@[0].span
            } else {
                declaration.span
            },
        },
{
    let (class_found, span) = match &declaration.reaches {
        Reaches::Method(_) => {
            let found = taken.len() > 0 && is_a_reference(&taken[0], foreign);
            (found, receiver_of(declaration))
        },
        Reaches::New => (is_a_reference(given_back(result), foreign), declaration.result.span),
        Reaches::Field(_) | Reaches::Static(_) => return Ok(()),
    };
    if class_found {
        return Ok(());
    }
    let kind = TypeErrorKind::Java(
        ReachingJava::ReachesNoClass(String::from_str(declaration.reaches.written())),
    );
    Err(TypeError::at(span, kind))
}

/// The class a `new` builds, held to being a class rather than an interface.
///
/// Every other kind reaches a member, and an interface has members. A constructor is the one
/// thing an interface does not have, so a `new` giving one back is a class file that will not
/// link, and it is refused where it is written instead.
pub fn builds_a_class(declaration: &ExternDeclaration, result: &Type, foreign: &Foreign) -> (built:
    Result<(), TypeError>)
    ensures
        (declaration.reaches is New && (spec_given_back(result@) matches TypeView::Named(name, _)
            && called_as(foreign_view(foreign@), name) == Some(Called::AsAnInterface))) <==> built is Err,
        built matches Err(error) ==> (error.spec_kind() matches TypeErrorKind::Java(ReachingJava::BuildsAnInterface(built_type))
            && built_type@ == spec_given_back(result@) && error.spec_span() == declaration.result.span),
{
    let built_type = given_back(result);
    let is_new = match &declaration.reaches {
        Reaches::New => true,
        _ => false,
    };
    if !is_new || !is_an_interface(built_type, foreign) {
        return Ok(());
    }
    let kind = TypeErrorKind::Java(ReachingJava::BuildsAnInterface(built_type.copied()));
    Err(TypeError::at(declaration.result.span, kind))
}

/// The width `declaration` writes, held to a result there is an `Int` to widen an `int` to.
///
/// One rule holds for every kind. A `new` meets it the way any other does, because the class a
/// constructor gives back is not `Int`.
pub fn widens(declaration: &ExternDeclaration, result: &Type) -> (widened: Result<(), TypeError>)
    ensures
        (declaration.gives == Gives::WhatTheResultIs || spec_given_back(result@) == plain(INT@))
            <==> widened is Ok,
        widened matches Err(error) ==> (error.spec_kind() matches TypeErrorKind::Java(ReachingJava::WidensNoInt { width, written })
            && width@ == "int"@ && written@ == spec_given_back(result@) && error.spec_span()
            == declaration.result.span),
{
    let given = given_back(result);
    if declaration.gives == Gives::WhatTheResultIs || is_an_int(given) {
        return Ok(());
    }
    let kind = TypeErrorKind::Java(
        ReachingJava::WidensNoInt { width: String::from_str("int"), written: given.copied() },
    );
    Err(TypeError::at(declaration.result.span, kind))
}

/// Whether `c` has the Unicode `Alphabetic` property.
pub uninterp spec fn unicode_alphabetic(c: char) -> bool;

/// Whether `c` has the Unicode `Alphabetic` property or is numeric.
pub uninterp spec fn unicode_alphanumeric(c: char) -> bool;

/// std's `char::is_alphabetic`, which answers whether `c` has the Unicode `Alphabetic` property.
///
/// The answer is read off the Unicode tables std carries, so it is named here rather than
/// written out: it depends on `c` alone. std's source answers an ASCII character without the
/// tables, as a letter and nothing else, and that much is stated.
#[verifier::external_body]
fn is_alphabetic(c: char) -> (alphabetic: bool)
    ensures
        alphabetic == unicode_alphabetic(c),
        c <= '\x7f' ==> (alphabetic <==> ('a' <= c <= 'z' || 'A' <= c <= 'Z')),
{
    c.is_alphabetic()
}

/// std's `char::is_alphanumeric`, which answers whether `c` is alphabetic or numeric.
///
/// The answer is read off the Unicode tables std carries, so it is named here rather than
/// written out: it depends on `c` alone. std's source makes it alphabetic or numeric, and answers
/// an ASCII character without the tables: a letter or a digit and nothing else. That much is
/// stated.
#[verifier::external_body]
fn is_alphanumeric(c: char) -> (alphanumeric: bool)
    ensures
        alphanumeric == unicode_alphanumeric(c),
        c <= '\x7f' ==> (alphanumeric <==> ('a' <= c <= 'z' || 'A' <= c <= 'Z' || '0' <= c <= '9')),
{
    c.is_alphanumeric()
}

/// Whether `character` is alphabetic: among ASCII, exactly the letters.
pub open spec fn spec_alphabetic(character: char) -> bool {
    if character <= '\x7f' {
        'a' <= character <= 'z' || 'A' <= character <= 'Z'
    } else {
        unicode_alphabetic(character)
    }
}

/// Whether `character` is alphanumeric: among ASCII, exactly the letters and the digits.
pub open spec fn spec_alphanumeric(character: char) -> bool {
    if character <= '\x7f' {
        'a' <= character <= 'z' || 'A' <= character <= 'Z' || '0' <= character <= '9'
    } else {
        unicode_alphanumeric(character)
    }
}

/// Whether a Java name may begin with `character`, which a digit never does.
pub open spec fn spec_opens_a_segment(character: char) -> bool {
    spec_alphabetic(character) || character == '_' || character == '$'
}

/// Whether a Java name may go on with `character`.
pub open spec fn spec_continues_a_segment(character: char) -> bool {
    spec_alphanumeric(character) || character == '_' || character == '$'
}

/// Whether a Java name may begin with `character`, which a digit never does.
pub fn opens_a_segment(character: char) -> (opens: bool)
    ensures
        opens == spec_opens_a_segment(character),
{
    is_alphabetic(character) || character == '_' || character == '$'
}

/// Whether a Java name may go on with `character`.
pub fn continues_a_segment(character: char) -> (continues: bool)
    ensures
        continues == spec_continues_a_segment(character),
{
    is_alphanumeric(character) || character == '_' || character == '$'
}

/// Whether `segment` is one segment of a Java name, which is what Java calls an identifier.
pub open spec fn is_a_segment(segment: Seq<char>) -> bool {
    &&& segment.len() > 0
    &&& spec_opens_a_segment(segment[0])
    &&& forall|i: int| 1 <= i < segment.len() ==> spec_continues_a_segment(#[trigger] segment[i])
}

/// The segments of `text`, which are what lies between its dots.
pub open spec fn segments(text: Seq<char>) -> Seq<Seq<char>>
    decreases text.len(),
{
    if text.len() == 0 {
        seq![Seq::<char>::empty()]
    } else {
        let rest = segments(text.drop_last());
        if text.last() == '.' {
            rest.push(Seq::empty())
        } else {
            rest.update(rest.len() - 1, rest.last().push(text.last()))
        }
    }
}

/// There is always one segment at least.
pub proof fn lemma_segments(text: Seq<char>)
    ensures
        segments(text).len() >= 1,
    decreases text.len(),
{
    if text.len() > 0 {
        lemma_segments(text.drop_last());
    }
}

/// Whether `text` is a Java name of `count` segments, or of `count` or more where `exactly` is
/// unset, each of them a segment.
pub open spec fn is_java_name(text: Seq<char>, count: nat, exactly: bool) -> bool {
    &&& if exactly {
        segments(text).len() == count
    } else {
        segments(text).len() >= count
    }
    &&& forall|k: int| 0 <= k < segments(text).len() ==> is_a_segment(#[trigger] segments(text)[k])
}

/// `named` held to being a Java name of `count` segments, or of `count` or more where `exactly`
/// is unset.
fn held_to(named: &JavaName, count: usize, exactly: bool) -> (held: Result<(), TypeError>)
    ensures
        is_java_name(named.text@, count as nat, exactly) <==> held is Ok,
        held matches Err(error) ==> error.spec_kind() == TypeErrorKind::Java(
            ReachingJava::NotAJavaName(named.text),
        ) && error.spec_span() == named.span,
{
    let text = named.text.as_str();
    let length = text.unicode_len();
    let mut parts: u128 = 1;
    let mut done_ok = true;
    let mut current_length: usize = 0;
    let mut current_ok = false;
    let mut i: usize = 0;
    while i < length
        invariant
            length == text@.len(),
            text@ == named.text@,
            i <= length,
            parts == segments(text@.take(i as int)).len(),
            parts <= i + 1,
            segments(text@.take(i as int)).len() >= 1,
            current_length == segments(text@.take(i as int)).last().len(),
            current_length <= i,
            current_ok == is_a_segment(segments(text@.take(i as int)).last()),
            done_ok == forall|k: int|
                0 <= k < segments(text@.take(i as int)).len() - 1 ==> is_a_segment(
                    #[trigger] segments(text@.take(i as int))[k],
                ),
        decreases length - i,
    {
        let c = text.get_char(i);
        let ghost before = segments(text@.take(i as int));
        proof {
            assert(text@.take(i + 1).drop_last() =~= text@.take(i as int));
            assert(text@.take(i + 1).last() == c);
        }
        if c == '.' {
            done_ok = done_ok && current_ok;
            parts = parts + 1;
            current_length = 0;
            current_ok = false;
            proof {
                let after = segments(text@.take(i + 1));
                assert(after == before.push(Seq::<char>::empty()));
                assert(done_ok == forall|k: int| 0 <= k < after.len() - 1 ==> is_a_segment(#[trigger] after[k])) by {
                    if done_ok {
                        assert forall|k: int| 0 <= k < after.len() - 1 implies is_a_segment(#[trigger] after[k]) by {
                            if k < before.len() - 1 {
                                assert(after[k] == before[k]);
                            } else {
                                assert(after[k] == before.last());
                            }
                        }
                    }
                    if forall|k: int| 0 <= k < after.len() - 1 ==> is_a_segment(#[trigger] after[k]) {
                        assert(is_a_segment(after[before.len() - 1]));
                        assert forall|k: int| 0 <= k < before.len() - 1 implies is_a_segment(#[trigger] before[k]) by {
                            assert(after[k] == before[k]);
                        }
                    }
                }
            }
        } else {
            let ghost last = before.last();
            if current_length == 0 {
                current_ok = opens_a_segment(c);
            } else {
                current_ok = current_ok && continues_a_segment(c);
            }
            current_length = current_length + 1;
            proof {
                let after = segments(text@.take(i + 1));
                assert(after == before.update(before.len() - 1, last.push(c)));
                let grown = last.push(c);
                assert(current_ok == is_a_segment(grown)) by {
                    if last.len() == 0 {
                        assert(grown =~= seq![c]);
                    } else {
                        if is_a_segment(grown) {
                            assert forall|j: int| 1 <= j < last.len() implies spec_continues_a_segment(#[trigger] last[j]) by {
                                assert(grown[j] == last[j]);
                            }
                            assert(grown[last.len() as int] == c);
                            assert(grown[0] == last[0]);
                        }
                        if is_a_segment(last) && spec_continues_a_segment(c) {
                            assert forall|j: int| 1 <= j < grown.len() implies spec_continues_a_segment(#[trigger] grown[j]) by {
                                if j < last.len() {
                                    assert(grown[j] == last[j]);
                                }
                            }
                        }
                    }
                }
                assert(done_ok == forall|k: int| 0 <= k < after.len() - 1 ==> is_a_segment(#[trigger] after[k])) by {
                    assert forall|k: int| 0 <= k < after.len() - 1 implies after[k] == before[k] by {}
                }
            }
        }
        i = i + 1;
    }
    proof {
        assert(text@.take(length as int) =~= text@);
    }
    let enough = if exactly {
        parts == count as u128
    } else {
        parts >= count as u128
    };
    if enough && done_ok && current_ok {
        proof {
            let all = segments(text@);
            assert forall|k: int| 0 <= k < all.len() implies is_a_segment(#[trigger] all[k]) by {
                if k < all.len() - 1 {
                } else {
                    assert(all[k] == all.last());
                }
            }
        }
        return Ok(());
    }
    let kind = TypeErrorKind::Java(ReachingJava::NotAJavaName(named.text.clone()));
    proof {
        let all = segments(text@);
        if is_java_name(named.text@, count as nat, exactly) {
            assert(is_a_segment(all[all.len() - 1]));
            assert(all[all.len() - 1] == all.last());
        }
    }
    Err(TypeError::at(named.span, kind))
}

/// `named` held to being a Java name of `least` segments or more.
pub fn at_least(named: &JavaName, least: usize) -> (held: Result<(), TypeError>)
    ensures
        is_java_name(named.text@, least as nat, false) <==> held is Ok,
        held matches Err(error) ==> error.spec_kind() == TypeErrorKind::Java(
            ReachingJava::NotAJavaName(named.text),
        ) && error.spec_span() == named.span,
{
    held_to(named, least, false)
}

/// `named` held to being a Java name of exactly `count` segments.
pub fn exactly(named: &JavaName, count: usize) -> (held: Result<(), TypeError>)
    ensures
        is_java_name(named.text@, count as nat, true) <==> held is Ok,
        held matches Err(error) ==> error.spec_kind() == TypeErrorKind::Java(
            ReachingJava::NotAJavaName(named.text),
        ) && error.spec_span() == named.span,
{
    held_to(named, count, true)
}

/// The class an `extern type` names, which is a Java name of one segment or more.
pub fn class(named: &JavaName) -> (held: Result<(), TypeError>)
    ensures
        is_java_name(named.text@, 1, false) <==> held is Ok,
        held matches Err(error) ==> error.spec_kind() == TypeErrorKind::Java(
            ReachingJava::NotAJavaName(named.text),
        ) && error.spec_span() == named.span,
{
    at_least(named, 1)
}

/// The Java name `declaration` states, held to what its kind names.
///
/// The last segment of a `field` or a `static` is the member, and everything before it is the
/// class it is on. The receiver of a `method` already says which class it is on, so only the
/// member is named.
pub fn stated_by(declaration: &ExternDeclaration) -> (held: Result<(), TypeError>)
    ensures
        match declaration.reaches {
            Reaches::Field(named) | Reaches::Static(named) => (is_java_name(named.text@, 2, false)
                <==> held is Ok) && (held matches Err(error) ==> error.spec_kind()
                == TypeErrorKind::Java(ReachingJava::NotAJavaName(named.text)) && error.spec_span()
                == named.span),
            Reaches::Method(named) => (is_java_name(named.text@, 1, true) <==> held is Ok) && (
            held matches Err(error) ==> error.spec_kind() == TypeErrorKind::Java(
                ReachingJava::NotAJavaName(named.text),
            ) && error.spec_span() == named.span),
            Reaches::New => held is Ok,
        },
{
    match &declaration.reaches {
        Reaches::Field(named) | Reaches::Static(named) => at_least(named, 2),
        Reaches::Method(named) => exactly(named, 1),
        Reaches::New => Ok(()),
    }
}

} // verus!
