//! The types of a module, and the way each one is written in a message.
use vstd::prelude::*;
use vstd::string::*;

use crate::ast::Name;
use crate::definition::Origin;

verus! {

/// A type, as inference reads and writes it.
#[derive(Debug, PartialEq, Eq)]
pub enum Type {
    /// A type inference has not settled yet.
    Var(TypeVar),
    /// A type parameter a declaration wrote; it matches itself and nothing else.
    Parameter(TypeParameter),
    /// A named type with its arguments applied: `Int`, `List<User>`, `Result<User, String>`.
    Named { name: String, arguments: Vec<Type> },
    /// `(Int, String) -> Bool`.
    Function { parameters: Vec<Type>, result: Box<Type> },
    /// An imported module, which a name is reached inside of rather than held as a value.
    Module(String),
    /// `()`, the type of a function that returns nothing interesting.
    Unit,
}

/// The type a value of, or nothing, is written as, which a `?` hands a `None` back from.
pub const OPTION: &'static str = "Option";

/// The type an attempt is written as, which a `?` hands an `Err` back from.
pub const RESULT: &'static str = "Result";

/// The type a run of values is written as, which the JVM holds as a `lumen.List`.
pub const LIST: &'static str = "List";

/// The one whole-number type.
pub const INT: &'static str = "Int";

/// The type of text.
pub const STRING: &'static str = "String";

/// The type of `true` and `false`.
pub const BOOL: &'static str = "Bool";

/// A stand-in for a type inference has not settled, numbered in the order they were made.
#[derive(Clone, Copy, Debug, PartialEq, Eq, Hash, PartialOrd, Ord, Structural)]
pub struct TypeVar(pub u32);

/// A type parameter, known by where it came from so that two of one name stay apart.
///
/// `T` in `fn identity<T>(value: T) -> T` is one of these inside that function's body, which is
/// what makes a body that returns an `Int` a mismatch rather than a proof.
#[derive(Debug, PartialEq, Eq)]
pub struct TypeParameter {
    pub name: String,
    pub origin: Origin,
}

/// A type as the specifications read it: what it is, with text as text and lists as sequences.
pub enum TypeView {
    Var(TypeVar),
    Parameter(Seq<char>, Origin),
    Named(Seq<char>, Seq<TypeView>),
    Function(Seq<TypeView>, Box<TypeView>),
    Module(Seq<char>),
    Unit,
}

/// What `t` is, as the specifications read it.
pub open spec fn type_view(t: Type) -> TypeView
    decreases t, 1int,
{
    match t {
        Type::Var(var) => TypeView::Var(var),
        Type::Parameter(parameter) => TypeView::Parameter(parameter.name@, parameter.origin),
        Type::Named { name, arguments } => TypeView::Named(
            name@,
            type_views(arguments@, arguments@.len() as int),
        ),
        Type::Function { parameters, result } => TypeView::Function(
            type_views(parameters@, parameters@.len() as int),
            Box::new(type_view(*result)),
        ),
        Type::Module(name) => TypeView::Module(name@),
        Type::Unit => TypeView::Unit,
    }
}

/// The first `n` of `types`, as the specifications read them.
pub open spec fn type_views(types: Seq<Type>, n: int) -> Seq<TypeView>
    decreases types, n,
{
    if n <= 0 || n > types.len() {
        Seq::empty()
    } else {
        type_views(types, n - 1).push(type_view(types[n - 1]))
    }
}

impl View for Type {
    type V = TypeView;

    open spec fn view(&self) -> TypeView {
        type_view(*self)
    }
}

/// The types of a sequence, as the specifications read them.
pub open spec fn views_of(types: Seq<Type>) -> Seq<TypeView> {
    type_views(types, types.len() as int)
}

/// `type_views` holds one view per type, each the view of that type.
pub proof fn lemma_type_views(types: Seq<Type>, n: int)
    requires
        0 <= n <= types.len(),
    ensures
        type_views(types, n).len() == n,
        forall|k: int| 0 <= k < n ==> #[trigger] type_views(types, n)[k] == type_view(types[k]),
    decreases n,
{
    if n > 0 {
        lemma_type_views(types, n - 1);
    }
}

/// The views of a sequence are its types' views, one by one.
pub proof fn lemma_views_of(types: Seq<Type>)
    ensures
        views_of(types).len() == types.len(),
        forall|k: int| 0 <= k < types.len() ==> #[trigger] views_of(types)[k] == types[k]@,
{
    lemma_type_views(types, types.len() as int);
}

/// The named type `name` applied to no argument.
pub open spec fn plain(name: Seq<char>) -> TypeView {
    TypeView::Named(name, Seq::empty())
}

/// How a type is written in a message.
pub open spec fn spec_shown(t: TypeView) -> Seq<char>
    decreases t, 0int,
{
    match t {
        TypeView::Var(_) => "_"@,
        TypeView::Parameter(name, _) => name,
        TypeView::Named(name, arguments) => if arguments.len() == 0 {
            name
        } else {
            name + "<"@ + spec_listed(arguments, arguments.len() as int) + ">"@
        },
        TypeView::Function(parameters, result) => "("@ + spec_listed(
            parameters,
            parameters.len() as int,
        ) + ") -> "@ + spec_shown(*result),
        TypeView::Module(name) => name,
        TypeView::Unit => "()"@,
    }
}

/// The first `n` of `types` as a message lists them, separated by commas.
pub open spec fn spec_listed(types: Seq<TypeView>, n: int) -> Seq<char>
    decreases types, n,
{
    if n <= 0 || n > types.len() {
        Seq::empty()
    } else if n == 1 {
        spec_shown(types[0])
    } else {
        spec_listed(types, n - 1) + ", "@ + spec_shown(types[n - 1])
    }
}

impl Type {
    /// A whole number, 64 bits wide, and the only one the language has.
    pub fn integer() -> (t: Type)
        ensures
            t@ == plain(INT@),
    {
        Type::plain(INT)
    }

    /// A string of text.
    pub fn string() -> (t: Type)
        ensures
            t@ == plain(STRING@),
    {
        Type::plain(STRING)
    }

    /// `true` or `false`.
    pub fn boolean() -> (t: Type)
        ensures
            t@ == plain(BOOL@),
    {
        Type::plain(BOOL)
    }

    /// A list of `item`, which is what a `for … in` walks.
    pub fn list(item: Type) -> (t: Type)
        ensures
            t@ == TypeView::Named(LIST@, seq![item@]),
    {
        let mut arguments: Vec<Type> = Vec::new();
        arguments.push(item);
        proof {
            lemma_views_of(arguments@);
            assert(views_of(arguments@) =~= seq![item@]);
        }
        Type::applied(LIST, arguments)
    }

    /// A value of type `value`, or nothing.
    pub fn option(value: Type) -> (t: Type)
        ensures
            t@ == TypeView::Named(OPTION@, seq![value@]),
    {
        let mut arguments: Vec<Type> = Vec::new();
        arguments.push(value);
        proof {
            lemma_views_of(arguments@);
            assert(views_of(arguments@) =~= seq![value@]);
        }
        Type::applied(OPTION, arguments)
    }

    /// A `value` when it worked and an `error` when it did not.
    pub fn result(value: Type, error: Type) -> (t: Type)
        ensures
            t@ == TypeView::Named(RESULT@, seq![value@, error@]),
    {
        let mut arguments: Vec<Type> = Vec::new();
        arguments.push(value);
        arguments.push(error);
        proof {
            lemma_views_of(arguments@);
            assert(views_of(arguments@) =~= seq![value@, error@]);
        }
        Type::applied(RESULT, arguments)
    }

    /// A function from `parameters` to `result`.
    pub fn function(parameters: Vec<Type>, result: Type) -> (t: Type)
        ensures
            t@ == TypeView::Function(views_of(parameters@), Box::new(result@)),
    {
        Type::Function { parameters, result: Box::new(result) }
    }

    /// Whether this names a type another module declares, reached through that module's name.
    ///
    /// The name of one holds a dot, which no name a module declares ever does: a name is one
    /// word, and another module's type is reached through the dot.
    pub fn is_of_another_module(&self) -> (another: bool)
        ensures
            another == (self@ matches TypeView::Named(name, _) && name.contains('.')),
    {
        match self {
            Type::Named { name, .. } => crate::text::has_char(name.as_str(), '.'),
            _ => false,
        }
    }

    /// The type called `name`, applied to no argument.
    pub fn plain(name: &str) -> (t: Type)
        ensures
            t@ == plain(name@),
    {
        let none: Vec<Type> = Vec::new();
        assert(views_of(none@) =~= Seq::<TypeView>::empty());
        Type::applied(name, none)
    }

    /// The type called `name`, applied to `arguments`.
    pub fn applied(name: &str, arguments: Vec<Type>) -> (t: Type)
        ensures
            t@ == TypeView::Named(name@, views_of(arguments@)),
    {
        Type::Named { name: String::from_str(name), arguments }
    }

    /// A type equal to this one.
    pub fn copied(&self) -> (copy: Type)
        ensures
            copy@ == self@,
        decreases self, 1int,
    {
        match self {
            Type::Var(var) => Type::Var(*var),
            Type::Parameter(parameter) => Type::Parameter(parameter.copied()),
            Type::Named { name, arguments } => {
                proof {
                    assert(decreases_to!(*self => self->arguments));
                }
                Type::Named { name: name.clone(), arguments: copied_types(arguments) }
            },
            Type::Function { parameters, result } => {
                proof {
                    assert(decreases_to!(*self => self->parameters));
                    assert(decreases_to!(*self => self->result));
                }
                let parameters = copied_types(parameters);
                let result = (**result).copied();
                Type::Function { parameters, result: Box::new(result) }
            },
            Type::Module(name) => Type::Module(name.clone()),
            Type::Unit => Type::Unit,
        }
    }

    /// How this type is written in a message.
    pub fn shown(&self) -> (written: String)
        ensures
            written@ == spec_shown(self@),
        decreases self, 1int,
    {
        match self {
            Type::Var(_) => String::from_str("_"),
            Type::Parameter(parameter) => parameter.name.clone(),
            Type::Named { name, arguments } => {
                if arguments.len() == 0 {
                    proof {
                        lemma_views_of(arguments@);
                    }
                    return name.clone();
                }
                proof {
                    assert(decreases_to!(*self => self->arguments));
                }
                proof {
                    lemma_views_of(arguments@);
                }
                let mut written = name.clone();
                written.append("<");
                let listed = listed(arguments);
                written.append(listed.as_str());
                written.append(">");
                written
            },
            Type::Function { parameters, result } => {
                proof {
                    assert(decreases_to!(*self => self->parameters));
                    assert(decreases_to!(*self => self->result));
                }
                proof {
                    lemma_views_of(parameters@);
                }
                let mut written = String::from_str("(");
                let listed = listed(parameters);
                written.append(listed.as_str());
                written.append(") -> ");
                let result = (**result).shown();
                written.append(result.as_str());
                written
            },
            Type::Module(name) => name.clone(),
            Type::Unit => String::from_str("()"),
        }
    }
}

/// The types as a message lists them, separated by commas.
pub fn listed(types: &Vec<Type>) -> (written: String)
    ensures
        written@ == spec_listed(views_of(types@), types@.len() as int),
    decreases types@, 0int,
{
    let mut written = String::new();
    let mut i: usize = 0;
    while i < types.len()
        invariant
            i <= types@.len(),
            written@ == spec_listed(views_of(types@), i as int),
        decreases types.len() - i,
    {
        proof {
            assert(decreases_to!(types@ => types@[i as int]));
            lemma_views_of(types@);
            if i == 0 {
                assert(written@ =~= Seq::<char>::empty());
            }
        }
        if i > 0 {
            written.append(", ");
        }
        let one = types[i].shown();
        written.append(one.as_str());
        i = i + 1;
    }
    written
}

/// The same types, each copied.
pub fn copied_types(types: &Vec<Type>) -> (copy: Vec<Type>)
    ensures
        views_of(copy@) == views_of(types@),
    decreases types@, 0int,
{
    let mut copy: Vec<Type> = Vec::new();
    let mut i: usize = 0;
    while i < types.len()
        invariant
            i <= types@.len(),
            copy@.len() == i,
            forall|k: int| 0 <= k < i ==> #[trigger] copy@[k]@ == types@[k]@,
        decreases types.len() - i,
    {
        proof {
            assert(decreases_to!(types@ => types@[i as int]));
        }
        copy.push(types[i].copied());
        i = i + 1;
    }
    proof {
        lemma_views_of(copy@);
        lemma_views_of(types@);
        assert(views_of(copy@) =~= views_of(types@));
    }
    copy
}

impl TypeParameter {
    /// The parameter `written` between the angle brackets of a declaration.
    pub fn written(written: &Name) -> (parameter: TypeParameter)
        ensures
            parameter.name@ == written.text@,
            parameter.origin == Origin::Declared(written.span),
    {
        TypeParameter { name: written.text.clone(), origin: Origin::Declared(written.span) }
    }

    /// A parameter of a type the prelude supplies, such as the `T` of `Option<T>`.
    pub fn prelude(name: &str) -> (parameter: TypeParameter)
        ensures
            parameter.name@ == name@,
            parameter.origin == Origin::Prelude,
    {
        TypeParameter { name: String::from_str(name), origin: Origin::Prelude }
    }

    /// A stand-in nothing names, which stands where a type is carried by what every value fits.
    ///
    /// A function whose type inference left free is generic without writing a type parameter,
    /// and its stand-in is erased rather than written once per type.
    pub fn erased() -> (parameter: TypeParameter)
        ensures
            parameter.name@ == "_"@,
            parameter.origin == Origin::Prelude,
    {
        TypeParameter { name: String::from_str("_"), origin: Origin::Prelude }
    }

    /// A parameter equal to this one.
    pub fn copied(&self) -> (copy: TypeParameter)
        ensures
            copy == *self,
    {
        TypeParameter { name: self.name.clone(), origin: self.origin }
    }

    /// Whether two parameters are one: the same name from the same place.
    pub fn same(&self, other: &TypeParameter) -> (same: bool)
        ensures
            same == (self.name@ == other.name@ && self.origin == other.origin),
    {
        self.name == other.name && self.origin == other.origin
    }
}

/// Whether two types are the same type, as the specifications read them.
pub fn same_type(one: &Type, other: &Type) -> (same: bool)
    ensures
        same == (one@ == other@),
    decreases one, 1int,
{
    match (one, other) {
        (Type::Var(a), Type::Var(b)) => a.0 == b.0,
        (Type::Parameter(a), Type::Parameter(b)) => a.same(b),
        (Type::Named { name, arguments }, Type::Named { name: other_name, arguments: other_arguments }) => {
            crate::text::same_text(name.as_str(), other_name.as_str()) && same_types(arguments, other_arguments)
        },
        (Type::Function { parameters, result }, Type::Function { parameters: other_parameters, result: other_result }) => {
            same_types(parameters, other_parameters) && same_type(result, other_result)
        },
        (Type::Module(a), Type::Module(b)) => crate::text::same_text(a.as_str(), b.as_str()),
        (Type::Unit, Type::Unit) => true,
        _ => false,
    }
}

/// Whether two sequences of types are the same types in the same order.
pub fn same_types(one: &Vec<Type>, other: &Vec<Type>) -> (same: bool)
    ensures
        same == (views_of(one@) == views_of(other@)),
    decreases one, 0int,
{
    proof {
        lemma_views_of(one@);
        lemma_views_of(other@);
    }
    if one.len() != other.len() {
        return false;
    }
    let mut i: usize = 0;
    while i < one.len()
        invariant
            i <= one@.len(),
            one@.len() == other@.len(),
            views_of(one@).len() == one@.len(),
            views_of(other@).len() == other@.len(),
            forall|k: int| 0 <= k < one@.len() ==> #[trigger] views_of(one@)[k] == one@[k]@,
            forall|k: int| 0 <= k < other@.len() ==> #[trigger] views_of(other@)[k] == other@[k]@,
            forall|k: int| 0 <= k < i ==> views_of(one@)[k] == views_of(other@)[k],
        decreases one.len() - i,
    {
        if !same_type(&one[i], &other[i]) {
            assert(views_of(one@)[i as int] != views_of(other@)[i as int]);
            return false;
        }
        i = i + 1;
    }
    assert(views_of(one@) =~= views_of(other@));
    true
}

} // verus!
