//! The untyped tree of one Lumen module, as resolution and inference read it.
//!
//! Every name carries the span it is written at, which is what a definition is filed under and
//! what a refusal points the reader at.
use vstd::prelude::*;

verus! {

/// Where a piece of source starts and where it ends, counted in bytes, the end excluded.
#[derive(Clone, Copy, Debug, PartialEq, Eq, Structural)]
pub struct Span {
    pub start: usize,
    pub end: usize,
}

impl Span {
    /// The span of `len` bytes from `start`.
    pub fn new(start: usize, len: usize) -> (span: Span)
        requires
            start + len <= usize::MAX,
        ensures
            span.start == start,
            span.end == start + len,
    {
        Span { start, end: start + len }
    }

    /// Where the span starts.
    pub fn start(&self) -> (at: usize)
        ensures
            at == self.start,
    {
        self.start
    }

    /// Where the span ends, which is the first byte past it.
    pub fn end(&self) -> (at: usize)
        ensures
            at == self.end,
    {
        self.end
    }

    /// Whether the byte at `at` lies inside the span.
    pub open spec fn spec_contains(self, at: usize) -> bool {
        self.start <= at && at < self.end
    }

    /// Whether the byte at `at` lies inside the span.
    pub fn contains(&self, at: usize) -> (inside: bool)
        ensures
            inside == self.spec_contains(at),
    {
        self.start <= at && at < self.end
    }
}

/// One name as it is written: its text and where it stands.
#[derive(Clone, Debug, PartialEq, Eq)]
pub struct Name {
    pub text: String,
    pub span: Span,
}

impl Name {
    /// A name that is equal to this one.
    pub fn copied(&self) -> (copy: Name)
        ensures
            copy == *self,
    {
        Name { text: self.text.clone(), span: self.span }
    }
}

/// A name, possibly reached through the module written before a dot.
#[derive(Debug, PartialEq, Eq)]
pub struct Path {
    pub module: Option<Name>,
    pub name: Name,
}

/// A type as a signature or a declaration writes it.
#[derive(Debug, PartialEq, Eq)]
pub struct TypeRef {
    pub kind: TypeRefKind,
    pub span: Span,
}

#[derive(Debug, PartialEq, Eq)]
pub enum TypeRefKind {
    /// A named type with the arguments it is applied to.
    Named { path: Path, arguments: Vec<TypeRef> },
    /// `()`.
    Unit,
}

/// What a value has to be for a `match` arm to be taken.
#[derive(Debug, PartialEq, Eq)]
pub struct Pattern {
    pub kind: PatternKind,
    pub span: Span,
}

#[derive(Debug, PartialEq, Eq)]
pub enum PatternKind {
    /// A bare name, which matches a constructor of that name or binds the value.
    Name(Path),
    /// A constructor with what it carries, in order.
    Tuple { path: Path, elements: Vec<Pattern> },
    /// A record constructor, binding each field it names.
    Record { path: Path, fields: Vec<Name> },
    /// Alternatives, any of which matches.
    Or(Vec<Pattern>),
    Integer(i64),
    String(String),
    Bool(bool),
    /// `_`, which matches anything and binds nothing.
    Wildcard,
}

#[derive(Clone, Copy, Debug, PartialEq, Eq, Structural)]
pub enum UnaryOperator {
    Not,
    Negate,
}

#[derive(Clone, Copy, Debug, PartialEq, Eq, Structural)]
pub enum BinaryOperator {
    Or,
    And,
    Equal,
    NotEqual,
    Less,
    LessOrEqual,
    Greater,
    GreaterOrEqual,
    Add,
    Subtract,
    Multiply,
    Divide,
    Remainder,
}

#[derive(Clone, Copy, Debug, PartialEq, Eq, Structural)]
pub enum AssignOperator {
    /// `=`.
    Replace,
    /// `+=`.
    Add,
}

#[derive(Clone, Copy, Debug, PartialEq, Eq, Structural)]
pub enum Mutability {
    /// `:=`.
    Immutable,
    /// `var`.
    Mutable,
}

/// One argument of a call, with the parameter name it is passed for where it names one.
#[derive(Debug, PartialEq, Eq)]
pub struct Argument {
    pub label: Option<Name>,
    pub value: Expr,
}

/// One field of a record being built.
#[derive(Debug, PartialEq, Eq)]
pub struct FieldValue {
    pub name: Name,
    pub value: Expr,
}

#[derive(Debug, PartialEq, Eq)]
pub struct Expr {
    pub kind: ExprKind,
    pub span: Span,
}

#[derive(Debug, PartialEq, Eq)]
pub enum ExprKind {
    Name(Name),
    Integer(i64),
    String(String),
    Bool(bool),
    Unit,
    Unary { operator: UnaryOperator, operand: Box<Expr> },
    Binary { operator: BinaryOperator, left: Box<Expr>, right: Box<Expr> },
    Call { callee: Box<Expr>, arguments: Vec<Argument> },
    Field { receiver: Box<Expr>, field: Name },
    Try(Box<Expr>),
    List(Vec<Expr>),
    Record { base: Path, fields: Vec<FieldValue> },
    If(IfExpr),
    Match(MatchExpr),
}

#[derive(Debug, PartialEq, Eq)]
pub struct Branch {
    pub condition: Expr,
    pub block: Block,
}

#[derive(Debug, PartialEq, Eq)]
pub struct IfExpr {
    pub branches: Vec<Branch>,
    pub otherwise: Option<Block>,
}

#[derive(Debug, PartialEq, Eq)]
pub struct Arm {
    pub pattern: Pattern,
    pub body: Expr,
}

#[derive(Debug, PartialEq, Eq)]
pub struct MatchExpr {
    pub scrutinee: Box<Expr>,
    pub arms: Vec<Arm>,
}

#[derive(Debug, PartialEq, Eq)]
pub struct Statement {
    pub kind: StatementKind,
    pub span: Span,
}

#[derive(Debug, PartialEq, Eq)]
pub enum StatementKind {
    Binding { mutability: Mutability, name: Name, value: Expr },
    Assign { target: Name, operator: AssignOperator, value: Expr },
    Return(Option<Expr>),
    Break,
    Continue,
    For(ForLoop),
    /// `_ = value`, which throws the value away on purpose.
    Discard(Expr),
    Expr(Expr),
}

#[derive(Debug, PartialEq, Eq)]
pub enum ForHeader {
    Forever,
    While(Expr),
    In { binding: Name, iterable: Expr },
}

#[derive(Debug, PartialEq, Eq)]
pub struct ForLoop {
    pub header: ForHeader,
    pub body: Block,
}

#[derive(Debug, PartialEq, Eq)]
pub struct Block {
    pub statements: Vec<Statement>,
    pub span: Span,
}

/// The trait a type parameter is held to, and the type it is asked of: `T: Eq<T>`.
#[derive(Debug, PartialEq, Eq)]
pub struct Constraint {
    pub name: Name,
    pub argument: TypeRef,
}

#[derive(Debug, PartialEq, Eq)]
pub struct TypeParameter {
    pub name: Name,
    pub constraint: Option<Constraint>,
}

#[derive(Debug, PartialEq, Eq)]
pub struct Parameter {
    pub name: Name,
    pub type_ref: Option<TypeRef>,
    pub span: Span,
}

#[derive(Debug, PartialEq, Eq)]
pub struct Function {
    pub name: Name,
    pub type_parameters: Vec<TypeParameter>,
    pub parameters: Vec<Parameter>,
    pub result: Option<TypeRef>,
    pub body: Block,
    pub span: Span,
}

/// A method a trait declares, which has no body.
#[derive(Debug, PartialEq, Eq)]
pub struct Signature {
    pub name: Name,
    pub parameters: Vec<Parameter>,
    pub result: Option<TypeRef>,
}

#[derive(Debug, PartialEq, Eq)]
pub struct RecordField {
    pub name: Name,
    pub type_ref: TypeRef,
}

#[derive(Debug, PartialEq, Eq)]
pub enum VariantPayload {
    /// A variant that carries nothing.
    Bare,
    Tuple(Vec<TypeRef>),
    Record(Vec<RecordField>),
}

#[derive(Debug, PartialEq, Eq)]
pub struct Variant {
    pub name: Name,
    pub payload: VariantPayload,
}

/// Whether a class an `extern type` names is called as a class or as an interface.
#[derive(Clone, Copy, Debug, PartialEq, Eq, Structural)]
pub enum Called {
    AsAClass,
    AsAnInterface,
}

/// A dotted Java name as an `extern` states it.
#[derive(Clone, Debug, PartialEq, Eq)]
pub struct JavaName {
    pub text: String,
    pub span: Span,
}

#[derive(Debug, PartialEq, Eq)]
pub enum TypeDefinition {
    Record(Vec<RecordField>),
    Variants(Vec<Variant>),
    /// A Java class an `extern type` names.
    Foreign { class: JavaName, called: Called },
}

#[derive(Debug, PartialEq, Eq)]
pub struct TypeDeclaration {
    pub name: Name,
    pub parameters: Vec<Name>,
    pub definition: TypeDefinition,
    pub span: Span,
}

#[derive(Debug, PartialEq, Eq)]
pub struct TraitDeclaration {
    pub name: Name,
    /// The one type parameter a trait is written over.
    pub parameter: Name,
    pub methods: Vec<Signature>,
    pub span: Span,
}

#[derive(Debug, PartialEq, Eq)]
pub struct InstanceDeclaration {
    pub trait_name: Name,
    pub for_type: Name,
    pub type_parameters: Vec<TypeParameter>,
    /// The arguments the type it is for is written with.
    pub arguments: Vec<Name>,
    pub methods: Vec<Function>,
    pub span: Span,
}

#[derive(Debug, PartialEq, Eq)]
pub struct DeriveDeclaration {
    pub traits: Vec<Name>,
    pub for_type: Name,
    pub span: Span,
}

#[derive(Debug, PartialEq, Eq)]
pub struct Import {
    pub module: Name,
    pub span: Span,
}

#[derive(Debug, PartialEq, Eq)]
pub enum Item {
    Import(Import),
    Type(TypeDeclaration),
    Trait(TraitDeclaration),
    Instance(InstanceDeclaration),
    Derive(DeriveDeclaration),
    Function(Function),
}

/// One module as the parser read it.
#[derive(Debug, PartialEq, Eq)]
pub struct Program {
    pub items: Vec<Item>,
}

/// What an `extern` declaration reaches on the Java side.
#[derive(Debug, PartialEq, Eq)]
pub enum Reaches {
    Field(JavaName),
    Static(JavaName),
    Method(JavaName),
    New,
}

impl Reaches {
    /// The word the declaration writes for what it reaches.
    pub open spec fn spec_written(&self) -> Seq<char> {
        match self {
            Reaches::Field(_) => "field"@,
            Reaches::Static(_) => "static"@,
            Reaches::Method(_) => "method"@,
            Reaches::New => "new"@,
        }
    }

    /// The word the declaration writes for what it reaches.
    pub fn written(&self) -> (word: &'static str)
        ensures
            word@ == self.spec_written(),
    {
        match self {
            Reaches::Field(_) => "field",
            Reaches::Static(_) => "static",
            Reaches::Method(_) => "method",
            Reaches::New => "new",
        }
    }
}

/// What an `extern` says its member gives back.
#[derive(Clone, Copy, Debug, PartialEq, Eq, Structural)]
pub enum Gives {
    /// What the result type says.
    WhatTheResultIs,
    /// A Java `int`, widened to an `Int`.
    Int,
}

/// A function reached on the Java side of the boundary.
#[derive(Debug, PartialEq, Eq)]
pub struct ExternDeclaration {
    pub name: Name,
    pub parameters: Vec<Parameter>,
    pub result: TypeRef,
    pub reaches: Reaches,
    pub gives: Gives,
    pub span: Span,
}

} // verus!
