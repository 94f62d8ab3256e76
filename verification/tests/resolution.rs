//! What each name of a module means, and what a module is refused for, over modules written as
//! Lumen source and read into trees by a small reader kept beside the tests.

use lumen_check::ast::{Argument, AssignOperator, BinaryOperator, Block, Branch, Constraint};
use lumen_check::ast::{DeriveDeclaration, Expr, ExprKind, FieldValue, ForHeader, ForLoop, Function};
use lumen_check::ast::{IfExpr, Import, InstanceDeclaration, Item, MatchExpr, Arm, Mutability, Name};
use lumen_check::ast::{Parameter, Path, Pattern, PatternKind, Program, RecordField, Signature, Span};
use lumen_check::ast::{Statement, StatementKind, TraitDeclaration, TypeDeclaration, TypeDefinition};
use lumen_check::ast::{TypeParameter, TypeRef, TypeRefKind, UnaryOperator, Variant, VariantPayload};
use lumen_check::code::Code;
use lumen_check::definition::{Definition, DefinitionKind, Namespace, Origin};
use lumen_check::error::ResolveError;
use lumen_check::resolve::program::ResolvedProgram;
use lumen_check::resolve::resolve;

// ---- the reader -------------------------------------------------------------------------------

#[derive(Clone, Debug, PartialEq)]
enum Token {
    Word(String),
    Number(i64),
    Text(String),
    Mark(&'static str),
}

#[derive(Clone, Debug)]
struct Lexeme {
    token: Token,
    span: Span,
    line: usize,
}

const MARKS: [&str; 27] = [
    ":=", "+=", "->", "=>", "==", "!=", "<=", ">=", "&&", "||", "(", ")", "{", "}", "<", ">", ",", ":",
    ".", "=", "+", "-", "*", "/", "%", "|", "!",
];

fn lexed(source: &str) -> Vec<Lexeme> {
    let bytes = source.as_bytes();
    let mut found = Vec::new();
    let mut at = 0;
    let mut line = 1;
    while at < bytes.len() {
        let c = bytes[at] as char;
        if c == '\n' {
            line += 1;
            at += 1;
        } else if c.is_whitespace() {
            at += 1;
        } else if c.is_ascii_alphabetic() || c == '_' {
            let start = at;
            while at < bytes.len() && ((bytes[at] as char).is_ascii_alphanumeric() || bytes[at] == b'_') {
                at += 1;
            }
            found.push(Lexeme { token: Token::Word(source[start..at].to_owned()), span: Span { start, end: at }, line });
        } else if c.is_ascii_digit() {
            let start = at;
            while at < bytes.len() && (bytes[at] as char).is_ascii_digit() {
                at += 1;
            }
            let value = source[start..at].parse().expect("a whole number");
            found.push(Lexeme { token: Token::Number(value), span: Span { start, end: at }, line });
        } else if c == '"' {
            let start = at;
            at += 1;
            while bytes[at] != b'"' {
                at += 1;
            }
            at += 1;
            let text = source[start + 1..at - 1].to_owned();
            found.push(Lexeme { token: Token::Text(text), span: Span { start, end: at }, line });
        } else {
            let mark = MARKS
                .iter()
                .find(|mark| source[at..].starts_with(**mark))
                .unwrap_or_else(|| panic!("no mark at {at} in {source:?}"));
            found.push(Lexeme { token: Token::Mark(mark), span: Span { start: at, end: at + mark.len() }, line });
            at += mark.len();
        }
    }
    found
}

struct Reader {
    lexemes: Vec<Lexeme>,
    at: usize,
}

fn joined(first: Span, last: Span) -> Span {
    Span { start: first.start, end: last.end }
}

impl Reader {
    fn peek(&self) -> Option<&Token> {
        self.lexemes.get(self.at).map(|lexeme| &lexeme.token)
    }

    fn peek_at(&self, ahead: usize) -> Option<&Token> {
        self.lexemes.get(self.at + ahead).map(|lexeme| &lexeme.token)
    }

    fn span(&self) -> Span {
        self.lexemes[self.at].span
    }

    fn last_span(&self) -> Span {
        self.lexemes[self.at - 1].span
    }

    /// Whether the next lexeme stands on the line the last one ended on.
    fn same_line(&self) -> bool {
        self.at > 0 && self.at < self.lexemes.len() && self.lexemes[self.at].line == self.lexemes[self.at - 1].line
    }

    fn is_mark(&self, mark: &str) -> bool {
        matches!(self.peek(), Some(Token::Mark(found)) if *found == mark)
    }

    fn is_word(&self, word: &str) -> bool {
        matches!(self.peek(), Some(Token::Word(found)) if found == word)
    }

    fn mark(&mut self, mark: &str) -> Span {
        assert!(self.is_mark(mark), "expected {mark:?}, found {:?}", self.peek());
        self.at += 1;
        self.last_span()
    }

    fn word(&mut self, word: &str) -> Span {
        assert!(self.is_word(word), "expected {word:?}, found {:?}", self.peek());
        self.at += 1;
        self.last_span()
    }

    fn name(&mut self) -> Name {
        let lexeme = self.lexemes[self.at].clone();
        let Token::Word(text) = lexeme.token else { panic!("expected a name, found {:?}", lexeme.token) };
        self.at += 1;
        Name { text, span: lexeme.span }
    }

    fn program(&mut self) -> Program {
        let mut items = Vec::new();
        while self.at < self.lexemes.len() {
            items.push(self.item());
        }
        Program { items }
    }

    fn item(&mut self) -> Item {
        let start = self.span();
        if self.is_word("import") {
            self.word("import");
            let module = self.name();
            return Item::Import(Import { module, span: joined(start, self.last_span()) });
        }
        if self.is_word("fn") {
            return Item::Function(self.function());
        }
        if self.is_word("type") {
            return Item::Type(self.type_declaration());
        }
        if self.is_word("trait") {
            return Item::Trait(self.trait_declaration());
        }
        if self.is_word("instance") {
            return Item::Instance(self.instance());
        }
        self.word("derive");
        let mut traits = vec![self.name()];
        while self.is_mark(",") {
            self.mark(",");
            traits.push(self.name());
        }
        self.word("for");
        let for_type = self.name();
        Item::Derive(DeriveDeclaration { traits, for_type, span: joined(start, self.last_span()) })
    }

    fn type_parameters(&mut self) -> Vec<TypeParameter> {
        let mut parameters = Vec::new();
        if !self.is_mark("<") {
            return parameters;
        }
        self.mark("<");
        loop {
            let name = self.name();
            let constraint = if self.is_mark(":") {
                self.mark(":");
                let trait_name = self.name();
                self.mark("<");
                let argument = self.type_ref();
                self.mark(">");
                Some(Constraint { name: trait_name, argument })
            } else {
                None
            };
            parameters.push(TypeParameter { name, constraint });
            if self.is_mark(",") {
                self.mark(",");
            } else {
                break;
            }
        }
        self.mark(">");
        parameters
    }

    fn parameters(&mut self) -> Vec<Parameter> {
        self.mark("(");
        let mut parameters = Vec::new();
        while !self.is_mark(")") {
            let name = self.name();
            let type_ref = if self.is_mark(":") {
                self.mark(":");
                Some(self.type_ref())
            } else {
                None
            };
            let span = joined(name.span, self.last_span());
            parameters.push(Parameter { name, type_ref, span });
            if self.is_mark(",") {
                self.mark(",");
            }
        }
        self.mark(")");
        parameters
    }

    fn result(&mut self) -> Option<TypeRef> {
        if self.is_mark("->") {
            self.mark("->");
            Some(self.type_ref())
        } else {
            None
        }
    }

    fn function(&mut self) -> Function {
        let start = self.word("fn");
        let name = self.name();
        let type_parameters = self.type_parameters();
        let parameters = self.parameters();
        let result = self.result();
        let body = self.block();
        Function { name, type_parameters, parameters, result, body, span: joined(start, self.last_span()) }
    }

    fn signature(&mut self) -> Signature {
        self.word("fn");
        let name = self.name();
        let parameters = self.parameters();
        let result = self.result();
        Signature { name, parameters, result }
    }

    fn type_ref(&mut self) -> TypeRef {
        if self.is_mark("(") {
            let start = self.mark("(");
            let end = self.mark(")");
            return TypeRef { kind: TypeRefKind::Unit, span: joined(start, end) };
        }
        let first = self.name();
        let (module, name) = if self.is_mark(".") {
            self.mark(".");
            (Some(first), self.name())
        } else {
            (None, first)
        };
        let start = module.as_ref().map_or(name.span, |module| module.span);
        let mut arguments = Vec::new();
        if self.is_mark("<") {
            self.mark("<");
            loop {
                arguments.push(self.type_ref());
                if self.is_mark(",") {
                    self.mark(",");
                } else {
                    break;
                }
            }
            self.mark(">");
        }
        TypeRef { kind: TypeRefKind::Named { path: Path { module, name }, arguments }, span: joined(start, self.last_span()) }
    }

    fn fields(&mut self) -> Vec<RecordField> {
        self.mark("{");
        let mut fields = Vec::new();
        while !self.is_mark("}") {
            let name = self.name();
            self.mark(":");
            let type_ref = self.type_ref();
            fields.push(RecordField { name, type_ref });
            if self.is_mark(",") {
                self.mark(",");
            }
        }
        self.mark("}");
        fields
    }

    fn variant(&mut self) -> Variant {
        let name = self.name();
        let payload = if self.is_mark("(") && self.same_line() {
            self.mark("(");
            let mut carried = Vec::new();
            while !self.is_mark(")") {
                carried.push(self.type_ref());
                if self.is_mark(",") {
                    self.mark(",");
                }
            }
            self.mark(")");
            VariantPayload::Tuple(carried)
        } else if self.is_mark("{") && self.same_line() {
            VariantPayload::Record(self.fields())
        } else {
            VariantPayload::Bare
        };
        Variant { name, payload }
    }

    fn type_declaration(&mut self) -> TypeDeclaration {
        let start = self.word("type");
        let name = self.name();
        let mut parameters = Vec::new();
        if self.is_mark("<") {
            self.mark("<");
            loop {
                parameters.push(self.name());
                if self.is_mark(",") {
                    self.mark(",");
                } else {
                    break;
                }
            }
            self.mark(">");
        }
        self.mark("=");
        let definition = if self.is_mark("{") {
            TypeDefinition::Record(self.fields())
        } else if self.is_mark("|") {
            let mut variants = Vec::new();
            while self.is_mark("|") {
                self.mark("|");
                variants.push(self.variant());
            }
            TypeDefinition::Variants(variants)
        } else {
            TypeDefinition::Variants(vec![self.variant()])
        };
        TypeDeclaration { name, parameters, definition, span: joined(start, self.last_span()) }
    }

    fn trait_declaration(&mut self) -> TraitDeclaration {
        let start = self.word("trait");
        let name = self.name();
        self.mark("<");
        let parameter = self.name();
        self.mark(">");
        self.mark("{");
        let mut methods = Vec::new();
        while !self.is_mark("}") {
            methods.push(self.signature());
        }
        self.mark("}");
        TraitDeclaration { name, parameter, methods, span: joined(start, self.last_span()) }
    }

    fn instance(&mut self) -> InstanceDeclaration {
        let start = self.word("instance");
        let trait_name = self.name();
        self.mark("<");
        let for_type = self.name();
        self.mark(">");
        self.mark("{");
        let mut methods = Vec::new();
        while !self.is_mark("}") {
            methods.push(self.function());
        }
        self.mark("}");
        InstanceDeclaration {
            trait_name,
            for_type,
            type_parameters: Vec::new(),
            arguments: Vec::new(),
            methods,
            span: joined(start, self.last_span()),
        }
    }

    fn block(&mut self) -> Block {
        let start = self.mark("{");
        let mut statements = Vec::new();
        while !self.is_mark("}") {
            statements.push(self.statement());
        }
        let end = self.mark("}");
        Block { statements, span: joined(start, end) }
    }

    fn statement(&mut self) -> Statement {
        let start = self.span();
        let kind = if self.is_word("var") {
            self.word("var");
            let name = self.name();
            self.mark("=");
            StatementKind::Binding { mutability: Mutability::Mutable, name, value: self.expr() }
        } else if self.is_word("return") {
            self.word("return");
            if self.same_line() && !self.is_mark("}") {
                StatementKind::Return(Some(self.expr()))
            } else {
                StatementKind::Return(None)
            }
        } else if self.is_word("break") {
            self.word("break");
            StatementKind::Break
        } else if self.is_word("continue") {
            self.word("continue");
            StatementKind::Continue
        } else if self.is_word("for") {
            self.word("for");
            let header = if self.is_mark("{") {
                ForHeader::Forever
            } else if matches!(self.peek_at(1), Some(Token::Word(word)) if word == "in") {
                let binding = self.name();
                self.word("in");
                ForHeader::In { binding, iterable: self.expr_no_record() }
            } else {
                ForHeader::While(self.expr_no_record())
            };
            StatementKind::For(ForLoop { header, body: self.block() })
        } else if self.is_word("_") && matches!(self.peek_at(1), Some(Token::Mark("="))) {
            self.word("_");
            self.mark("=");
            StatementKind::Discard(self.expr())
        } else if matches!(self.peek(), Some(Token::Word(_)))
            && matches!(self.peek_at(1), Some(Token::Mark(":=")))
        {
            let name = self.name();
            self.mark(":=");
            StatementKind::Binding { mutability: Mutability::Immutable, name, value: self.expr() }
        } else if matches!(self.peek(), Some(Token::Word(_)))
            && matches!(self.peek_at(1), Some(Token::Mark("=")) | Some(Token::Mark("+=")))
        {
            let target = self.name();
            let operator = if self.is_mark("=") {
                self.mark("=");
                AssignOperator::Replace
            } else {
                self.mark("+=");
                AssignOperator::Add
            };
            StatementKind::Assign { target, operator, value: self.expr() }
        } else {
            StatementKind::Expr(self.expr())
        };
        Statement { kind, span: joined(start, self.last_span()) }
    }

    fn expr(&mut self) -> Expr {
        self.binary(0, true)
    }

    /// An expression standing before a block, where a name followed by a brace is no record.
    fn expr_no_record(&mut self) -> Expr {
        self.binary(0, false)
    }

    fn operator(&self) -> Option<(BinaryOperator, usize)> {
        if !self.same_line() {
            return None;
        }
        let Some(Token::Mark(mark)) = self.peek() else { return None };
        let found = match *mark {
            "||" => (BinaryOperator::Or, 1),
            "&&" => (BinaryOperator::And, 2),
            "==" => (BinaryOperator::Equal, 3),
            "!=" => (BinaryOperator::NotEqual, 3),
            "<" => (BinaryOperator::Less, 3),
            "<=" => (BinaryOperator::LessOrEqual, 3),
            ">" => (BinaryOperator::Greater, 3),
            ">=" => (BinaryOperator::GreaterOrEqual, 3),
            "+" => (BinaryOperator::Add, 4),
            "-" => (BinaryOperator::Subtract, 4),
            "*" => (BinaryOperator::Multiply, 5),
            "/" => (BinaryOperator::Divide, 5),
            "%" => (BinaryOperator::Remainder, 5),
            _ => return None,
        };
        Some(found)
    }

    fn binary(&mut self, least: usize, records: bool) -> Expr {
        let mut left = self.unary(records);
        while let Some((operator, binding)) = self.operator() {
            if binding <= least {
                break;
            }
            self.at += 1;
            let right = self.binary(binding, records);
            let span = joined(left.span, right.span);
            left = Expr { kind: ExprKind::Binary { operator, left: Box::new(left), right: Box::new(right) }, span };
        }
        left
    }

    fn unary(&mut self, records: bool) -> Expr {
        if self.is_mark("!") || self.is_mark("-") {
            let start = self.span();
            let operator = if self.is_mark("!") { UnaryOperator::Not } else { UnaryOperator::Negate };
            self.at += 1;
            let operand = self.unary(records);
            let span = joined(start, operand.span);
            return Expr { kind: ExprKind::Unary { operator, operand: Box::new(operand) }, span };
        }
        self.postfix(records)
    }

    fn arguments(&mut self) -> Vec<Argument> {
        self.mark("(");
        let mut arguments = Vec::new();
        while !self.is_mark(")") {
            let label = if matches!(self.peek(), Some(Token::Word(_))) && matches!(self.peek_at(1), Some(Token::Mark(":"))) {
                let label = self.name();
                self.mark(":");
                Some(label)
            } else {
                None
            };
            arguments.push(Argument { label, value: self.expr() });
            if self.is_mark(",") {
                self.mark(",");
            }
        }
        self.mark(")");
        arguments
    }

    fn postfix(&mut self, records: bool) -> Expr {
        let mut expr = self.primary(records);
        loop {
            if self.is_mark("(") && self.same_line() {
                let arguments = self.arguments();
                let span = joined(expr.span, self.last_span());
                expr = Expr { kind: ExprKind::Call { callee: Box::new(expr), arguments }, span };
            } else if self.is_mark(".") && self.same_line() {
                self.mark(".");
                let field = self.name();
                let span = joined(expr.span, field.span);
                expr = Expr { kind: ExprKind::Field { receiver: Box::new(expr), field }, span };
            } else {
                return expr;
            }
        }
    }

    fn primary(&mut self, records: bool) -> Expr {
        let start = self.span();
        match self.peek().cloned() {
            Some(Token::Number(value)) => {
                self.at += 1;
                Expr { kind: ExprKind::Integer(value), span: start }
            }
            Some(Token::Text(text)) => {
                self.at += 1;
                Expr { kind: ExprKind::String(text), span: start }
            }
            Some(Token::Mark("(")) => {
                self.mark("(");
                if self.is_mark(")") {
                    let end = self.mark(")");
                    return Expr { kind: ExprKind::Unit, span: joined(start, end) };
                }
                let inner = self.expr();
                self.mark(")");
                inner
            }
            Some(Token::Word(word)) if word == "true" || word == "false" => {
                self.at += 1;
                Expr { kind: ExprKind::Bool(word == "true"), span: start }
            }
            Some(Token::Word(word)) if word == "match" => self.match_expr(),
            Some(Token::Word(word)) if word == "if" => self.if_expr(),
            Some(Token::Word(_)) => {
                let name = self.name();
                let capital = name.text.starts_with(|c: char| c.is_ascii_uppercase());
                if records && capital && self.is_mark("{") && self.same_line() {
                    return self.record(Path { module: None, name }, start);
                }
                Expr { span: name.span, kind: ExprKind::Name(name) }
            }
            other => panic!("no expression starts with {other:?}"),
        }
    }

    fn record(&mut self, base: Path, start: Span) -> Expr {
        self.mark("{");
        let mut fields = Vec::new();
        while !self.is_mark("}") {
            let name = self.name();
            self.mark(":");
            fields.push(FieldValue { name, value: self.expr() });
            if self.is_mark(",") {
                self.mark(",");
            }
        }
        let end = self.mark("}");
        Expr { kind: ExprKind::Record { base, fields }, span: joined(start, end) }
    }

    fn if_expr(&mut self) -> Expr {
        let start = self.word("if");
        let mut branches = vec![Branch { condition: self.expr_no_record(), block: self.block() }];
        let mut otherwise = None;
        while self.is_word("else") {
            self.word("else");
            if self.is_word("if") {
                self.word("if");
                branches.push(Branch { condition: self.expr_no_record(), block: self.block() });
            } else {
                otherwise = Some(self.block());
                break;
            }
        }
        Expr { kind: ExprKind::If(IfExpr { branches, otherwise }), span: joined(start, self.last_span()) }
    }

    fn match_expr(&mut self) -> Expr {
        let start = self.word("match");
        let scrutinee = self.expr_no_record();
        self.mark("{");
        let mut arms = Vec::new();
        while !self.is_mark("}") {
            let pattern = self.pattern();
            self.mark("=>");
            arms.push(Arm { pattern, body: self.expr() });
        }
        let end = self.mark("}");
        Expr { kind: ExprKind::Match(MatchExpr { scrutinee: Box::new(scrutinee), arms }), span: joined(start, end) }
    }

    fn pattern(&mut self) -> Pattern {
        let first = self.single_pattern();
        if !self.is_mark("|") {
            return first;
        }
        let start = first.span;
        let mut alternatives = vec![first];
        while self.is_mark("|") {
            self.mark("|");
            alternatives.push(self.single_pattern());
        }
        Pattern { kind: PatternKind::Or(alternatives), span: joined(start, self.last_span()) }
    }

    fn single_pattern(&mut self) -> Pattern {
        let start = self.span();
        match self.peek().cloned() {
            Some(Token::Number(value)) => {
                self.at += 1;
                Pattern { kind: PatternKind::Integer(value), span: start }
            }
            Some(Token::Text(text)) => {
                self.at += 1;
                Pattern { kind: PatternKind::String(text), span: start }
            }
            Some(Token::Word(word)) if word == "_" => {
                self.at += 1;
                Pattern { kind: PatternKind::Wildcard, span: start }
            }
            Some(Token::Word(word)) if word == "true" || word == "false" => {
                self.at += 1;
                Pattern { kind: PatternKind::Bool(word == "true"), span: start }
            }
            _ => {
                let name = self.name();
                let path = Path { module: None, name };
                if self.is_mark("(") {
                    self.mark("(");
                    let mut elements = Vec::new();
                    while !self.is_mark(")") {
                        elements.push(self.pattern());
                        if self.is_mark(",") {
                            self.mark(",");
                        }
                    }
                    self.mark(")");
                    Pattern { kind: PatternKind::Tuple { path, elements }, span: joined(start, self.last_span()) }
                } else if self.is_mark("{") {
                    self.mark("{");
                    let mut fields = Vec::new();
                    while !self.is_mark("}") {
                        fields.push(self.name());
                        if self.is_mark(",") {
                            self.mark(",");
                        }
                    }
                    self.mark("}");
                    Pattern { kind: PatternKind::Record { path, fields }, span: joined(start, self.last_span()) }
                } else {
                    Pattern { kind: PatternKind::Name(path), span: start }
                }
            }
        }
    }
}

fn read(source: &str) -> Program {
    let mut reader = Reader { lexemes: lexed(source), at: 0 };
    reader.program()
}

// ---- what the tests ask of a module ------------------------------------------------------------

/// The prelude these tests resolve against: the answers and the traits a module reaches without
/// an import, with the one instance the compiler supplies written above the trait it answers.
const PRELUDE: &str = "instance Eq<Int> {\n    fn is_equal(one: Int, other: Int) -> Bool {\n        true\n    }\n}\n\ntrait Eq<T> {\n    fn is_equal(one: T, other: T) -> Bool\n}\n\ntrait Ord<T> {\n    fn is_less(one: T, other: T) -> Bool\n}\n\ntrait Hash<T> {\n    fn hashed(value: T) -> Int\n}\n\ntrait Show<T> {\n    fn shown(value: T) -> String\n}\n\ntrait Add<T> {\n    fn added(one: T, other: T) -> T\n}\n\ntype Option<T> =\n    | Some(T)\n    | None\n\ntype Result<T, E> =\n    | Ok(T)\n    | Err(E)\n";

/// The name the module under test is compiled as, which nothing here depends on.
const MODULE: &str = "demo";

fn resolution(source: &str) -> Result<ResolvedProgram, ResolveError> {
    resolve(read(source), MODULE, &read(PRELUDE))
}

/// The failure `source` is refused with.
fn refusal(source: &str) -> ResolveError {
    resolution(source).err().unwrap_or_else(|| panic!("{source:?} is refused"))
}

/// The resolved program of `source`, which must resolve.
fn resolved(source: &str) -> ResolvedProgram {
    resolution(source).unwrap_or_else(|error| panic!("{source:?} resolves: {}", error.message()))
}

/// What the occurrence of `written` numbered `occurrence` means, counting from one.
fn meaning(source: &str, namespace: Namespace, written: &str, occurrence: usize) -> Option<Definition> {
    let at = source
        .match_indices(written)
        .nth(occurrence - 1)
        .unwrap_or_else(|| panic!("{source:?} writes {written:?} {occurrence} times"))
        .0;
    let name = Name { text: written.to_owned(), span: Span { start: at, end: at + written.len() } };
    resolved(source).definition(namespace, &name)
}

fn kind(source: &str, namespace: Namespace, written: &str, occurrence: usize) -> Option<DefinitionKind> {
    meaning(source, namespace, written, occurrence).map(|definition| definition.kind)
}

fn text(span: Span, source: &str) -> &str {
    &source[span.start..span.end]
}

/// The `error[LNNNN]` a refusal opens with.
fn opening(source: &str) -> String {
    let number = match refusal(source).code() {
        Code::UnresolvedName => "L0300",
        Code::NameDeclaredTwice => "L0301",
        Code::NameShadowed => "L0302",
        Code::DefinitionBeforeUse => "L0303",
        other => panic!("no number is known here for {other:?}"),
    };
    format!("error[{number}]")
}

#[test]
fn the_reader_reads_the_prelude_these_tests_resolve_against() {
    assert_eq!(read(PRELUDE).items.len(), 8);
    assert!(lumen_check::resolve::prelude_resolved(read(PRELUDE)).is_ok());
}

// ---- calls -------------------------------------------------------------------------------------

/// A module declaring `held`, with `body` as the body of the function that calls it.
fn calling_held(body: &str) -> String {
    format!("fn go() -> Int {{\n{body}}}\n\nfn held(value: Int, more: Int) -> Int {{\n    value + more\n}}\n")
}

#[test]
fn the_name_after_the_dot_means_the_function_this_module_declares() {
    let source = calling_held("    count := 1\n    count.held(2)\n");
    let called = meaning(&source, Namespace::Value, "held", 1).expect("the call names the declaration");
    assert_eq!(called.kind, DefinitionKind::Function);
    assert_eq!(meaning(&source, Namespace::Value, "held", 2), Some(called));
}

#[test]
fn a_name_after_the_dot_that_nothing_declares_is_refused_where_it_is_written() {
    let source = calling_held("    count := 1\n    count.missing(2)\n");
    assert_eq!(refusal(&source).message(), "there is nothing named `missing`");
}

#[test]
fn the_receiver_is_resolved_as_the_value_it_is() {
    let source = calling_held("    missing.held(2)\n");
    assert_eq!(refusal(&source).message(), "there is nothing named `missing`");
}

#[test]
fn anything_at_all_stands_before_the_dot_where_it_is_a_value() {
    let source = calling_held("    held(1, 2).held(3)\n");
    resolved(&source);
}

#[test]
fn a_field_read_leaves_the_name_after_the_dot_to_the_type_it_is_read_through() {
    let source = "fn named(user: User) -> String {\n    user.name\n}\n\ntype User = {\n    name: String\n}\n";
    assert_eq!(meaning(source, Namespace::Value, "name", 1), None);
}

#[test]
fn a_function_reached_through_a_module_is_no_name_of_this_one() {
    let source = "import io\n\nfn go() -> () {\n    io.println(\"hi\")\n}\n";
    assert_eq!(meaning(source, Namespace::Value, "println", 1), None);
}

// ---- derive ------------------------------------------------------------------------------------

const USER: &str = "type User = {\n    id: Int\n}\n";

fn module(derived: &str) -> String {
    format!("{derived}\n\n{USER}")
}

const DERIVABLE: [&str; 4] = ["Eq", "Ord", "Hash", "Show"];

#[test]
fn a_derive_of_each_standard_trait_for_a_type_this_module_declares_resolves() {
    for of in DERIVABLE {
        let source = module(&format!("derive {of} for User"));
        assert_eq!(resolved(&source).program().items.len(), 2, "{of}");
    }
}

#[test]
fn a_derive_naming_every_standard_trait_at_once_resolves() {
    let source = module(&format!("derive {} for User", DERIVABLE.join(", ")));
    assert_eq!(resolved(&source).program().items.len(), 2);
}

#[test]
fn a_derive_of_a_trait_no_type_derives_is_refused_naming_that_trait() {
    let error = refusal(&module("derive Add for User"));
    assert_eq!(error.message(), "`Add` is not a trait a type derives");
    assert_eq!(error.help(), "`Eq`, `Ord`, `Hash`, and `Show` are the traits a type derives; write others by hand");
}

#[test]
fn a_derive_names_the_first_trait_it_lists_that_no_type_derives() {
    let error = refusal(&module("derive Eq, Add for User"));
    assert_eq!(error.message(), "`Add` is not a trait a type derives");
}

#[test]
fn a_derive_for_a_type_this_module_does_not_declare_is_refused() {
    let error = refusal(&module("derive Eq for Int"));
    assert_eq!(error.message(), "`Int` is not a type this module declares");
    assert_eq!(error.help(), "a derive reads the declaration it names, so it names one this module writes");
}

#[test]
fn a_derive_of_something_that_is_not_a_trait_is_refused_as_an_instance_is() {
    let error = refusal(&module("derive User for User"));
    assert_eq!(error.message(), "`User` is not a trait");
}

#[test]
fn a_derive_of_a_trait_the_type_already_has_an_instance_of_is_refused() {
    let written = "instance Eq<User> {\n    fn is_equal(one, other) -> Bool {\n        true\n    }\n}";
    let error = refusal(&format!("derive Eq for User\n\n{written}\n\n{USER}"));
    assert_eq!(error.message(), "`Eq` already has an instance for `User`");
}

#[test]
fn a_derive_written_twice_for_one_type_is_the_same_instance_twice() {
    let error = refusal(&module("derive Eq for User\n\nderive Eq for User"));
    assert_eq!(error.message(), "`Eq` already has an instance for `User`");
}

#[test]
fn a_derive_below_the_type_it_names_is_refused_as_every_use_below_one_is() {
    let error = refusal(&format!("{USER}\nderive Eq for User\n"));
    assert_eq!(error.message(), "`User` is written above `derive Eq for User`, which uses it");
}

// ---- errors ------------------------------------------------------------------------------------

#[test]
fn a_name_with_no_definition_is_refused() {
    let error = refusal("fn f() -> Int {\n    missing\n}\n");
    assert_eq!(error.message(), "there is nothing named `missing`");
}

#[test]
fn a_type_that_is_not_declared_is_refused() {
    let error = refusal("fn f() -> Money {\n    1\n}\n");
    assert_eq!(error.message(), "there is no type named `Money`");
}

#[test]
fn a_module_may_not_declare_one_name_twice() {
    let error = refusal("fn f() -> Int {\n    2\n}\n\nfn f() -> Int {\n    1\n}\n");
    assert_eq!(error.message(), "`f` is declared twice in this module");
}

#[test]
fn two_parameters_of_one_function_may_not_share_a_name() {
    let error = refusal("fn f(a: Int, a: Int) -> Int {\n    1\n}\n");
    assert_eq!(error.message(), "`a` is declared twice in this module");
}

#[test]
fn a_binding_may_not_hide_a_parameter() {
    let error = refusal("fn f(total: Int) -> Int {\n    total := 1\n    total\n}\n");
    assert_eq!(error.message(), "`total` is already in scope here");
}

#[test]
fn a_declaration_may_not_hide_a_name_the_prelude_supplies() {
    let error = refusal("fn Ok() -> Int {\n    1\n}\n");
    assert_eq!(error.message(), "`Ok` is already in scope here");
}

#[test]
fn a_binding_does_not_see_the_name_it_is_binding() {
    let error = refusal("fn f() -> Int {\n    total := total + 1\n    total\n}\n");
    assert_eq!(error.message(), "there is nothing named `total`");
}

#[test]
fn a_loop_binding_is_gone_once_the_loop_ends() {
    let error = refusal("fn f(users: List<Int>) -> Int {\n    for user in users {\n        user\n    }\n    user\n}\n");
    assert_eq!(error.message(), "there is nothing named `user`");
}

#[test]
fn a_pattern_binding_is_gone_once_its_arm_ends() {
    let source = "fn describe(payment: Payment) -> String {\n    match payment {\n        Pending => reason\n        Failed(reason) => reason\n    }\n}\n\ntype Payment =\n    | Pending\n    | Failed(String)\n";
    assert_eq!(refusal(source).message(), "there is nothing named `reason`");
}

#[test]
fn each_kind_of_refusal_carries_its_own_code() {
    assert_eq!(opening("fn f() -> Int {\n    missing\n}\n"), "error[L0300]");
    assert_eq!(opening("fn f() -> Int {\n    2\n}\n\nfn f() -> Int {\n    1\n}\n"), "error[L0301]");
    assert_eq!(opening("fn Ok() -> Int {\n    1\n}\n"), "error[L0302]");
}

#[test]
fn a_function_name_written_as_anything_but_a_call_is_refused() {
    let source = "fn go() -> Int {\n    held := helper\n    1\n}\n\nfn helper() -> Int {\n    1\n}\n";
    let error = refusal(source);
    assert_eq!(error.message(), "`helper` is a function, so it is written as a call");
    assert_eq!(error.help(), "version 0.1 reaches a function by calling it; write the call");
    assert_eq!(text(error.span(), source), "helper");
}

#[test]
fn a_function_name_is_refused_wherever_a_value_is_written() {
    let places = [
        "    return helper\n",
        "    helper + 1\n",
        "    take(helper)\n",
        "    match helper {\n        anything => 1\n    }\n",
    ];
    for place in places {
        let source = format!(
            "fn go() -> Int {{\n{place}}}\n\nfn take(value: Int) -> Int {{\n    value\n}}\n\nfn helper() -> Int {{\n    1\n}}\n"
        );
        assert_eq!(refusal(&source).message(), "`helper` is a function, so it is written as a call", "{place} is refused");
    }
}

#[test]
fn a_function_name_on_the_left_of_an_assignment_is_refused_like_any_other_value() {
    let source = "fn go() -> Int {\n    helper = 1\n    helper()\n}\n\nfn helper() -> Int {\n    1\n}\n";
    assert_eq!(refusal(source).message(), "`helper` is a function, so it is written as a call");
}

#[test]
fn a_module_name_written_as_a_value_is_refused() {
    let source = "import io\n\nfn go() -> Int {\n    held := io\n    1\n}\n";
    let error = refusal(source);
    assert_eq!(error.message(), "`io` is a module, so a name inside it is what is written");
    assert_eq!(error.help(), "a module is what a name is reached through, as `io.println` is");
}

#[test]
fn a_module_name_left_of_a_dot_is_resolved_rather_than_refused() {
    resolved("import io\n\nfn go() -> Int {\n    io.count()\n}\n");
}

#[test]
fn a_name_inside_a_module_is_written_as_a_call_because_nothing_holds_a_function() {
    let source = "import io\n\nfn go() -> Int {\n    io.count\n}\n";
    assert_eq!(refusal(source).message(), "`count` is a function, so it is written as a call");
}

#[test]
fn a_function_called_by_its_name_is_resolved_rather_than_refused() {
    resolved("fn go() -> Int {\n    helper()\n}\n\nfn helper() -> Int {\n    1\n}\n");
}

#[test]
fn an_immutable_binding_is_never_assigned_to() {
    let error = refusal("fn count() -> Int {\n    total := 0\n    total = 2\n    total\n}\n");
    assert_eq!(error.message(), "`total` is not a `var`, so it is never assigned to");
    assert_eq!(error.help(), "mutation is explicit: bind it with `var`, or bind a new name");
}

#[test]
fn a_var_binding_is_what_an_assignment_names() {
    resolved("fn count() -> Int {\n    var total = 0\n    total = 2\n    total\n}\n");
}

#[test]
fn a_parameter_is_a_binding_that_never_changes() {
    let error = refusal("fn count(total: Int) -> Int {\n    total = 2\n    total\n}\n");
    assert_eq!(error.message(), "`total` is not a `var`, so it is never assigned to");
}

#[test]
fn a_for_in_binding_is_a_binding_that_never_changes() {
    let source = "fn go(items: List<Int>) -> Int {\n    for item in items {\n        item = 1\n    }\n    0\n}\n";
    assert_eq!(refusal(source).message(), "`item` is not a `var`, so it is never assigned to");
}

#[test]
fn a_constructor_is_refused_rather_than_compiled_into_a_store_with_nowhere_to_write() {
    let source = "fn go() -> Int {\n    Marker = Marker\n    1\n}\n\ntype Marker = {\n}\n";
    assert_eq!(refusal(source).message(), "`Marker` is not a `var`, so it is never assigned to");
}

#[test]
fn a_plus_equals_names_a_var_the_same_way_an_equals_does() {
    let error = refusal("fn count() -> Int {\n    total := 0\n    total += 2\n    total\n}\n");
    assert_eq!(error.message(), "`total` is not a `var`, so it is never assigned to");
}

// ---- order -------------------------------------------------------------------------------------

#[test]
fn a_declaration_written_above_what_uses_it_is_refused() {
    let error = refusal("fn one() -> Int {\n    1\n}\n\nfn two() -> Int {\n    one()\n}\n");
    assert_eq!(error.message(), "`one` is written above `two`, which uses it");
}

#[test]
fn a_declaration_written_below_what_uses_it_passes() {
    let source = "fn two() -> Int {\n    one()\n}\n\nfn one() -> Int {\n    1\n}\n";
    assert_eq!(resolved(source).program().items.len(), 2);
}

#[test]
fn a_type_written_above_the_function_it_is_declared_for_is_refused() {
    let error = refusal("type UserId = UserId(Int)\n\nfn wrap(raw: Int) -> UserId {\n    UserId(raw)\n}\n");
    assert_eq!(error.message(), "`UserId` is written above `wrap`, which uses it");
}

#[test]
fn a_type_written_above_the_type_that_holds_it_is_refused() {
    let error = refusal("type UserId = UserId(Int)\n\ntype User = {\n    id: UserId\n}\n");
    assert_eq!(error.message(), "`UserId` is written above `User`, which uses it");
}

#[test]
fn two_declarations_that_use_each_other_are_written_either_way() {
    let source = "fn odd(count: Int) -> Bool {\n    even(count - 1)\n}\n\nfn even(count: Int) -> Bool {\n    odd(count - 1)\n}\n";
    assert_eq!(resolved(source).program().items.len(), 2);
}

#[test]
fn a_declaration_a_cycle_reaches_only_one_way_round_is_still_placed() {
    let error = refusal("fn helper() -> Int {\n    1\n}\n\nfn odd(count: Int) -> Bool {\n    even(count - helper())\n}\n\nfn even(count: Int) -> Bool {\n    odd(count - 1)\n}\n");
    assert_eq!(error.message(), "`helper` is written above `odd`, which uses it");
}

#[test]
fn an_import_is_placed_by_the_formatter_and_not_by_what_uses_it() {
    let source = "import io\n\nfn greet() {\n    io.print(\"hi\")\n}\n";
    assert_eq!(resolved(source).program().items.len(), 2);
}

// ---- patterns ----------------------------------------------------------------------------------

fn matching(arms: &str) -> String {
    format!(
        "fn describe(payment: Payment) -> String {{\n    match payment {{\n{arms}    }}\n}}\n\n\
         type Payment =\n    | Pending\n    | Running\n    | Failed(String)\n"
    )
}

#[test]
fn a_record_pattern_is_never_an_alternative_because_it_binds_every_field_it_names() {
    let source = "fn described(outcome: Outcome) -> String {\n    match outcome {\n        Ready | Held { held } => \"there\"\n    }\n}\n\ntype Outcome =\n    | Ready\n    | Held {\n        held: String\n    }\n";
    assert_eq!(refusal(source).message(), "`held` binds inside an or-pattern, which binds nothing");
}

// ---- scopes ------------------------------------------------------------------------------------

#[test]
fn a_use_points_at_the_declaration_it_means() {
    let source = "fn two() -> Int {\n    one()\n}\n\nfn one() -> Int {\n    1\n}\n";
    let declared = meaning(source, Namespace::Value, "one", 1).expect("the declaration names itself");
    assert_eq!(declared.kind, DefinitionKind::Function);
    assert_eq!(meaning(source, Namespace::Value, "one", 2), Some(declared));
}

#[test]
fn a_function_may_call_one_declared_below_it() {
    let source = "fn first() -> Int {\n    second()\n}\n\nfn second() -> Int {\n    1\n}\n";
    assert_eq!(kind(source, Namespace::Value, "second", 1), Some(DefinitionKind::Function));
}

#[test]
fn a_newtype_names_a_type_and_a_constructor_without_the_two_clashing() {
    let source = "fn wrap(raw: Int) -> UserId {\n    UserId(raw)\n}\n\ntype UserId = UserId(Int)\n";
    assert_eq!(kind(source, Namespace::Type, "UserId", 3), Some(DefinitionKind::Type));
    assert_eq!(kind(source, Namespace::Value, "UserId", 4), Some(DefinitionKind::Constructor));
}

#[test]
fn a_record_type_declares_a_type_and_the_value_it_is_built_with_at_one_place() {
    let source = "fn make() -> User {\n    User { id: 1 }\n}\n\ntype User = {\n    id: Int\n}\n";
    assert_eq!(kind(source, Namespace::Type, "User", 3), Some(DefinitionKind::Type));
    assert_eq!(kind(source, Namespace::Value, "User", 3), Some(DefinitionKind::Constructor));
}

#[test]
fn a_parameter_is_in_scope_in_the_body() {
    let source = "fn double(value: Int) -> Int {\n    value + value\n}\n";
    assert_eq!(kind(source, Namespace::Value, "value", 2), Some(DefinitionKind::Parameter));
}

#[test]
fn a_binding_is_in_scope_after_the_statement_that_makes_it() {
    let source = "fn f() -> Int {\n    total := 1\n    total + 1\n}\n";
    assert_eq!(kind(source, Namespace::Value, "total", 2), Some(DefinitionKind::Local));
}

#[test]
fn a_var_binds_a_name_that_may_be_assigned_to() {
    let source = "fn f() -> Int {\n    var total = 1\n    total + 1\n}\n";
    assert_eq!(kind(source, Namespace::Value, "total", 2), Some(DefinitionKind::Variable));
}

#[test]
fn a_type_parameter_is_in_scope_in_the_signature_that_declares_it() {
    let source = "fn identity<T>(value: T) -> T {\n    value\n}\n";
    assert_eq!(kind(source, Namespace::Type, "T", 2), Some(DefinitionKind::TypeParameter));
}

#[test]
fn the_prelude_is_in_scope_without_an_import() {
    let source = "fn ok() -> Result<Int, String> {\n    Ok(1)\n}\n";
    assert_eq!(
        meaning(source, Namespace::Type, "Result", 1),
        Some(Definition { kind: DefinitionKind::Type, origin: Origin::Prelude })
    );
    assert_eq!(
        meaning(source, Namespace::Value, "Ok", 1),
        Some(Definition { kind: DefinitionKind::Constructor, origin: Origin::Prelude })
    );
}

#[test]
fn an_imported_module_is_in_scope_under_its_own_name() {
    let source = "import io\n\nfn greet() {\n    io.print(\"hi\")\n}\n";
    assert_eq!(kind(source, Namespace::Value, "io", 2), Some(DefinitionKind::Module));
}

#[test]
fn a_name_written_after_a_dot_is_not_looked_up_here() {
    let source = "import io\n\nfn greet() {\n    io.print(\"hi\")\n}\n";
    assert_eq!(meaning(source, Namespace::Value, "print", 1), None);
}

#[test]
fn a_field_of_a_record_literal_is_not_looked_up_here() {
    let source = "fn make() -> User {\n    User { id: 1 }\n}\n\ntype User = {\n    id: Int\n}\n";
    assert_eq!(meaning(source, Namespace::Value, "id", 2), None);
}

#[test]
fn a_bare_pattern_that_names_a_variant_is_a_use_and_not_a_binding() {
    let source = "fn describe(payment: Payment) -> String {\n    match payment {\n        Pending => \"waiting\"\n        Failed(reason) => reason\n    }\n}\n\ntype Payment =\n    | Pending\n    | Failed(String)\n";
    assert_eq!(kind(source, Namespace::Value, "Pending", 2), Some(DefinitionKind::Constructor));
    assert_eq!(kind(source, Namespace::Value, "reason", 1), Some(DefinitionKind::Local));
}

#[test]
fn a_record_pattern_binds_each_field_it_names() {
    let source = "fn describe(payment: Payment) -> String {\n    match payment {\n        Pending => \"waiting\"\n        Authorized { id } => id\n    }\n}\n\ntype Payment =\n    | Pending\n    | Authorized {\n        id: String\n    }\n";
    assert_eq!(kind(source, Namespace::Value, "id", 2), Some(DefinitionKind::Local));
}

#[test]
fn the_tree_comes_through_resolution_unchanged() {
    let source = "fn f() -> Int {\n    1\n}\n";
    assert_eq!(resolved(source).program().items.len(), 1);
    assert_eq!(*resolved(source).program(), read(source));
}

// ---- traits ------------------------------------------------------------------------------------

const AREA: &str = "fn is_wide(shape: Square) -> Bool {\n    covered(shape) > 4\n}\n\ninstance Area<Square> {\n    fn covered(shape: Square) -> Int {\n        shape.side * shape.side\n    }\n}\n\ntrait Area<T> {\n    fn covered(shape: T) -> Int\n}\n\ntype Square = {\n    side: Int\n}\n";

#[test]
fn a_trait_names_itself_among_the_types() {
    let found = meaning(AREA, Namespace::Type, "Area", 1).expect("`Area` has a definition");
    assert_eq!(found.kind, DefinitionKind::Trait);
}

#[test]
fn a_trait_names_each_of_its_methods_among_the_values() {
    let found = meaning(AREA, Namespace::Value, "covered", 1).expect("`covered` has a definition");
    assert_eq!(found.kind, DefinitionKind::TraitMethod);
}

#[test]
fn every_use_of_a_trait_method_means_the_trait_that_declares_it() {
    let declared = meaning(AREA, Namespace::Value, "covered", 3).expect("the trait declares it");
    let called = meaning(AREA, Namespace::Value, "covered", 1).expect("the call means it");
    assert_eq!(called.origin, declared.origin);
}

#[test]
fn the_prelude_supplies_eq_and_the_method_it_declares() {
    let source = "fn is_same(left: Int, right: Int) -> Bool {\n    is_equal(left, right)\n}\n";
    let method = meaning(source, Namespace::Value, "is_equal", 1).expect("`is_equal` is in scope");
    assert_eq!(method.kind, DefinitionKind::TraitMethod);
    assert_eq!(method.origin, Origin::Prelude);
}

#[test]
fn a_module_may_not_declare_a_second_instance_of_one_trait_for_one_type() {
    let error = refusal("instance Eq<Point> {\n    fn is_equal(one, other) -> Bool {\n        true\n    }\n}\n\ninstance Eq<Point> {\n    fn is_equal(one, other) -> Bool {\n        false\n    }\n}\n\ntype Point = {\n    across: Int\n}\n");
    assert_eq!(error.message(), "`Eq` already has an instance for `Point`");
}

#[test]
fn a_module_may_not_write_an_instance_the_compiler_already_supplies() {
    let error = refusal("instance Eq<Int> {\n    fn is_equal(one, other) -> Bool {\n        true\n    }\n}\n");
    assert_eq!(error.message(), "`Eq` already has an instance for `Int`");
}

fn around_against(declared: &str) -> String {
    format!(
        "instance Area<Square> {{\n    fn around(shape: Square) -> Int {{\n        4 * shape.side\n    }}\n}}\n\ntrait Area<T> {{\n{declared}}}\n\ntype Square = {{\n    side: Int\n}}\n",
        declared = declared
    )
}

#[test]
fn an_instance_writes_every_method_its_trait_declares() {
    let error = refusal(&around_against("    fn covered(shape: T) -> Int\n    fn around(shape: T) -> Int\n"));
    assert_eq!(error.message(), "`Area` declares `covered`, which this instance does not write");
}

#[test]
fn an_instance_writes_no_method_its_trait_never_declared() {
    let error = refusal(&around_against("    fn covered(shape: T) -> Int\n"));
    assert_eq!(error.message(), "`Area` declares no `around` for this instance to write");
}

#[test]
fn a_type_written_where_a_trait_belongs_is_refused() {
    let error = refusal("instance Square<Square> {\n    fn covered(shape: Square) -> Int {\n        shape.side\n    }\n}\n\ntype Square = {\n    side: Int\n}\n");
    assert_eq!(error.message(), "`Square` is not a trait");
}

#[test]
fn a_constraint_that_names_no_trait_is_refused() {
    let error = refusal("fn kept<T: Square<T>>(value: T) -> T {\n    value\n}\n\ntype Square = {\n    side: Int\n}\n");
    assert_eq!(error.message(), "`Square` is not a trait");
}

#[test]
fn a_trait_written_where_a_type_belongs_is_refused() {
    let error = refusal("fn compared(value: Eq) -> Eq {\n    value\n}\n");
    assert_eq!(error.message(), "`Eq` is a trait, not a type");
}

#[test]
fn a_module_may_not_declare_a_name_the_prelude_gives_a_trait() {
    let error = refusal("trait Eq<T> {\n    fn is_equal(one: T, other: T) -> Bool\n}\n");
    assert_eq!(error.message(), "`Eq` is already in scope here");
}

#[test]
fn a_trait_method_is_a_name_that_is_called_and_never_read() {
    let error = refusal("fn read() -> Int {\n    is_equal\n}\n");
    assert_eq!(error.message(), "`is_equal` is a function, so it is written as a call");
}

#[test]
fn an_instance_writes_one_body_for_each_method_and_never_two() {
    let error = refusal("instance Area<Square> {\n    fn covered(shape: Square) -> Int {\n        shape.side * shape.side\n    }\n\n    fn covered(shape: Square) -> Int {\n        4 * shape.side\n    }\n}\n\ntrait Area<T> {\n    fn covered(shape: T) -> Int\n}\n\ntype Square = {\n    side: Int\n}\n");
    assert_eq!(error.message(), "`Area` declares `covered` once, and this instance writes it twice");
}

#[test]
fn a_trait_written_where_an_instance_names_its_type_is_refused() {
    let error = refusal("instance Eq<Area> {\n    fn is_equal(one, other) -> Bool {\n        true\n    }\n}\n\ntrait Area<T> {\n    fn covered(shape: T) -> Int\n}\n");
    assert_eq!(error.message(), "`Area` is a trait, not a type");
}

// ---- properties, over every module the pieces build --------------------------------------------

/// The pieces a module is built from, each declaring its own names.
const PIECES: [&str; 6] = [
    "import io",
    "type UserId = UserId(Int64)",
    "type User = {\n    id: Int64\n}",
    "fn identity<T>(value: T) -> T {\n    value\n}",
    "fn total(counts: List<Int>) -> Int {\n    var sum = 0\n    for count in counts {\n        sum += 1\n    }\n    sum\n}",
    "type Payment =\n    | Pending\n    | Failed(String)\n\nfn describe(payment: Payment) -> String {\n    match payment {\n        Pending => \"waiting\"\n        Failed(reason) => reason\n    }\n}",
];

/// The pieces that refuse however sound the module around them is.
const REFUSALS: [&str; 4] = [
    "fn refused() -> Int {\n    nothing_names_this\n}",
    "fn refused() -> Missing {\n    1\n}",
    "fn refused(seen: Int) -> Int {\n    seen := 1\n    seen\n}",
    "fn Ok() -> Int {\n    1\n}",
];

/// Every module of distinct pieces of `pieces`, in the order they are listed.
fn modules_of(pieces: &[&str]) -> Vec<String> {
    (0..(1u32 << pieces.len()))
        .map(|chosen| {
            pieces
                .iter()
                .enumerate()
                .filter(|(at, _)| chosen & (1 << at) != 0)
                .map(|(_, piece)| *piece)
                .collect::<Vec<_>>()
                .join("\n\n")
        })
        .collect()
}

/// What resolving `source` says, written out so that two runs can be compared.
fn outcome(source: &str) -> String {
    match resolution(source) {
        Ok(resolved) => {
            let mut lines: Vec<String> = resolved
                .resolutions()
                .iter()
                .map(|(namespace, span, definition)| format!("{namespace:?} {span:?} {definition:?}"))
                .collect();
            lines.sort();
            lines.join("\n")
        }
        Err(error) => format!("{:?} {:?}", error.code(), error.span()),
    }
}

#[test]
fn resolving_never_panics_and_is_deterministic() {
    for module in modules_of(&PIECES) {
        for refused in REFUSALS.iter().map(|refused| format!("{module}\n\n{refused}\n")).chain([module.clone()]) {
            assert_eq!(outcome(&refused), outcome(&refused), "{refused:?}");
        }
    }
}

#[test]
fn a_refusal_points_inside_the_source() {
    for module in modules_of(&PIECES) {
        for refused in REFUSALS {
            let source = format!("{module}\n\n{refused}\n");
            let error = resolution(&source).err().unwrap_or_else(|| panic!("{source:?} is refused"));
            let span = error.span();
            assert!(span.start < span.end, "{span:?} is empty");
            assert!(span.end <= source.len(), "{span:?} runs past the input");
        }
    }
}

/// The pieces of the list above that resolve on their own here: every type they write is one
/// this prelude declares, and each declaration stands below what uses it.
const SOUND_PIECES: [&str; 3] = [PIECES[0], PIECES[3], PIECES[4]];

#[test]
fn a_module_of_pieces_that_each_resolve_resolves_whichever_are_chosen() {
    for source in modules_of(&SOUND_PIECES) {
        resolved(&source);
    }
}

/// Every name a module writes as a declaration, with the namespace it declares into.
fn declared_names(program: &Program) -> Vec<(Namespace, &Name)> {
    let mut found = Vec::new();
    for item in &program.items {
        match item {
            Item::Import(import) => found.push((Namespace::Value, &import.module)),
            Item::Function(function) => found.push((Namespace::Value, &function.name)),
            Item::Type(declaration) => found.push((Namespace::Type, &declaration.name)),
            _ => {}
        }
    }
    found
}

#[test]
fn every_name_a_module_declares_is_declared_where_it_is_written() {
    for source in modules_of(&SOUND_PIECES) {
        let resolved = resolved(&source);
        for (namespace, name) in declared_names(resolved.program()) {
            let definition = resolved
                .definition(namespace, name)
                .unwrap_or_else(|| panic!("{} names something", name.text));
            assert_eq!(definition.origin, Origin::Declared(name.span));
            assert_eq!(text(name.span, &source), name.text);
        }
    }
}
