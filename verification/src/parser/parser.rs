//! The parser: a recursive descent over the tokens that fills the AST's arenas.
use crate::diagnostic::{Diagnostic, Span, Stage};
use crate::lexer::lexer::{
    KeyWordType, SimpleToken, SpecToken, SpecTokenKind, Token, TokenKind, TokenVec,
    spec_keyword_name, spec_simple_token_text, spec_token_kind_text,
};
use crate::text::{push_char, push_str};
pub use crate::parser::builder::ASTBuilder;
use crate::parser::builder::{view_exprs, view_stmts};
use vstd::prelude::*;

verus! {

#[derive(Copy, Clone, Debug, PartialEq, Eq, Structural)]
pub enum Operator {
    Equal,
    NotEqual,
    Lesser,
    LesserEqual,
    Greater,
    GreaterEqual,
    Plus,
    Minus,
    Slash,
    Star,
}

pub open spec fn spec_operator_name(o: Operator) -> Seq<char> {
    match o {
        Operator::Equal => "Equal"@,
        Operator::NotEqual => "NotEqual"@,
        Operator::Lesser => "Lesser"@,
        Operator::LesserEqual => "LesserEqual"@,
        Operator::Greater => "Greater"@,
        Operator::GreaterEqual => "GreaterEqual"@,
        Operator::Plus => "Plus"@,
        Operator::Minus => "Minus"@,
        Operator::Slash => "Slash"@,
        Operator::Star => "Star"@,
    }
}

impl Operator {
    /// The variant's name (`Plus`, `LesserEqual`, ...).
    pub fn to_string(&self) -> (s: String)
        ensures
            s@ == spec_operator_name(*self),
    {
        match self {
            Operator::Equal => "Equal".to_owned(),
            Operator::NotEqual => "NotEqual".to_owned(),
            Operator::Lesser => "Lesser".to_owned(),
            Operator::LesserEqual => "LesserEqual".to_owned(),
            Operator::Greater => "Greater".to_owned(),
            Operator::GreaterEqual => "GreaterEqual".to_owned(),
            Operator::Plus => "Plus".to_owned(),
            Operator::Minus => "Minus".to_owned(),
            Operator::Slash => "Slash".to_owned(),
            Operator::Star => "Star".to_owned(),
        }
    }
}

/// The index of an expression in the AST's expression arena.
pub type ExprID = usize;

/// The index of a statement in the AST's statement arena.
pub type StatementID = usize;

#[derive(Copy, Clone, Debug, PartialEq, Eq, Structural)]
pub enum Unary {
    Not(ExprID),
    Minus(ExprID),
}

impl Unary {
    /// The variant's name, `Not` or `Minus`.
    pub fn to_string(&self) -> (s: String)
        ensures
            s@ == match *self {
                Unary::Not(_) => "Not"@,
                Unary::Minus(_) => "Minus"@,
            },
    {
        match self {
            Unary::Not(_) => "Not".to_owned(),
            Unary::Minus(_) => "Minus".to_owned(),
        }
    }
}

/// A literal or a name. A number keeps its source text. `Local` is what the
/// resolver puts in place of a local variable's name: its slot and its scope.
#[derive(Debug, PartialEq)]
pub enum Primary {
    MySelf,
    Number(String),
    String(String),
    Boolean(bool),
    Identifier(String),
    Nil,
    Local((usize, usize)),
}

pub enum SpecPrimary {
    MySelf,
    Number(Seq<char>),
    String(Seq<char>),
    Boolean(bool),
    Identifier(Seq<char>),
    Nil,
    Local((usize, usize)),
}

impl View for Primary {
    type V = SpecPrimary;

    open spec fn view(&self) -> SpecPrimary {
        match self {
            Primary::MySelf => SpecPrimary::MySelf,
            Primary::Number(s) => SpecPrimary::Number(s@),
            Primary::String(s) => SpecPrimary::String(s@),
            Primary::Boolean(b) => SpecPrimary::Boolean(*b),
            Primary::Identifier(s) => SpecPrimary::Identifier(s@),
            Primary::Nil => SpecPrimary::Nil,
            Primary::Local(l) => SpecPrimary::Local(*l),
        }
    }
}

impl Clone for Primary {
    fn clone(&self) -> (r: Self)
        ensures
            r@ == self@,
    {
        match self {
            Primary::MySelf => Primary::MySelf,
            Primary::Number(s) => Primary::Number(s.clone()),
            Primary::String(s) => Primary::String(s.clone()),
            Primary::Boolean(b) => Primary::Boolean(*b),
            Primary::Identifier(s) => Primary::Identifier(s.clone()),
            Primary::Nil => Primary::Nil,
            Primary::Local(l) => Primary::Local(*l),
        }
    }
}

/// How a primary is displayed.
pub open spec fn spec_primary_text(p: SpecPrimary) -> Seq<char> {
    match p {
        SpecPrimary::Number(v) => "Number: "@ + v,
        SpecPrimary::String(v) => "String: "@ + v,
        SpecPrimary::Boolean(v) => "Bool: "@ + if v {
            "true"@
        } else {
            "false"@
        },
        SpecPrimary::Nil => "Nil"@,
        SpecPrimary::Identifier(s) => "Identifier("@ + s + ")"@,
        SpecPrimary::MySelf => "Self"@,
        SpecPrimary::Local(_) => "Local"@,
    }
}

impl Primary {
    pub fn located(self, span: Span) -> (r: LocatedPrimary)
        ensures
            r.inner == self,
            r.span == span,
    {
        LocatedPrimary { inner: self, span }
    }

    /// How the primary is displayed: `Number: 1`, `Identifier(x)`, ...
    pub fn to_string(&self) -> (s: String)
        ensures
            s@ == spec_primary_text(self@),
    {
        let mut s = String::new();
        match self {
            Primary::Number(v) => {
                push_str(&mut s, "Number: ");
                push_str(&mut s, v.as_str());
            },
            Primary::String(v) => {
                push_str(&mut s, "String: ");
                push_str(&mut s, v.as_str());
            },
            Primary::Boolean(v) => {
                push_str(&mut s, "Bool: ");
                if *v {
                    push_str(&mut s, "true");
                } else {
                    push_str(&mut s, "false");
                }
            },
            Primary::Nil => push_str(&mut s, "Nil"),
            Primary::Identifier(v) => {
                push_str(&mut s, "Identifier(");
                push_str(&mut s, v.as_str());
                push_str(&mut s, ")");
            },
            Primary::MySelf => push_str(&mut s, "Self"),
            Primary::Local(_) => push_str(&mut s, "Local"),
        }
        proof {
            assert(s@ =~= spec_primary_text(self@));
        }
        s
    }
}

#[derive(Debug, PartialEq)]
pub struct LocatedPrimary {
    pub inner: Primary,
    pub span: Span,
}

pub struct SpecLocatedPrimary {
    pub inner: SpecPrimary,
    pub span: Span,
}

impl View for LocatedPrimary {
    type V = SpecLocatedPrimary;

    open spec fn view(&self) -> SpecLocatedPrimary {
        SpecLocatedPrimary { inner: self.inner@, span: self.span }
    }
}

impl Clone for LocatedPrimary {
    fn clone(&self) -> (r: Self)
        ensures
            r@ == self@,
    {
        LocatedPrimary { inner: self.inner.clone(), span: self.span }
    }
}

#[derive(Clone, Copy, Debug, PartialEq, Eq, Structural)]
pub struct Binary {
    pub left: ExprID,
    pub operator: Operator,
    pub right: ExprID,
}

#[derive(Clone, Copy, Debug, PartialEq, Eq, Structural)]
pub struct Ternary {
    pub left: ExprID,
    pub middle: ExprID,
    pub right: ExprID,
}

#[derive(Clone, Copy, Debug, PartialEq, Eq, Structural)]
pub struct LogicalAnd {
    pub left: ExprID,
    pub right: ExprID,
}

#[derive(Clone, Copy, Debug, PartialEq, Eq, Structural)]
pub struct LogicalOr {
    pub left: ExprID,
    pub right: ExprID,
}

#[derive(Debug)]
pub struct FunctionCall {
    pub func: ExprID,
    pub arguments: Vec<ExprID>,
}

#[derive(Debug)]
pub enum Expr {
    Terminal(LocatedPrimary),
    Unary(Unary),
    Binary(Binary),
    Ternary(Ternary),
    LogicalAnd(LogicalAnd),
    LogicalOr(LogicalOr),
    Assignment(ExprID, ExprID),
    FunctionCall(FunctionCall),
    Get(ExprID, String),
}

pub enum SpecExpr {
    Terminal(SpecLocatedPrimary),
    Unary(Unary),
    Binary(Binary),
    Ternary(Ternary),
    LogicalAnd(LogicalAnd),
    LogicalOr(LogicalOr),
    Assignment(ExprID, ExprID),
    FunctionCall(ExprID, Seq<ExprID>),
    Get(ExprID, Seq<char>),
}

impl View for Expr {
    type V = SpecExpr;

    open spec fn view(&self) -> SpecExpr {
        match self {
            Expr::Terminal(p) => SpecExpr::Terminal(p@),
            Expr::Unary(u) => SpecExpr::Unary(*u),
            Expr::Binary(b) => SpecExpr::Binary(*b),
            Expr::Ternary(t) => SpecExpr::Ternary(*t),
            Expr::LogicalAnd(a) => SpecExpr::LogicalAnd(*a),
            Expr::LogicalOr(o) => SpecExpr::LogicalOr(*o),
            Expr::Assignment(l, r) => SpecExpr::Assignment(*l, *r),
            Expr::FunctionCall(c) => SpecExpr::FunctionCall(c.func, c.arguments@),
            Expr::Get(e, n) => SpecExpr::Get(*e, n@),
        }
    }
}

impl Clone for Expr {
    fn clone(&self) -> (r: Self)
        ensures
            r@ == self@,
    {
        match self {
            Expr::Terminal(p) => Expr::Terminal(p.clone()),
            Expr::Unary(u) => Expr::Unary(*u),
            Expr::Binary(b) => Expr::Binary(*b),
            Expr::Ternary(t) => Expr::Ternary(*t),
            Expr::LogicalAnd(a) => Expr::LogicalAnd(*a),
            Expr::LogicalOr(o) => Expr::LogicalOr(*o),
            Expr::Assignment(l, r) => Expr::Assignment(*l, *r),
            Expr::FunctionCall(c) => Expr::FunctionCall(
                FunctionCall { func: c.func, arguments: c.arguments.clone() },
            ),
            Expr::Get(e, n) => Expr::Get(*e, n.clone()),
        }
    }
}

#[derive(Debug)]
pub struct FunctionDefinition {
    pub name: String,
    pub arguments: Vec<String>,
    pub statement: Statement,
}

#[derive(Debug)]
pub struct ClassDefinition {
    pub name: String,
    pub fields: Vec<String>,
    pub functions: Vec<FunctionDefinition>,
    pub constructor: FunctionDefinition,
}

#[derive(Debug)]
pub enum Declaration {
    Statement(Statement),
    VarDecl(String, ExprID),
    FunctionDefinition(FunctionDefinition),
    ClassDefinition(ClassDefinition),
    Comment(String),
    Empty,
}

#[derive(Debug)]
pub enum Statement {
    ExprStatement(ExprID),
    PrintStatement(Vec<ExprID>),
    Block(Vec<Declaration>),
    IfStatement(Vec<(ExprID, Statement)>, Option<StatementID>),
    Whileloop(ExprID, StatementID),
    Break(Token),
    Continue(Token),
    Return(Option<ExprID>),
}

pub struct SpecFunctionDefinition {
    pub name: Seq<char>,
    pub arguments: Seq<Seq<char>>,
    pub statement: SpecStatement,
}

pub struct SpecClassDefinition {
    pub name: Seq<char>,
    pub fields: Seq<Seq<char>>,
    pub functions: Seq<SpecFunctionDefinition>,
    pub constructor: SpecFunctionDefinition,
}

pub enum SpecDeclaration {
    Statement(SpecStatement),
    VarDecl(Seq<char>, ExprID),
    FunctionDefinition(SpecFunctionDefinition),
    ClassDefinition(SpecClassDefinition),
    Comment(Seq<char>),
    Empty,
}

pub enum SpecStatement {
    ExprStatement(ExprID),
    PrintStatement(Seq<ExprID>),
    Block(Seq<SpecDeclaration>),
    IfStatement(Seq<(ExprID, SpecStatement)>, Option<StatementID>),
    Whileloop(ExprID, StatementID),
    Break(SpecToken),
    Continue(SpecToken),
    Return(Option<ExprID>),
}

pub open spec fn view_strings(v: Seq<String>) -> Seq<Seq<char>> {
    v.map_values(|s: String| s@)
}

pub open spec fn view_statement(s: Statement) -> SpecStatement
    decreases s,
{
    match s {
        Statement::ExprStatement(e) => SpecStatement::ExprStatement(e),
        Statement::PrintStatement(v) => SpecStatement::PrintStatement(v@),
        Statement::Block(v) => SpecStatement::Block(
            Seq::new(
                v@.len(),
                |i: int|
                    if 0 <= i < v@.len() {
                        view_declaration(v@[i])
                    } else {
                        SpecDeclaration::Empty
                    },
            ),
        ),
        Statement::IfStatement(v, e) => SpecStatement::IfStatement(
            Seq::new(
                v@.len(),
                |i: int|
                    if 0 <= i < v@.len() {
                        (v@[i].0, view_statement(v@[i].1))
                    } else {
                        (0, SpecStatement::Return(None))
                    },
            ),
            e,
        ),
        Statement::Whileloop(c, b) => SpecStatement::Whileloop(c, b),
        Statement::Break(t) => SpecStatement::Break(t@),
        Statement::Continue(t) => SpecStatement::Continue(t@),
        Statement::Return(e) => SpecStatement::Return(e),
    }
}

pub open spec fn view_function(f: FunctionDefinition) -> SpecFunctionDefinition
    decreases f,
{
    SpecFunctionDefinition {
        name: f.name@,
        arguments: view_strings(f.arguments@),
        statement: view_statement(f.statement),
    }
}

pub open spec fn view_declaration(d: Declaration) -> SpecDeclaration
    decreases d,
{
    match d {
        Declaration::Statement(s) => SpecDeclaration::Statement(view_statement(s)),
        Declaration::VarDecl(n, e) => SpecDeclaration::VarDecl(n@, e),
        Declaration::FunctionDefinition(f) => SpecDeclaration::FunctionDefinition(
            view_function(f),
        ),
        Declaration::ClassDefinition(c) => SpecDeclaration::ClassDefinition(
            SpecClassDefinition {
                name: c.name@,
                fields: view_strings(c.fields@),
                functions: Seq::new(
                    c.functions@.len(),
                    |i: int|
                        if 0 <= i < c.functions@.len() {
                            view_function(c.functions@[i])
                        } else {
                            view_function(c.constructor)
                        },
                ),
                constructor: view_function(c.constructor),
            },
        ),
        Declaration::Comment(s) => SpecDeclaration::Comment(s@),
        Declaration::Empty => SpecDeclaration::Empty,
    }
}

/// The expression `e` refers only to expressions before index `n`, and is no
/// ternary (the grammar has none).
pub open spec fn expr_below(e: SpecExpr, n: int) -> bool {
    match e {
        SpecExpr::Terminal(_) => true,
        SpecExpr::Unary(Unary::Not(a)) => a < n,
        SpecExpr::Unary(Unary::Minus(a)) => a < n,
        SpecExpr::Binary(b) => b.left < n && b.right < n,
        SpecExpr::Ternary(_) => false,
        SpecExpr::LogicalAnd(x) => x.left < n && x.right < n,
        SpecExpr::LogicalOr(x) => x.left < n && x.right < n,
        SpecExpr::Assignment(a, b) => a < n && b < n,
        SpecExpr::FunctionCall(f, args) => f < n && forall|k: int|
            0 <= k < args.len() ==> #[trigger] args[k] < n,
        SpecExpr::Get(a, _) => a < n,
    }
}

/// Each expression of the arena refers only to expressions before it.
pub open spec fn exprs_ordered(exprs: Seq<SpecExpr>) -> bool {
    forall|i: int| 0 <= i < exprs.len() ==> #[trigger] expr_below(exprs[i], i)
}

/// The statement `s` names the expression `x` (`to_stmt` false) or the
/// statement `x` of the arena (`to_stmt` true), itself or in a part of it.
pub open spec fn stmt_refers(s: SpecStatement, x: int, to_stmt: bool) -> bool
    decreases s,
{
    match s {
        SpecStatement::ExprStatement(e) => !to_stmt && x == e,
        SpecStatement::PrintStatement(v) => !to_stmt && exists|k: int| 0 <= k < v.len() && v[k] == x,
        SpecStatement::Block(ds) => exists|k: int|
            0 <= k < ds.len() && decl_refers(ds[k], x, to_stmt),
        SpecStatement::IfStatement(bs, other) => {
            ||| exists|k: int|
                0 <= k < bs.len() && ((!to_stmt && x == bs[k].0) || stmt_refers(
                    bs[k].1,
                    x,
                    to_stmt,
                ))
            ||| match other {
                Some(id) => to_stmt && x == id,
                None => false,
            }
        },
        SpecStatement::Whileloop(c, b) => if to_stmt {
            x == b
        } else {
            x == c
        },
        SpecStatement::Break(_) => false,
        SpecStatement::Continue(_) => false,
        SpecStatement::Return(e) => match e {
            Some(id) => !to_stmt && x == id,
            None => false,
        },
    }
}

pub open spec fn decl_refers(d: SpecDeclaration, x: int, to_stmt: bool) -> bool
    decreases d,
{
    match d {
        SpecDeclaration::Statement(s) => stmt_refers(s, x, to_stmt),
        SpecDeclaration::VarDecl(_, e) => !to_stmt && x == e,
        SpecDeclaration::FunctionDefinition(f) => stmt_refers(f.statement, x, to_stmt),
        SpecDeclaration::ClassDefinition(c) => {
            ||| exists|k: int|
                0 <= k < c.functions.len() && stmt_refers(
                    c.functions[k].statement,
                    x,
                    to_stmt,
                )
            ||| stmt_refers(c.constructor.statement, x, to_stmt)
        },
        SpecDeclaration::Comment(_) => false,
        SpecDeclaration::Empty => false,
    }
}

/// Every expression the statement names is below `ne`, every statement of the
/// arena below `ns`.
#[verifier::opaque]
pub open spec fn stmt_within(s: SpecStatement, ne: int, ns: int) -> bool {
    &&& forall|x: int| #[trigger] stmt_refers(s, x, false) ==> x < ne
    &&& forall|x: int| #[trigger] stmt_refers(s, x, true) ==> x < ns
}

#[verifier::opaque]
pub open spec fn decl_within(d: SpecDeclaration, ne: int, ns: int) -> bool {
    &&& forall|x: int| #[trigger] decl_refers(d, x, false) ==> x < ne
    &&& forall|x: int| #[trigger] decl_refers(d, x, true) ==> x < ns
}

/// The arenas hold no dangling index and no cycle: expressions refer to
/// earlier expressions, statements to existing expressions and to earlier
/// statements.
#[verifier::opaque]
pub open spec fn arenas_ordered(exprs: Seq<SpecExpr>, stmts: Seq<SpecStatement>) -> bool {
    &&& exprs_ordered(exprs)
    &&& forall|j: int| 0 <= j < stmts.len() ==> #[trigger] stmt_within(stmts[j], exprs.len() as int, j)
}

impl View for Statement {
    type V = SpecStatement;

    open spec fn view(&self) -> SpecStatement {
        view_statement(*self)
    }
}

impl View for Declaration {
    type V = SpecDeclaration;

    open spec fn view(&self) -> SpecDeclaration {
        view_declaration(*self)
    }
}

impl View for FunctionDefinition {
    type V = SpecFunctionDefinition;

    open spec fn view(&self) -> SpecFunctionDefinition {
        view_function(*self)
    }
}

} // verus!

verus! {

/// The parsed program: the expressions and the statements that other nodes
/// refer to by index, and the top-level declarations.
#[derive(Debug, Default)]
pub struct AST {
    pub _tokens: TokenVec,
    pub expr_arena: Vec<Expr>,
    pub statement_arena: Vec<Statement>,
    pub roots: Vec<Declaration>,
}

/// The AST holds no dangling index and no cycle: its arenas are ordered, and
/// its top-level declarations name only nodes that exist.
pub open spec fn ast_ordered(ast: AST) -> bool {
    let ne = ast.expr_arena@.len() as int;
    let ns = ast.statement_arena@.len() as int;
    &&& arenas_ordered(view_exprs(ast.expr_arena@), view_stmts(ast.statement_arena@))
    &&& forall|k: int|
        #![trigger ast.roots@[k]]
        0 <= k < ast.roots@.len() ==> decl_within(ast.roots@[k]@, ne, ns)
}

impl AST {
    pub fn new(tokens: TokenVec) -> (r: Self)
        ensures
            r._tokens == tokens,
            r.expr_arena@.len() == 0,
            r.statement_arena@.len() == 0,
            r.roots@.len() == 0,
    {
        AST {
            _tokens: tokens,
            expr_arena: Vec::with_capacity(4096),
            statement_arena: Vec::with_capacity(4096),
            roots: Vec::new(),
        }
    }
}

#[derive(Debug)]
pub enum ASTError {
    Eof,
    NoConstructor(String),
    TooManyArguments,
    TokenError(Token, Vec<SimpleToken>),
    ExpectedExpression(Token),
    ExpectedIdentifier(Token),
    BinaryNoLeft(Token),
    RValueAssignment(ExprID),
}

pub enum SpecASTError {
    Eof,
    NoConstructor(Seq<char>),
    TooManyArguments,
    TokenError(SpecToken, Seq<SimpleToken>),
    ExpectedExpression(SpecToken),
    ExpectedIdentifier(SpecToken),
    BinaryNoLeft(SpecToken),
    RValueAssignment(ExprID),
}

impl View for ASTError {
    type V = SpecASTError;

    open spec fn view(&self) -> SpecASTError {
        match self {
            ASTError::Eof => SpecASTError::Eof,
            ASTError::NoConstructor(n) => SpecASTError::NoConstructor(n@),
            ASTError::TooManyArguments => SpecASTError::TooManyArguments,
            ASTError::TokenError(t, e) => SpecASTError::TokenError(t@, e@),
            ASTError::ExpectedExpression(t) => SpecASTError::ExpectedExpression(t@),
            ASTError::ExpectedIdentifier(t) => SpecASTError::ExpectedIdentifier(t@),
            ASTError::BinaryNoLeft(t) => SpecASTError::BinaryNoLeft(t@),
            ASTError::RValueAssignment(e) => SpecASTError::RValueAssignment(*e),
        }
    }
}

impl Clone for ASTError {
    fn clone(&self) -> (r: Self)
        ensures
            r@ == self@,
    {
        match self {
            ASTError::Eof => ASTError::Eof,
            ASTError::NoConstructor(n) => ASTError::NoConstructor(n.clone()),
            ASTError::TooManyArguments => ASTError::TooManyArguments,
            ASTError::TokenError(t, e) => ASTError::TokenError(t.clone(), e.clone()),
            ASTError::ExpectedExpression(t) => ASTError::ExpectedExpression(t.clone()),
            ASTError::ExpectedIdentifier(t) => ASTError::ExpectedIdentifier(t.clone()),
            ASTError::BinaryNoLeft(t) => ASTError::BinaryNoLeft(t.clone()),
            ASTError::RValueAssignment(e) => ASTError::RValueAssignment(*e),
        }
    }
}

/// How a simple token is shown in a debug listing: its variant, with a
/// keyword's variant in parentheses.
pub open spec fn spec_simple_token_debug(t: SimpleToken) -> Seq<char> {
    match t {
        SimpleToken::LeftParen => "LeftParen"@,
        SimpleToken::RightParen => "RightParen"@,
        SimpleToken::LeftBrace => "LeftBrace"@,
        SimpleToken::RightBrace => "RightBrace"@,
        SimpleToken::LeftBracket => "LeftBracket"@,
        SimpleToken::RightBracket => "RightBracket"@,
        SimpleToken::Comma => "Comma"@,
        SimpleToken::Dot => "Dot"@,
        SimpleToken::Minus => "Minus"@,
        SimpleToken::Plus => "Plus"@,
        SimpleToken::Colon => "Colon"@,
        SimpleToken::SemiColon => "SemiColon"@,
        SimpleToken::Question => "Question"@,
        SimpleToken::Slash => "Slash"@,
        SimpleToken::Star => "Star"@,
        SimpleToken::Equal => "Equal"@,
        SimpleToken::EqualEqual => "EqualEqual"@,
        SimpleToken::Bang => "Bang"@,
        SimpleToken::BangEqual => "BangEqual"@,
        SimpleToken::Greater => "Greater"@,
        SimpleToken::GreaterEqual => "GreaterEqual"@,
        SimpleToken::Less => "Less"@,
        SimpleToken::LessEqual => "LessEqual"@,
        SimpleToken::KeyWord(k) => "KeyWord("@ + spec_keyword_name(k) + ")"@,
        SimpleToken::And => "And"@,
        SimpleToken::Or => "Or"@,
    }
}

fn simple_token_debug(t: SimpleToken) -> (s: String)
    ensures
        s@ == spec_simple_token_debug(t),
{
    match t {
        SimpleToken::LeftParen => "LeftParen".to_owned(),
        SimpleToken::RightParen => "RightParen".to_owned(),
        SimpleToken::LeftBrace => "LeftBrace".to_owned(),
        SimpleToken::RightBrace => "RightBrace".to_owned(),
        SimpleToken::LeftBracket => "LeftBracket".to_owned(),
        SimpleToken::RightBracket => "RightBracket".to_owned(),
        SimpleToken::Comma => "Comma".to_owned(),
        SimpleToken::Dot => "Dot".to_owned(),
        SimpleToken::Minus => "Minus".to_owned(),
        SimpleToken::Plus => "Plus".to_owned(),
        SimpleToken::Colon => "Colon".to_owned(),
        SimpleToken::SemiColon => "SemiColon".to_owned(),
        SimpleToken::Question => "Question".to_owned(),
        SimpleToken::Slash => "Slash".to_owned(),
        SimpleToken::Star => "Star".to_owned(),
        SimpleToken::Equal => "Equal".to_owned(),
        SimpleToken::EqualEqual => "EqualEqual".to_owned(),
        SimpleToken::Bang => "Bang".to_owned(),
        SimpleToken::BangEqual => "BangEqual".to_owned(),
        SimpleToken::Greater => "Greater".to_owned(),
        SimpleToken::GreaterEqual => "GreaterEqual".to_owned(),
        SimpleToken::Less => "Less".to_owned(),
        SimpleToken::LessEqual => "LessEqual".to_owned(),
        SimpleToken::KeyWord(k) => {
            let mut s = String::new();
            push_str(&mut s, "KeyWord(");
            let name = k.to_string();
            push_str(&mut s, name.as_str());
            push_str(&mut s, ")");
            proof {
                assert(s@ =~= spec_simple_token_debug(t));
            }
            s
        },
        SimpleToken::And => "And".to_owned(),
        SimpleToken::Or => "Or".to_owned(),
    }
}

/// A list of simple tokens as `{:?}` shows it: `[SemiColon, KeyWord(Fun)]`.
pub open spec fn spec_debug_list(v: Seq<SimpleToken>) -> Seq<char> {
    "["@ + spec_debug_items(v) + "]"@
}

pub open spec fn spec_debug_items(v: Seq<SimpleToken>) -> Seq<char>
    decreases v.len(),
{
    if v.len() == 0 {
        Seq::empty()
    } else if v.len() == 1 {
        spec_simple_token_debug(v[0])
    } else {
        spec_debug_items(v.drop_last()) + ", "@ + spec_simple_token_debug(v.last())
    }
}

fn debug_list(v: &Vec<SimpleToken>) -> (s: String)
    ensures
        s@ == spec_debug_list(v@),
{
    let mut s = String::new();
    push_str(&mut s, "[");
    let mut i: usize = 0;
    while i < v.len()
        invariant
            i <= v@.len(),
            s@ == "["@ + spec_debug_items(v@.take(i as int)),
        decreases v@.len() - i,
    {
        if i > 0 {
            push_str(&mut s, ", ");
        }
        let d = simple_token_debug(v[i]);
        push_str(&mut s, d.as_str());
        proof {
            assert(v@.take(i + 1).drop_last() =~= v@.take(i as int));
            if i == 0 {
                assert(spec_debug_items(v@.take(0)) =~= Seq::<char>::empty());
            }
        }
        i = i + 1;
    }
    push_str(&mut s, "]");
    proof {
        assert(v@.take(v@.len() as int) =~= v@);
    }
    s
}

pub open spec fn spec_ast_error_message(e: SpecASTError) -> Seq<char> {
    match e {
        SpecASTError::Eof => "Unexpected End Of File"@,
        SpecASTError::TokenError(t, expected) => "Unexpected token \""@ + spec_token_kind_text(
            t.kind,
        ) + "\", expected "@ + spec_debug_list(expected),
        SpecASTError::ExpectedExpression(t) => "Unexpected token \""@ + spec_token_kind_text(t.kind)
            + "\", expected an expression (a number, string, identifier, `(...)`, `self`, `true`, `false`, or `nil`)"@,
        SpecASTError::ExpectedIdentifier(t) => "Unexpected token \""@ + spec_token_kind_text(t.kind)
            + "\", expected an identifier"@,
        SpecASTError::BinaryNoLeft(t) => "Unexpected token \""@ + spec_token_kind_text(t.kind)
            + "\", this token should have a left and right side"@,
        SpecASTError::RValueAssignment(_) => "Unexpected token, assignment should have a lvalue"@,
        SpecASTError::TooManyArguments => "Too many arguments for function call, maximum is 255"@,
        SpecASTError::NoConstructor(name) => "Class "@ + name + " has no constructor"@,
    }
}

pub open spec fn spec_ast_error_span(e: SpecASTError) -> Option<Span> {
    match e {
        SpecASTError::TokenError(t, _) => Some(t.span),
        SpecASTError::ExpectedExpression(t) => Some(t.span),
        SpecASTError::ExpectedIdentifier(t) => Some(t.span),
        SpecASTError::BinaryNoLeft(t) => Some(t.span),
        _ => None,
    }
}

impl Diagnostic for ASTError {
    open spec fn spec_stage(&self) -> Stage {
        Stage::Parsing
    }

    open spec fn spec_span(&self) -> Option<Span> {
        spec_ast_error_span(self@)
    }

    open spec fn spec_message(&self) -> Seq<char> {
        spec_ast_error_message(self@)
    }

    fn stage(&self) -> (s: Stage) {
        Stage::Parsing
    }

    fn span(&self) -> (s: Option<Span>) {
        match self {
            ASTError::TokenError(t, _) => Some(t.span),
            ASTError::ExpectedExpression(t) => Some(t.span),
            ASTError::ExpectedIdentifier(t) => Some(t.span),
            ASTError::BinaryNoLeft(t) => Some(t.span),
            ASTError::Eof => None,
            ASTError::NoConstructor(_) => None,
            ASTError::TooManyArguments => None,
            ASTError::RValueAssignment(_) => None,
        }
    }

    fn message(&self) -> (m: String) {
        let mut s = String::new();
        match self {
            ASTError::Eof => push_str(&mut s, "Unexpected End Of File"),
            ASTError::TokenError(t, expected) => {
                push_str(&mut s, "Unexpected token \"");
                let text = t.kind.to_string();
                push_str(&mut s, text.as_str());
                push_str(&mut s, "\", expected ");
                let list = debug_list(expected);
                push_str(&mut s, list.as_str());
            },
            ASTError::ExpectedExpression(t) => {
                push_str(&mut s, "Unexpected token \"");
                let text = t.kind.to_string();
                push_str(&mut s, text.as_str());
                push_str(
                    &mut s,
                    "\", expected an expression (a number, string, identifier, `(...)`, `self`, `true`, `false`, or `nil`)",
                );
            },
            ASTError::ExpectedIdentifier(t) => {
                push_str(&mut s, "Unexpected token \"");
                let text = t.kind.to_string();
                push_str(&mut s, text.as_str());
                push_str(&mut s, "\", expected an identifier");
            },
            ASTError::BinaryNoLeft(t) => {
                push_str(&mut s, "Unexpected token \"");
                let text = t.kind.to_string();
                push_str(&mut s, text.as_str());
                push_str(&mut s, "\", this token should have a left and right side");
            },
            ASTError::RValueAssignment(_) => push_str(
                &mut s,
                "Unexpected token, assignment should have a lvalue",
            ),
            ASTError::TooManyArguments => push_str(
                &mut s,
                "Too many arguments for function call, maximum is 255",
            ),
            ASTError::NoConstructor(name) => {
                push_str(&mut s, "Class ");
                push_str(&mut s, name.as_str());
                push_str(&mut s, " has no constructor");
            },
        }
        proof {
            assert(s@ =~= spec_ast_error_message(self@));
        }
        s
    }
}

} // verus!

