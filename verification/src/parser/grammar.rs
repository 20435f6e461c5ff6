//! The grammar that `ASTBuilder` parses, stated over the tokens' views: each
//! rule takes the parser's state (its position in the tokens and the arenas
//! built so far) and gives what it returns and the state after it.
//!
//! ```text
//! declaration → ";"* ( comment | vardecl ";" | fn_def | class_def | statement )
//! statement   → print ";" | block | "if" ifstmt | "while" whilestmt
//!             | "break" ";" | "continue" ";" | "return" expression? ";" | expression ";"
//! expression  → assignment          (a leading binary operator is an error)
//! assignment  → logical_and ( "=" expression )?
//! logical_and → logical_or ( "&" logical_and )*
//! logical_or  → equality ( "|" logical_or )*
//! equality    → comparison ( ( "==" | "!=" ) comparison )*
//! comparison  → term ( ( ">" | ">=" | "<" | "<=" ) term )*
//! term        → factor ( ( "+" | "-" ) factor )*
//! factor      → unary ( ( "*" | "/" ) unary )*
//! unary       → ( "!" | "-" ) unary | call
//! call        → primary ( "(" arguments? ")" | "." IDENTIFIER )*
//! primary     → "(" expression ")" | NUMBER | STRING | IDENTIFIER | "self" | "true" | "false" | "nil"
//! ```
use crate::diagnostic::Span;
use crate::lexer::lexer::{KeyWordType, SimpleToken, SpecToken, SpecTokenKind, spec_simple_token_text};
use crate::parser::format::operator_text;
use crate::parser::parser::{
    Binary, ExprID, LogicalAnd, LogicalOr, Operator, SpecASTError, SpecClassDefinition,
    SpecDeclaration, SpecExpr, SpecFunctionDefinition, SpecLocatedPrimary, SpecPrimary,
    SpecStatement, StatementID, Unary,
};
use vstd::prelude::*;

verus! {

/// The parser's state: its position in the tokens, and the arenas.
pub struct PState {
    pub pos: int,
    pub exprs: Seq<SpecExpr>,
    pub stmts: Seq<SpecStatement>,
}

/// What a rule gives: a value, an error, or a panic of the parser (it reads
/// the token at the end of the input in three places). `Stuck` marks a rule
/// that would make no progress where the grammar needs it; the parser's
/// contracts show that no rule ever gives it.
pub enum Outcome<T> {
    Value(T),
    Failed(SpecASTError),
    Panic,
    Stuck,
}

pub struct Step<T> {
    pub out: Outcome<T>,
    pub st: PState,
}

pub open spec fn ok<T>(v: T, st: PState) -> Step<T> {
    Step { out: Outcome::Value(v), st }
}

pub open spec fn fail<T>(e: SpecASTError, st: PState) -> Step<T> {
    Step { out: Outcome::Failed(e), st }
}

/// A step that ended without a value, passed on with another value type.
pub open spec fn pass<T, U>(s: Step<T>) -> Step<U> {
    Step {
        out: match s.out {
            Outcome::Failed(e) => Outcome::Failed(e),
            Outcome::Panic => Outcome::Panic,
            _ => Outcome::Stuck,
        },
        st: s.st,
    }
}

pub open spec fn panic<T>(st: PState) -> Step<T> {
    Step { out: Outcome::Panic, st }
}

pub open spec fn stuck<T>(st: PState) -> Step<T> {
    Step { out: Outcome::Stuck, st }
}

pub open spec fn at_end(ts: Seq<SpecToken>, st: PState) -> bool {
    st.pos >= ts.len()
}

/// The next token is the simple token `t`.
pub open spec fn is_single(ts: Seq<SpecToken>, st: PState, t: SimpleToken) -> bool {
    0 <= st.pos < ts.len() && ts[st.pos].kind == SpecTokenKind::Single(t)
}

pub open spec fn bump(st: PState) -> PState {
    PState { pos: st.pos + 1, ..st }
}

/// `st1` is a state reached from `st` without going back, inside the tokens.
pub open spec fn forward(ts: Seq<SpecToken>, st: PState, st1: PState) -> bool {
    st.pos <= st1.pos <= ts.len()
}

/// `st1` is a state reached from `st` past at least one token, inside the tokens.
pub open spec fn beyond(ts: Seq<SpecToken>, st: PState, st1: PState) -> bool {
    st.pos < st1.pos <= ts.len()
}

/// Takes the next token.
pub open spec fn sp_advance(ts: Seq<SpecToken>, st: PState) -> Step<SpecTokenKind> {
    if at_end(ts, st) || st.pos < 0 {
        fail(SpecASTError::Eof, st)
    } else {
        ok(ts[st.pos].kind, bump(st))
    }
}

/// Takes the next token, which must be `t`.
pub open spec fn sp_consume(ts: Seq<SpecToken>, st: PState, t: SimpleToken) -> Step<
    SpecTokenKind,
> {
    if is_single(ts, st, t) {
        ok(SpecTokenKind::Single(t), bump(st))
    } else if at_end(ts, st) || st.pos < 0 {
        fail(SpecASTError::Eof, st)
    } else {
        fail(SpecASTError::TokenError(ts[st.pos], seq![t]), st)
    }
}

/// Takes the next token if it is one of `list`, trying them in order.
pub open spec fn sp_match(ts: Seq<SpecToken>, st: PState, list: Seq<SimpleToken>) -> (Option<
    SimpleToken,
>, PState)
    decreases list.len(),
{
    if list.len() == 0 {
        (None, st)
    } else if is_single(ts, st, list[0]) {
        (Some(list[0]), bump(st))
    } else {
        sp_match(ts, st, list.drop_first())
    }
}

/// Appends an expression to the arena; its id is its index.
pub open spec fn emit(st: PState, e: SpecExpr) -> (ExprID, PState) {
    (st.exprs.len() as ExprID, PState { exprs: st.exprs.push(e), ..st })
}

/// Appends a statement to the arena; its id is its index.
pub open spec fn emit_statement(st: PState, s: SpecStatement) -> (StatementID, PState) {
    (st.stmts.len() as StatementID, PState { stmts: st.stmts.push(s), ..st })
}

/// Appends a literal, located at the token just taken.
pub open spec fn emit_primary(ts: Seq<SpecToken>, st: PState, p: SpecPrimary) -> (ExprID, PState) {
    emit(st, SpecExpr::Terminal(SpecLocatedPrimary { inner: p, span: ts[st.pos - 1].span }))
}

pub open spec fn keyword(k: KeyWordType) -> SpecTokenKind {
    SpecTokenKind::Single(SimpleToken::KeyWord(k))
}

} // verus!

verus! {

/// primary → "(" expression ")" | NUMBER | STRING | IDENTIFIER | "self" | "true" | "false" | "nil"
pub open spec fn sp_primary(ts: Seq<SpecToken>, st: PState) -> Step<ExprID>
    decreases ts.len() - st.pos, 30int,
{
    if is_single(ts, st, SimpleToken::LeftParen) {
        let r = sp_expression(ts, bump(st));
        match r.out {
            Outcome::Value(e) => {
                let c = sp_consume(ts, r.st, SimpleToken::RightParen);
                match c.out {
                    Outcome::Value(_) => ok(e, c.st),
                    _ => pass(c),
                }
            },
            _ => pass(r),
        }
    } else {
        let a = sp_advance(ts, st);
        match a.out {
            Outcome::Value(kind) => {
                let st1 = a.st;
                let unexpected = fail(SpecASTError::ExpectedExpression(ts[st.pos]), st1);
                match kind {
                    SpecTokenKind::Single(SimpleToken::KeyWord(KeyWordType::MySelf)) => {
                        let (id, st2) = emit_primary(ts, st1, SpecPrimary::MySelf);
                        ok(id, st2)
                    },
                    SpecTokenKind::Single(SimpleToken::KeyWord(KeyWordType::False)) => {
                        let (id, st2) = emit_primary(ts, st1, SpecPrimary::Boolean(false));
                        ok(id, st2)
                    },
                    SpecTokenKind::Single(SimpleToken::KeyWord(KeyWordType::True)) => {
                        let (id, st2) = emit_primary(ts, st1, SpecPrimary::Boolean(true));
                        ok(id, st2)
                    },
                    SpecTokenKind::Single(SimpleToken::KeyWord(KeyWordType::Nil)) => {
                        let (id, st2) = emit_primary(ts, st1, SpecPrimary::Nil);
                        ok(id, st2)
                    },
                    SpecTokenKind::Single(_) => unexpected,
                    SpecTokenKind::Identifier(s) => {
                        let (id, st2) = emit_primary(ts, st1, SpecPrimary::Identifier(s));
                        ok(id, st2)
                    },
                    SpecTokenKind::StringLitteral(s) => {
                        let (id, st2) = emit_primary(ts, st1, SpecPrimary::String(s));
                        ok(id, st2)
                    },
                    SpecTokenKind::Number(n) => {
                        let (id, st2) = emit_primary(ts, st1, SpecPrimary::Number(n));
                        ok(id, st2)
                    },
                    SpecTokenKind::Comment(_) => unexpected,
                }
            },
            _ => pass(a),
        }
    }
}

/// A primary that must be a name: the name.
pub open spec fn sp_identifier(ts: Seq<SpecToken>, st: PState) -> Step<Seq<char>>
    decreases ts.len() - st.pos, 32int,
{
    let r = sp_primary(ts, st);
    match r.out {
        Outcome::Value(id) => {
            let not_a_name = fail(SpecASTError::ExpectedIdentifier(ts[r.st.pos - 1]), r.st);
            match r.st.exprs[id as int] {
                SpecExpr::Terminal(lp) => match lp.inner {
                    SpecPrimary::Identifier(s) => ok(s, r.st),
                    _ => not_a_name,
                },
                _ => not_a_name,
            }
        },
        _ => pass(r),
    }
}

/// The arguments of a call after its `(`: expressions separated by commas, up
/// to `)`. A `)` right after a comma, or right after the `(`, ends the call
/// with no arguments at all. A call takes at most 255 arguments: the 256th is
/// an error.
pub open spec fn sp_call_args(ts: Seq<SpecToken>, st: PState, func: ExprID, args: Seq<ExprID>) -> Step<
    ExprID,
>
    decreases ts.len() - st.pos, 110int,
{
    if is_single(ts, st, SimpleToken::RightParen) {
        let (id, st1) = emit(bump(st), SpecExpr::FunctionCall(func, Seq::empty()));
        ok(id, st1)
    } else {
        let r = sp_expression(ts, st);
        match r.out {
            Outcome::Value(e) => {
                let args = args.push(e);
                if args.len() > 255 {
                    fail(SpecASTError::TooManyArguments, r.st)
                } else if is_single(ts, r.st, SimpleToken::RightParen) {
                    let (id, st1) = emit(bump(r.st), SpecExpr::FunctionCall(func, args));
                    ok(id, st1)
                } else {
                    let c = sp_consume(ts, r.st, SimpleToken::Comma);
                    match c.out {
                        Outcome::Value(_) => if beyond(ts, st, c.st) {
                            sp_call_args(ts, c.st, func, args)
                        } else {
                            stuck(c.st)
                        },
                        _ => pass(c),
                    }
                }
            },
            _ => pass(r),
        }
    }
}

/// What may follow a callee: calls and field accesses, in a row.
pub open spec fn sp_call_rest(ts: Seq<SpecToken>, st: PState, left: ExprID) -> Step<ExprID>
    decreases ts.len() - st.pos, 40int,
{
    if is_single(ts, st, SimpleToken::LeftParen) {
        let r = sp_call_args(ts, bump(st), left, Seq::empty());
        match r.out {
            Outcome::Value(call) => if beyond(ts, st, r.st) {
                sp_call_rest(ts, r.st, call)
            } else {
                stuck(r.st)
            },
            _ => pass(r),
        }
    } else if is_single(ts, st, SimpleToken::Dot) {
        let r = sp_identifier(ts, bump(st));
        match r.out {
            Outcome::Value(name) => {
                let (get, st1) = emit(r.st, SpecExpr::Get(left, name));
                if beyond(ts, st, st1) {
                    sp_call_rest(ts, st1, get)
                } else {
                    stuck(st1)
                }
            },
            _ => pass(r),
        }
    } else {
        ok(left, st)
    }
}

/// call → primary ( "(" arguments? ")" | "." IDENTIFIER )*
pub open spec fn sp_function_call(ts: Seq<SpecToken>, st: PState) -> Step<ExprID>
    decreases ts.len() - st.pos, 41int,
{
    let r = sp_primary(ts, st);
    match r.out {
        Outcome::Value(left) => if forward(ts, st, r.st) {
            sp_call_rest(ts, r.st, left)
        } else {
            stuck(r.st)
        },
        _ => pass(r),
    }
}

/// unary → ( "!" | "-" ) unary | call
pub open spec fn sp_unary(ts: Seq<SpecToken>, st: PState) -> Step<ExprID>
    decreases ts.len() - st.pos, 42int,
{
    if is_single(ts, st, SimpleToken::Bang) || is_single(ts, st, SimpleToken::Minus) {
        let not = is_single(ts, st, SimpleToken::Bang);
        let r = sp_unary(ts, bump(st));
        match r.out {
            Outcome::Value(e) => {
                let (id, st1) = emit(
                    r.st,
                    SpecExpr::Unary(
                        if not {
                            Unary::Not(e)
                        } else {
                            Unary::Minus(e)
                        },
                    ),
                );
                ok(id, st1)
            },
            _ => pass(r),
        }
    } else {
        sp_function_call(ts, st)
    }
}

/// The operator of `factor` that comes next, if one does.
pub open spec fn factor_operator(ts: Seq<SpecToken>, st: PState) -> Option<Operator> {
    if is_single(ts, st, SimpleToken::Star) {
        Some(Operator::Star)
    } else if is_single(ts, st, SimpleToken::Slash) {
        Some(Operator::Slash)
    } else {
        None
    }
}

pub open spec fn term_operator(ts: Seq<SpecToken>, st: PState) -> Option<Operator> {
    if is_single(ts, st, SimpleToken::Plus) {
        Some(Operator::Plus)
    } else if is_single(ts, st, SimpleToken::Minus) {
        Some(Operator::Minus)
    } else {
        None
    }
}

pub open spec fn comparison_operator(ts: Seq<SpecToken>, st: PState) -> Option<Operator> {
    if is_single(ts, st, SimpleToken::Greater) {
        Some(Operator::Greater)
    } else if is_single(ts, st, SimpleToken::GreaterEqual) {
        Some(Operator::GreaterEqual)
    } else if is_single(ts, st, SimpleToken::Less) {
        Some(Operator::Lesser)
    } else if is_single(ts, st, SimpleToken::LessEqual) {
        Some(Operator::LesserEqual)
    } else {
        None
    }
}

pub open spec fn equality_operator(ts: Seq<SpecToken>, st: PState) -> Option<Operator> {
    if is_single(ts, st, SimpleToken::EqualEqual) {
        Some(Operator::Equal)
    } else if is_single(ts, st, SimpleToken::BangEqual) {
        Some(Operator::NotEqual)
    } else {
        None
    }
}

/// The text of the simple token at the parser's position (empty where there is
/// none).
pub open spec fn token_text(ts: Seq<SpecToken>, st: PState) -> Seq<char> {
    if 0 <= st.pos < ts.len() {
        match ts[st.pos].kind {
            SpecTokenKind::Single(t) => spec_simple_token_text(t),
            _ => Seq::empty(),
        }
    } else {
        Seq::empty()
    }
}

/// Each binary operator the grammar reads is the one written: the operator's
/// text (as the formatter writes it, between spaces) is the text of the token
/// it was read from. So `>` gives `Greater`, `>=` gives `GreaterEqual`, `!=`
/// gives `NotEqual`, and no two tokens give the same operator.
pub proof fn lemma_operators_are_their_tokens(ts: Seq<SpecToken>, st: PState)
    ensures
        comparison_operator(ts, st) matches Some(op) ==> operator_text(op) == " "@ + token_text(ts, st) + " "@,
        equality_operator(ts, st) matches Some(op) ==> operator_text(op) == " "@ + token_text(ts, st) + " "@,
        term_operator(ts, st) matches Some(op) ==> operator_text(op) == " "@ + token_text(ts, st) + " "@,
        factor_operator(ts, st) matches Some(op) ==> operator_text(op) == " "@ + token_text(ts, st) + " "@,
        is_single(ts, st, SimpleToken::Greater) || is_single(ts, st, SimpleToken::GreaterEqual)
            || is_single(ts, st, SimpleToken::Less) || is_single(ts, st, SimpleToken::LessEqual)
            ==> comparison_operator(ts, st) is Some,
        is_single(ts, st, SimpleToken::EqualEqual) || is_single(ts, st, SimpleToken::BangEqual)
            ==> equality_operator(ts, st) is Some,
        is_single(ts, st, SimpleToken::Plus) || is_single(ts, st, SimpleToken::Minus)
            ==> term_operator(ts, st) is Some,
        is_single(ts, st, SimpleToken::Star) || is_single(ts, st, SimpleToken::Slash)
            ==> factor_operator(ts, st) is Some,
{
    reveal_strlit(" ");
    reveal_strlit(">");
    reveal_strlit(">=");
    reveal_strlit("<");
    reveal_strlit("<=");
    reveal_strlit("==");
    reveal_strlit("!=");
    reveal_strlit("+");
    reveal_strlit("-");
    reveal_strlit("*");
    reveal_strlit("/");
    reveal_strlit(" > ");
    reveal_strlit(" >= ");
    reveal_strlit(" < ");
    reveal_strlit(" <= ");
    reveal_strlit(" == ");
    reveal_strlit(" != ");
    reveal_strlit(" + ");
    reveal_strlit(" - ");
    reveal_strlit(" * ");
    reveal_strlit(" / ");
    assert(" "@ + ">"@ + " "@ =~= " > "@);
    assert(" "@ + ">="@ + " "@ =~= " >= "@);
    assert(" "@ + "<"@ + " "@ =~= " < "@);
    assert(" "@ + "<="@ + " "@ =~= " <= "@);
    assert(" "@ + "=="@ + " "@ =~= " == "@);
    assert(" "@ + "!="@ + " "@ =~= " != "@);
    assert(" "@ + "+"@ + " "@ =~= " + "@);
    assert(" "@ + "-"@ + " "@ =~= " - "@);
    assert(" "@ + "*"@ + " "@ =~= " * "@);
    assert(" "@ + "/"@ + " "@ =~= " / "@);
}

/// ( ( "*" | "/" ) unary )*, folded to the left onto `left`.
pub open spec fn sp_factor_rest(ts: Seq<SpecToken>, st: PState, left: ExprID) -> Step<ExprID>
    decreases ts.len() - st.pos, 43int,
{
    match factor_operator(ts, st) {
        None => ok(left, st),
        Some(operator) => {
            let r = sp_unary(ts, bump(st));
            match r.out {
                Outcome::Value(right) => {
                    let (id, st1) = emit(r.st, SpecExpr::Binary(Binary { left, operator, right }));
                    if beyond(ts, st, st1) {
                        sp_factor_rest(ts, st1, id)
                    } else {
                        stuck(st1)
                    }
                },
                _ => pass(r),
            }
        },
    }
}

/// factor → unary ( ( "*" | "/" ) unary )*
pub open spec fn sp_factor(ts: Seq<SpecToken>, st: PState) -> Step<ExprID>
    decreases ts.len() - st.pos, 44int,
{
    let r = sp_unary(ts, st);
    match r.out {
        Outcome::Value(left) => if forward(ts, st, r.st) {
            sp_factor_rest(ts, r.st, left)
        } else {
            stuck(r.st)
        },
        _ => pass(r),
    }
}

pub open spec fn sp_term_rest(ts: Seq<SpecToken>, st: PState, left: ExprID) -> Step<ExprID>
    decreases ts.len() - st.pos, 45int,
{
    match term_operator(ts, st) {
        None => ok(left, st),
        Some(operator) => {
            let r = sp_factor(ts, bump(st));
            match r.out {
                Outcome::Value(right) => {
                    let (id, st1) = emit(r.st, SpecExpr::Binary(Binary { left, operator, right }));
                    if beyond(ts, st, st1) {
                        sp_term_rest(ts, st1, id)
                    } else {
                        stuck(st1)
                    }
                },
                _ => pass(r),
            }
        },
    }
}

/// term → factor ( ( "+" | "-" ) factor )*
pub open spec fn sp_term(ts: Seq<SpecToken>, st: PState) -> Step<ExprID>
    decreases ts.len() - st.pos, 46int,
{
    let r = sp_factor(ts, st);
    match r.out {
        Outcome::Value(left) => if forward(ts, st, r.st) {
            sp_term_rest(ts, r.st, left)
        } else {
            stuck(r.st)
        },
        _ => pass(r),
    }
}

pub open spec fn sp_comparison_rest(ts: Seq<SpecToken>, st: PState, left: ExprID) -> Step<ExprID>
    decreases ts.len() - st.pos, 47int,
{
    match comparison_operator(ts, st) {
        None => ok(left, st),
        Some(operator) => {
            let r = sp_term(ts, bump(st));
            match r.out {
                Outcome::Value(right) => {
                    let (id, st1) = emit(r.st, SpecExpr::Binary(Binary { left, operator, right }));
                    if beyond(ts, st, st1) {
                        sp_comparison_rest(ts, st1, id)
                    } else {
                        stuck(st1)
                    }
                },
                _ => pass(r),
            }
        },
    }
}

/// comparison → term ( ( ">" | ">=" | "<" | "<=" ) term )*
pub open spec fn sp_comparison(ts: Seq<SpecToken>, st: PState) -> Step<ExprID>
    decreases ts.len() - st.pos, 48int,
{
    let r = sp_term(ts, st);
    match r.out {
        Outcome::Value(left) => if forward(ts, st, r.st) {
            sp_comparison_rest(ts, r.st, left)
        } else {
            stuck(r.st)
        },
        _ => pass(r),
    }
}

pub open spec fn sp_equality_rest(ts: Seq<SpecToken>, st: PState, left: ExprID) -> Step<ExprID>
    decreases ts.len() - st.pos, 49int,
{
    match equality_operator(ts, st) {
        None => ok(left, st),
        Some(operator) => {
            let r = sp_comparison(ts, bump(st));
            match r.out {
                Outcome::Value(right) => {
                    let (id, st1) = emit(r.st, SpecExpr::Binary(Binary { left, operator, right }));
                    if beyond(ts, st, st1) {
                        sp_equality_rest(ts, st1, id)
                    } else {
                        stuck(st1)
                    }
                },
                _ => pass(r),
            }
        },
    }
}

/// equality → comparison ( ( "==" | "!=" ) comparison )*
pub open spec fn sp_equality(ts: Seq<SpecToken>, st: PState) -> Step<ExprID>
    decreases ts.len() - st.pos, 50int,
{
    let r = sp_comparison(ts, st);
    match r.out {
        Outcome::Value(left) => if forward(ts, st, r.st) {
            sp_equality_rest(ts, r.st, left)
        } else {
            stuck(r.st)
        },
        _ => pass(r),
    }
}

/// ( "|" logical_or )*: each right side is a whole `logical_or`.
pub open spec fn sp_or_rest(ts: Seq<SpecToken>, st: PState, left: ExprID) -> Step<ExprID>
    decreases ts.len() - st.pos, 51int,
{
    if is_single(ts, st, SimpleToken::Or) {
        let r = sp_logical_or(ts, bump(st));
        match r.out {
            Outcome::Value(right) => {
                let (id, st1) = emit(r.st, SpecExpr::LogicalOr(LogicalOr { left, right }));
                if beyond(ts, st, st1) {
                    sp_or_rest(ts, st1, id)
                } else {
                    stuck(st1)
                }
            },
            _ => pass(r),
        }
    } else {
        ok(left, st)
    }
}

/// logical_or → equality ( "|" logical_or )*
pub open spec fn sp_logical_or(ts: Seq<SpecToken>, st: PState) -> Step<ExprID>
    decreases ts.len() - st.pos, 52int,
{
    let r = sp_equality(ts, st);
    match r.out {
        Outcome::Value(left) => if forward(ts, st, r.st) {
            sp_or_rest(ts, r.st, left)
        } else {
            stuck(r.st)
        },
        _ => pass(r),
    }
}

/// ( "&" logical_and )*: each right side is a whole `logical_and`.
pub open spec fn sp_and_rest(ts: Seq<SpecToken>, st: PState, left: ExprID) -> Step<ExprID>
    decreases ts.len() - st.pos, 53int,
{
    if is_single(ts, st, SimpleToken::And) {
        let r = sp_logical_and(ts, bump(st));
        match r.out {
            Outcome::Value(right) => {
                let (id, st1) = emit(r.st, SpecExpr::LogicalAnd(LogicalAnd { left, right }));
                if beyond(ts, st, st1) {
                    sp_and_rest(ts, st1, id)
                } else {
                    stuck(st1)
                }
            },
            _ => pass(r),
        }
    } else {
        ok(left, st)
    }
}

/// logical_and → logical_or ( "&" logical_and )*
pub open spec fn sp_logical_and(ts: Seq<SpecToken>, st: PState) -> Step<ExprID>
    decreases ts.len() - st.pos, 54int,
{
    let r = sp_logical_or(ts, st);
    match r.out {
        Outcome::Value(left) => if forward(ts, st, r.st) {
            sp_and_rest(ts, r.st, left)
        } else {
            stuck(r.st)
        },
        _ => pass(r),
    }
}

/// assignment → logical_and ( "=" expression )?, where the target must be a
/// name or a field access.
pub open spec fn sp_assignment(ts: Seq<SpecToken>, st: PState) -> Step<ExprID>
    decreases ts.len() - st.pos, 56int,
{
    let r = sp_logical_and(ts, st);
    match r.out {
        Outcome::Value(left) => if !forward(ts, st, r.st) {
            stuck(r.st)
        } else if is_single(ts, r.st, SimpleToken::Equal) {
            let v = sp_expression(ts, bump(r.st));
            match v.out {
                Outcome::Value(right) => {
                    let assign = emit(v.st, SpecExpr::Assignment(left, right));
                    let rvalue = fail(SpecASTError::RValueAssignment(left), v.st);
                    match v.st.exprs[left as int] {
                        SpecExpr::Terminal(lp) => match lp.inner {
                            SpecPrimary::Identifier(_) => ok(assign.0, assign.1),
                            _ => rvalue,
                        },
                        SpecExpr::Get(_, _) => ok(assign.0, assign.1),
                        _ => rvalue,
                    }
                },
                _ => pass(v),
            }
        } else {
            ok(left, r.st)
        },
        _ => pass(r),
    }
}

/// The binary operators that may not start an expression.
pub open spec fn starts_with_binary(ts: Seq<SpecToken>, st: PState) -> bool {
    ||| is_single(ts, st, SimpleToken::Plus)
    ||| is_single(ts, st, SimpleToken::Equal)
    ||| is_single(ts, st, SimpleToken::BangEqual)
    ||| is_single(ts, st, SimpleToken::Less)
    ||| is_single(ts, st, SimpleToken::LessEqual)
    ||| is_single(ts, st, SimpleToken::Greater)
    ||| is_single(ts, st, SimpleToken::GreaterEqual)
    ||| is_single(ts, st, SimpleToken::Star)
    ||| is_single(ts, st, SimpleToken::Slash)
}

/// expression → assignment, where an expression that starts with a binary
/// operator is reported as one without a left side.
pub open spec fn sp_expression(ts: Seq<SpecToken>, st: PState) -> Step<ExprID>
    decreases ts.len() - st.pos, 60int,
{
    if starts_with_binary(ts, st) {
        fail(SpecASTError::BinaryNoLeft(ts[st.pos]), bump(st))
    } else {
        sp_assignment(ts, st)
    }
}

} // verus!

verus! {

/// `;`* : skips semicolons.
pub open spec fn skip_semicolons(ts: Seq<SpecToken>, st: PState) -> PState
    decreases ts.len() - st.pos,
{
    if is_single(ts, st, SimpleToken::SemiColon) {
        skip_semicolons(ts, bump(st))
    } else {
        st
    }
}

/// declaration → ";"* ( COMMENT | vardecl ";" | fn_def | class_def | statement )
/// (at the end of the tokens, after the semicolons: nothing)
pub open spec fn sp_declaration(ts: Seq<SpecToken>, st: PState) -> Step<SpecDeclaration>
    decreases ts.len() - st.pos, 100int,
{
    let st1 = skip_semicolons(ts, st);
    if !forward(ts, st, st1) {
        stuck(st1)
    } else if at_end(ts, st1) {
        ok(SpecDeclaration::Empty, st1)
    } else {
        match ts[st1.pos].kind {
            SpecTokenKind::Comment(text) => ok(SpecDeclaration::Comment(text), bump(st1)),
            SpecTokenKind::Single(SimpleToken::KeyWord(KeyWordType::Var)) => {
                let d = sp_vardecl(ts, st1);
                match d.out {
                    Outcome::Value(decl) => {
                        let c = sp_consume(ts, d.st, SimpleToken::SemiColon);
                        match c.out {
                            Outcome::Value(_) => ok(decl, c.st),
                            _ => pass(c),
                        }
                    },
                    _ => pass(d),
                }
            },
            SpecTokenKind::Single(SimpleToken::KeyWord(KeyWordType::Fun)) => {
                let f = sp_function_def(ts, st1);
                match f.out {
                    Outcome::Value(def) => ok(SpecDeclaration::FunctionDefinition(def), f.st),
                    _ => pass(f),
                }
            },
            SpecTokenKind::Single(SimpleToken::KeyWord(KeyWordType::Class)) => sp_class_definition(
                ts,
                st1,
            ),
            _ => {
                let s = sp_statement(ts, st1);
                match s.out {
                    Outcome::Value(stmt) => ok(SpecDeclaration::Statement(stmt), s.st),
                    _ => pass(s),
                }
            },
        }
    }
}

/// What a class holds: its fields, its methods, and its constructor (the
/// last method named after the class).
pub struct ClassMembers {
    pub fields: Seq<Seq<char>>,
    pub functions: Seq<SpecFunctionDefinition>,
    pub constructor: Option<SpecFunctionDefinition>,
}

/// The members of a class, up to its `}`: methods (`fn ...`) and fields (`var name;`).
pub open spec fn sp_class_members(
    ts: Seq<SpecToken>,
    st: PState,
    name: Seq<char>,
    members: ClassMembers,
) -> Step<ClassMembers>
    decreases ts.len() - st.pos, 110int,
{
    if is_single(ts, st, SimpleToken::RightBrace) {
        ok(members, bump(st))
    } else if is_single(ts, st, SimpleToken::KeyWord(KeyWordType::Fun)) {
        let f = sp_function_def(ts, st);
        match f.out {
            Outcome::Value(def) => {
                let members = if def.name == name {
                    ClassMembers { constructor: Some(def), ..members }
                } else {
                    ClassMembers { functions: members.functions.push(def), ..members }
                };
                if beyond(ts, st, f.st) {
                    sp_class_members(ts, f.st, name, members)
                } else {
                    stuck(f.st)
                }
            },
            _ => pass(f),
        }
    } else if is_single(ts, st, SimpleToken::KeyWord(KeyWordType::Var)) {
        let r = sp_identifier(ts, bump(st));
        match r.out {
            Outcome::Value(field) => {
                let c = sp_consume(ts, r.st, SimpleToken::SemiColon);
                match c.out {
                    Outcome::Value(_) => if beyond(ts, st, c.st) {
                        sp_class_members(
                            ts,
                            c.st,
                            name,
                            ClassMembers { fields: members.fields.push(field), ..members },
                        )
                    } else {
                        stuck(c.st)
                    },
                    _ => pass(c),
                }
            },
            _ => pass(r),
        }
    } else if at_end(ts, st) || st.pos < 0 {
        // the parser reads the token at the end of the input to report it
        panic(st)
    } else {
        fail(
            SpecASTError::TokenError(
                ts[st.pos],
                seq![
                    SimpleToken::KeyWord(KeyWordType::Fun),
                    SimpleToken::KeyWord(KeyWordType::Var),
                ],
            ),
            st,
        )
    }
}

/// class_def → "class" IDENTIFIER "{" member* "}", with a constructor.
pub open spec fn sp_class_definition(ts: Seq<SpecToken>, st: PState) -> Step<SpecDeclaration>
    decreases ts.len() - st.pos, 95int,
{
    let a = sp_advance(ts, st);
    match a.out {
        Outcome::Value(_) => {
            let n = sp_identifier(ts, a.st);
            match n.out {
                Outcome::Value(name) => {
                    let c = sp_consume(ts, n.st, SimpleToken::LeftBrace);
                    match c.out {
                        Outcome::Value(_) => if !beyond(ts, st, c.st) {
                            stuck(c.st)
                        } else {
                            let m = sp_class_members(
                                ts,
                                c.st,
                                name,
                                ClassMembers {
                                    fields: Seq::empty(),
                                    functions: Seq::empty(),
                                    constructor: None,
                                },
                            );
                            match m.out {
                                Outcome::Value(members) => match members.constructor {
                                    None => fail(SpecASTError::NoConstructor(name), m.st),
                                    Some(constructor) => ok(
                                        SpecDeclaration::ClassDefinition(
                                            SpecClassDefinition {
                                                name,
                                                fields: members.fields,
                                                functions: members.functions,
                                                constructor,
                                            },
                                        ),
                                        m.st,
                                    ),
                                },
                                _ => pass(m),
                            }
                        },
                        _ => pass(c),
                    }
                },
                _ => pass(n),
            }
        },
        _ => pass(a),
    }
}

/// The parameters of a function after its `(`: names separated by commas, up
/// to `)`.
pub open spec fn sp_parameters(ts: Seq<SpecToken>, st: PState, args: Seq<Seq<char>>) -> Step<
    Seq<Seq<char>>,
>
    decreases ts.len() - st.pos, 110int,
{
    if is_single(ts, st, SimpleToken::RightParen) {
        ok(args, bump(st))
    } else {
        let r = sp_identifier(ts, st);
        match r.out {
            Outcome::Value(arg) => {
                let args = args.push(arg);
                if !beyond(ts, st, r.st) {
                    stuck(r.st)
                } else if at_end(ts, r.st) {
                    // the parser reads the token at the end of the input
                    panic(r.st)
                } else if is_single(ts, r.st, SimpleToken::RightParen) {
                    sp_parameters(ts, r.st, args)
                } else {
                    let c = sp_consume(ts, r.st, SimpleToken::Comma);
                    match c.out {
                        Outcome::Value(_) => sp_parameters(ts, c.st, args),
                        _ => pass(c),
                    }
                }
            },
            _ => pass(r),
        }
    }
}

/// fn_def → "fn" IDENTIFIER "(" parameters ")" block
pub open spec fn sp_function_def(ts: Seq<SpecToken>, st: PState) -> Step<SpecFunctionDefinition>
    decreases ts.len() - st.pos, 95int,
{
    let f = sp_consume(ts, st, SimpleToken::KeyWord(KeyWordType::Fun));
    match f.out {
        Outcome::Value(_) => {
            let n = sp_identifier(ts, f.st);
            match n.out {
                Outcome::Value(name) => {
                    let p = sp_consume(ts, n.st, SimpleToken::LeftParen);
                    match p.out {
                        Outcome::Value(_) => if !beyond(ts, st, p.st) {
                            stuck(p.st)
                        } else {
                            let a = sp_parameters(ts, p.st, Seq::empty());
                            match a.out {
                                Outcome::Value(arguments) => if !beyond(ts, st, a.st) {
                                    stuck(a.st)
                                } else {
                                    let b = sp_block(ts, a.st);
                                    match b.out {
                                        Outcome::Value(statement) => ok(
                                            SpecFunctionDefinition { name, arguments, statement },
                                            b.st,
                                        ),
                                        _ => pass(b),
                                    }
                                },
                                _ => pass(a),
                            }
                        },
                        _ => pass(p),
                    }
                },
                _ => pass(n),
            }
        },
        _ => pass(f),
    }
}

/// The declarations of a block after its `{`, up to `}`.
pub open spec fn sp_block_items(ts: Seq<SpecToken>, st: PState, decls: Seq<SpecDeclaration>) -> Step<
    SpecStatement,
>
    decreases ts.len() - st.pos, 110int,
{
    if is_single(ts, st, SimpleToken::RightBrace) {
        ok(SpecStatement::Block(decls), bump(st))
    } else {
        let d = sp_declaration(ts, st);
        match d.out {
            Outcome::Value(decl) => if at_end(ts, d.st) {
                fail(SpecASTError::Eof, d.st)
            } else if beyond(ts, st, d.st) {
                sp_block_items(ts, d.st, decls.push(decl))
            } else {
                stuck(d.st)
            },
            _ => pass(d),
        }
    }
}

/// block → "{" declaration* "}"
pub open spec fn sp_block(ts: Seq<SpecToken>, st: PState) -> Step<SpecStatement>
    decreases ts.len() - st.pos, 75int,
{
    let c = sp_consume(ts, st, SimpleToken::LeftBrace);
    match c.out {
        Outcome::Value(_) => if beyond(ts, st, c.st) {
            sp_block_items(ts, c.st, Seq::empty())
        } else {
            stuck(c.st)
        },
        _ => pass(c),
    }
}

/// print → "print" "(" expression ( "," expression )* ")"
pub open spec fn sp_print(ts: Seq<SpecToken>, st: PState) -> Step<SpecStatement>
    decreases ts.len() - st.pos, 70int,
{
    let k = sp_consume(ts, st, SimpleToken::KeyWord(KeyWordType::Print));
    match k.out {
        Outcome::Value(_) => {
            let p = sp_consume(ts, k.st, SimpleToken::LeftParen);
            match p.out {
                Outcome::Value(_) => if !beyond(ts, st, p.st) {
                    stuck(p.st)
                } else {
                    let items = sp_print_items(ts, p.st, Seq::empty());
                    match items.out {
                        Outcome::Value(v) => {
                            let c = sp_consume(ts, items.st, SimpleToken::RightParen);
                            match c.out {
                                Outcome::Value(_) => ok(SpecStatement::PrintStatement(v), c.st),
                                _ => pass(c),
                            }
                        },
                        _ => pass(items),
                    }
                },
                _ => pass(p),
            }
        },
        _ => pass(k),
    }
}

/// expression ( "," expression )*
pub open spec fn sp_print_items(ts: Seq<SpecToken>, st: PState, items: Seq<ExprID>) -> Step<
    Seq<ExprID>,
>
    decreases ts.len() - st.pos, 110int,
{
    let r = sp_expression(ts, st);
    match r.out {
        Outcome::Value(e) => {
            let items = items.push(e);
            if is_single(ts, r.st, SimpleToken::Comma) {
                if beyond(ts, st, bump(r.st)) {
                    sp_print_items(ts, bump(r.st), items)
                } else {
                    stuck(bump(r.st))
                }
            } else {
                ok(items, r.st)
            }
        },
        _ => pass(r),
    }
}

/// A condition in parentheses, then a statement.
pub open spec fn sp_guarded(ts: Seq<SpecToken>, st: PState) -> Step<(ExprID, SpecStatement)>
    decreases ts.len() - st.pos, 65int,
{
    let p = sp_consume(ts, st, SimpleToken::LeftParen);
    match p.out {
        Outcome::Value(_) => {
            let e = sp_expression(ts, p.st);
            match e.out {
                Outcome::Value(cond) => {
                    let c = sp_consume(ts, e.st, SimpleToken::RightParen);
                    match c.out {
                        Outcome::Value(_) => if beyond(ts, st, c.st) {
                            let s = sp_statement(ts, c.st);
                            match s.out {
                                Outcome::Value(body) => ok((cond, body), s.st),
                                _ => pass(s),
                            }
                        } else {
                            stuck(c.st)
                        },
                        _ => pass(c),
                    }
                },
                _ => pass(e),
            }
        },
        _ => pass(p),
    }
}

/// ( "elif" "(" expression ")" statement )*
pub open spec fn sp_elifs(ts: Seq<SpecToken>, st: PState, branches: Seq<(ExprID, SpecStatement)>) -> Step<
    Seq<(ExprID, SpecStatement)>,
>
    decreases ts.len() - st.pos, 110int,
{
    if is_single(ts, st, SimpleToken::KeyWord(KeyWordType::Elif)) {
        let g = sp_guarded(ts, bump(st));
        match g.out {
            Outcome::Value(branch) => if beyond(ts, st, g.st) {
                sp_elifs(ts, g.st, branches.push(branch))
            } else {
                stuck(g.st)
            },
            _ => pass(g),
        }
    } else {
        ok(branches, st)
    }
}

/// ifstmt (after "if") → "(" expression ")" statement elif* ( "else" statement )?
pub open spec fn sp_ifstmt(ts: Seq<SpecToken>, st: PState) -> Step<SpecStatement>
    decreases ts.len() - st.pos, 70int,
{
    let g = sp_guarded(ts, st);
    match g.out {
        Outcome::Value(first) => if !beyond(ts, st, g.st) {
            stuck(g.st)
        } else {
            let e = sp_elifs(ts, g.st, seq![first]);
            match e.out {
                Outcome::Value(branches) => if !forward(ts, g.st, e.st) {
                    stuck(e.st)
                } else if is_single(ts, e.st, SimpleToken::KeyWord(KeyWordType::Else)) {
                    let s = sp_statement(ts, bump(e.st));
                    match s.out {
                        Outcome::Value(other) => {
                            let (id, st1) = emit_statement(s.st, other);
                            ok(SpecStatement::IfStatement(branches, Some(id)), st1)
                        },
                        _ => pass(s),
                    }
                } else {
                    ok(SpecStatement::IfStatement(branches, None), e.st)
                },
                _ => pass(e),
            }
        },
        _ => pass(g),
    }
}

/// whilestmt (after "while") → "(" expression ")" statement
pub open spec fn sp_whilestmt(ts: Seq<SpecToken>, st: PState) -> Step<SpecStatement>
    decreases ts.len() - st.pos, 71int,
{
    let g = sp_guarded(ts, st);
    match g.out {
        Outcome::Value((cond, body)) => {
            let (id, st1) = emit_statement(g.st, body);
            ok(SpecStatement::Whileloop(cond, id), st1)
        },
        _ => pass(g),
    }
}

/// vardecl → "var" IDENTIFIER "=" expression
pub open spec fn sp_vardecl(ts: Seq<SpecToken>, st: PState) -> Step<SpecDeclaration>
    decreases ts.len() - st.pos, 95int,
{
    let v = sp_consume(ts, st, SimpleToken::KeyWord(KeyWordType::Var));
    match v.out {
        Outcome::Value(_) => {
            let i = sp_advance(ts, v.st);
            match i.out {
                Outcome::Value(ident) => {
                    let q = sp_consume(ts, i.st, SimpleToken::Equal);
                    match q.out {
                        Outcome::Value(_) => if !beyond(ts, st, q.st) {
                            stuck(q.st)
                        } else {
                            let e = sp_expression(ts, q.st);
                            match e.out {
                                Outcome::Value(right) => match ident {
                                    SpecTokenKind::Identifier(name) => ok(
                                        SpecDeclaration::VarDecl(name, right),
                                        e.st,
                                    ),
                                    // reported at the token three before the end of the value
                                    _ => fail(
                                        SpecASTError::ExpectedIdentifier(ts[e.st.pos - 3]),
                                        e.st,
                                    ),
                                },
                                _ => pass(e),
                            }
                        },
                        _ => pass(q),
                    }
                },
                _ => pass(i),
            }
        },
        _ => pass(v),
    }
}

/// A statement that ends with a `;`.
pub open spec fn then_semicolon(ts: Seq<SpecToken>, s: Step<SpecStatement>) -> Step<SpecStatement> {
    match s.out {
        Outcome::Value(stmt) => {
            let c = sp_consume(ts, s.st, SimpleToken::SemiColon);
            match c.out {
                Outcome::Value(_) => ok(stmt, c.st),
                _ => pass(c),
            }
        },
        _ => s,
    }
}

/// statement → print ";" | block | "if" ifstmt | "while" whilestmt | "break" ";"
///           | "continue" ";" | "return" expression? ";" | expression ";"
pub open spec fn sp_statement(ts: Seq<SpecToken>, st: PState) -> Step<SpecStatement>
    decreases ts.len() - st.pos, 80int,
{
    if is_single(ts, st, SimpleToken::KeyWord(KeyWordType::Print)) {
        then_semicolon(ts, sp_print(ts, st))
    } else if is_single(ts, st, SimpleToken::LeftBrace) {
        sp_block(ts, st)
    } else if is_single(ts, st, SimpleToken::KeyWord(KeyWordType::If)) {
        sp_ifstmt(ts, bump(st))
    } else if is_single(ts, st, SimpleToken::KeyWord(KeyWordType::While)) {
        sp_whilestmt(ts, bump(st))
    } else if is_single(ts, st, SimpleToken::KeyWord(KeyWordType::Break)) {
        then_semicolon(ts, ok(SpecStatement::Break(ts[st.pos]), bump(st)))
    } else if is_single(ts, st, SimpleToken::KeyWord(KeyWordType::Continue)) {
        then_semicolon(ts, ok(SpecStatement::Continue(ts[st.pos]), bump(st)))
    } else if is_single(ts, st, SimpleToken::KeyWord(KeyWordType::Return)) {
        let st1 = bump(st);
        if at_end(ts, st1) {
            // the parser reads the token at the end of the input
            panic(st1)
        } else if is_single(ts, st1, SimpleToken::SemiColon) {
            then_semicolon(ts, ok(SpecStatement::Return(None), st1))
        } else {
            let e = sp_expression(ts, st1);
            match e.out {
                Outcome::Value(v) => then_semicolon(ts, ok(SpecStatement::Return(Some(v)), e.st)),
                _ => pass(e),
            }
        }
    } else {
        let e = sp_expression(ts, st);
        match e.out {
            Outcome::Value(v) => then_semicolon(ts, ok(SpecStatement::ExprStatement(v), e.st)),
            _ => pass(e),
        }
    }
}

} // verus!

verus! {

/// How a whole parse ends: the state, the declarations and the errors found;
/// or a panic. (`Stuck`, like the rules', never happens.)
pub enum ParseOutcome {
    Parsed(PState, Seq<SpecDeclaration>, Seq<SpecASTError>),
    Panic,
    Stuck,
}

/// The parse from `st` on, in recovery mode after an error (tokens are then
/// skipped up to and including the next `;`).
#[verifier::opaque]
pub open spec fn sp_parse_from(
    ts: Seq<SpecToken>,
    st: PState,
    roots: Seq<SpecDeclaration>,
    errors: Seq<SpecASTError>,
    recovery: bool,
) -> ParseOutcome
    decreases ts.len() - st.pos, if recovery {
        0int
    } else {
        1int
    },
{
    if st.pos >= ts.len() || st.pos < 0 {
        ParseOutcome::Parsed(st, roots, errors)
    } else if recovery {
        sp_parse_from(
            ts,
            bump(st),
            roots,
            errors,
            ts[st.pos].kind != SpecTokenKind::Single(SimpleToken::SemiColon),
        )
    } else {
        let d = sp_declaration(ts, st);
        match d.out {
            Outcome::Value(decl) => if beyond(ts, st, d.st) {
                sp_parse_from(ts, d.st, roots.push(decl), errors, false)
            } else {
                ParseOutcome::Stuck
            },
            Outcome::Failed(e) => if forward(ts, st, d.st) {
                sp_parse_from(ts, d.st, roots, errors.push(e), true)
            } else {
                ParseOutcome::Stuck
            },
            Outcome::Panic => ParseOutcome::Panic,
            Outcome::Stuck => ParseOutcome::Stuck,
        }
    }
}

/// The parse of all the tokens, appending to arenas that hold `exprs` and `stmts`.
pub open spec fn sp_parse(ts: Seq<SpecToken>, exprs: Seq<SpecExpr>, stmts: Seq<SpecStatement>) -> ParseOutcome {
    sp_parse_from(ts, PState { pos: 0, exprs, stmts }, Seq::empty(), Seq::empty(), false)
}

} // verus!
