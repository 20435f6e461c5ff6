//! The recursive-descent parser. Each rule of the grammar is a method of
//! `ASTBuilder`, and its contract says that it does what the rule of the same
//! name in `grammar` gives: the same result, and the same state after it.
use crate::lexer::lexer::{KeyWordType, SimpleToken, SpecToken, Token, TokenKind, TokenVec};
use crate::parser::grammar::{
    PState, Outcome, Step, sp_advance, sp_consume, sp_match, emit, emit_statement, emit_primary,
    is_single, at_end, bump, sp_primary, sp_identifier, sp_call_args, sp_call_rest,
    sp_function_call, sp_unary, sp_factor_rest, sp_factor, sp_term_rest, sp_term,
    sp_comparison_rest, sp_comparison, sp_equality_rest, sp_equality, sp_or_rest, sp_logical_or,
    sp_and_rest, sp_logical_and, sp_assignment, sp_expression, starts_with_binary,
    factor_operator, term_operator, comparison_operator, equality_operator, skip_semicolons,
    sp_declaration, ClassMembers, sp_class_members, sp_class_definition, sp_parameters,
    sp_function_def, sp_block_items, sp_block, sp_print, sp_print_items, sp_guarded, sp_elifs,
    sp_ifstmt, sp_whilestmt, sp_vardecl, sp_statement, ParseOutcome, sp_parse, sp_parse_from,
};
use crate::parser::parser::{
    AST, ASTError, SpecASTError, Binary, ClassDefinition, Declaration, Expr, ExprID, FunctionCall,
    FunctionDefinition, LocatedPrimary, LogicalAnd, LogicalOr, Operator, Primary,
    SpecClassDefinition, SpecDeclaration, SpecExpr, SpecFunctionDefinition, SpecStatement,
    Statement, StatementID, Unary, view_strings, view_statement, view_declaration, expr_below,
    stmt_within, decl_within, arenas_ordered, stmt_refers, decl_refers, ast_ordered,
};
use vstd::prelude::*;

verus! {

pub open spec fn view_exprs(v: Seq<Expr>) -> Seq<SpecExpr> {
    v.map_values(|e: Expr| e@)
}

pub open spec fn view_stmts(v: Seq<Statement>) -> Seq<SpecStatement> {
    v.map_values(|s: Statement| s@)
}

/// Why a rule stopped without a value: an error in the input, or a read
/// past the last token (where the grammar gives `Panic`).
pub enum Halt {
    Error(ASTError),
    PastEnd,
}

/// A rule's error agrees with what the grammar gives.
pub open spec fn halts_as<T>(h: Halt, out: Outcome<T>) -> bool {
    match h {
        Halt::Error(e) => out == Outcome::<T>::Failed(e@),
        Halt::PastEnd => out is Panic,
    }
}

/// A rule's result agrees with what the grammar gives.
pub open spec fn agrees<T: View>(r: Result<T, Halt>, out: Outcome<T::V>) -> bool {
    match r {
        Ok(v) => out == Outcome::Value(v@),
        Err(h) => halts_as(h, out),
    }
}

/// `b` keeps what `a` had in its arenas, and may hold more.
pub open spec fn extends(a: PState, b: PState) -> bool {
    &&& a.exprs.len() <= b.exprs.len()
    &&& a.stmts.len() <= b.stmts.len()
    &&& forall|i: int| 0 <= i < a.exprs.len() ==> b.exprs[i] == a.exprs[i]
    &&& forall|i: int| 0 <= i < a.stmts.len() ==> b.stmts[i] == a.stmts[i]
}

/// `b1` is what the parser `b0` becomes by a rule that gives `step`, and `r`
/// is what it returns.
pub open spec fn took<T: View>(
    b0: ASTBuilder,
    b1: ASTBuilder,
    r: Result<T, Halt>,
    step: Step<T::V>,
) -> bool {
    &&& b1.inv()
    &&& b1.same_input(&b0)
    &&& b1.st() == step.st
    &&& agrees(r, step.out)
    &&& extends(b0.st(), b1.st())
    &&& b0.st().pos <= b1.st().pos
}

/// An expression was parsed: it stands in the arena, and at least one token
/// was taken.
pub open spec fn parsed_expr(b0: ASTBuilder, b1: ASTBuilder, r: Result<ExprID, Halt>) -> bool {
    r matches Ok(id) ==> id < b1.st().exprs.len() && b0.st().pos < b1.st().pos
}

/// The parser: its position in the tokens, and the arenas it fills.
pub struct ASTBuilder {
    current_index: usize,
    tokens: TokenVec,
    exprs: Vec<Expr>,
    stmts: Vec<Statement>,
    /// Whether the arenas were ordered when the parse began: then they stay so.
    track: Ghost<bool>,
}

/// Where the parse keeps the arenas ordered, the statement `s` fits them.
pub open spec fn stmt_fits(b: ASTBuilder, s: SpecStatement) -> bool {
    b.tracks() ==> stmt_within(s, b.st().exprs.len() as int, b.st().stmts.len() as int)
}

pub open spec fn decl_fits(b: ASTBuilder, d: SpecDeclaration) -> bool {
    b.tracks() ==> decl_within(d, b.st().exprs.len() as int, b.st().stmts.len() as int)
}

/// Each branch's condition stands in the arena, and its statement fits.
pub open spec fn branches_fit(b: ASTBuilder, v: Seq<(ExprID, Statement)>) -> bool {
    forall|k: int|
        #![trigger v[k]]
        0 <= k < v.len() ==> v[k].0 < b.st().exprs.len() && stmt_fits(b, v[k].1@)
}

/// What fits the arenas still fits them once they have grown.
proof fn lemma_grow(b0: ASTBuilder, b1: ASTBuilder)
    requires
        b1.tracks() == b0.tracks(),
        b0.st().exprs.len() <= b1.st().exprs.len(),
        b0.st().stmts.len() <= b1.st().stmts.len(),
    ensures
        forall|s: SpecStatement| stmt_fits(b0, s) ==> #[trigger] stmt_fits(b1, s),
        forall|d: SpecDeclaration| decl_fits(b0, d) ==> #[trigger] decl_fits(b1, d),
{
    reveal(stmt_within);
    reveal(decl_within);
}

proof fn lemma_block_fits(b: ASTBuilder, v: Seq<Declaration>)
    requires
        decls_fit(b, v),
    ensures
        stmt_fits(b, SpecStatement::Block(view_decls(v))),
{
    reveal(stmt_within);
    reveal(decl_within);
    let ds = view_decls(v);
    let s = SpecStatement::Block(ds);
    if b.tracks() {
        assert forall|x: int, t: bool| #[trigger] stmt_refers(s, x, t) implies (if t {
            x < b.st().stmts.len()
        } else {
            x < b.st().exprs.len()
        }) by {
            assert(exists|k: int| 0 <= k < ds.len() && decl_refers(ds[k], x, t));
            let k = choose|k: int| 0 <= k < ds.len() && decl_refers(ds[k], x, t);
            assert(ds[k] == v[k]@);
            assert(decl_fits(b, v[k]@));
            if t {
                assert(decl_refers(ds[k], x, true));
            } else {
                assert(decl_refers(ds[k], x, false));
            }
        }
        assert forall|x: int| #[trigger] stmt_refers(s, x, false) implies x < b.st().exprs.len() by {
            assert(stmt_refers(s, x, false));
        }
        assert forall|x: int| #[trigger] stmt_refers(s, x, true) implies x < b.st().stmts.len() by {
            assert(stmt_refers(s, x, true));
        }
    }
}

proof fn lemma_if_fits(b: ASTBuilder, v: Seq<(ExprID, Statement)>, other: Option<StatementID>)
    requires
        branches_fit(b, v),
        other matches Some(id) ==> id < b.st().stmts.len(),
    ensures
        stmt_fits(b, SpecStatement::IfStatement(view_branches(v), other)),
{
    reveal(stmt_within);
    let bs = view_branches(v);
    let s = SpecStatement::IfStatement(bs, other);
    if b.tracks() {
        assert forall|x: int, t: bool| #[trigger] stmt_refers(s, x, t) implies (if t {
            x < b.st().stmts.len()
        } else {
            x < b.st().exprs.len()
        }) by {
            if exists|k: int|
                0 <= k < bs.len() && ((!t && x == bs[k].0) || stmt_refers(
                    bs[k].1,
                    x,
                    t,
                )) {
                let k = choose|k: int|
                    0 <= k < bs.len() && ((!t && x == bs[k].0) || stmt_refers(
                        bs[k].1,
                        x,
                        t,
                    ));
                assert(bs[k] == (v[k].0, v[k].1@));
                assert(stmt_fits(b, v[k].1@));
                if t {
                    assert(stmt_refers(bs[k].1, x, true));
                } else if x != bs[k].0 {
                    assert(stmt_refers(bs[k].1, x, false));
                }
            }
        }
        assert forall|x: int| #[trigger] stmt_refers(s, x, false) implies x < b.st().exprs.len() by {
            assert(stmt_refers(s, x, false));
        }
        assert forall|x: int| #[trigger] stmt_refers(s, x, true) implies x < b.st().stmts.len() by {
            assert(stmt_refers(s, x, true));
        }
    }
}

proof fn lemma_class_fits(b: ASTBuilder, c: SpecClassDefinition)
    requires
        forall|k: int|
            #![trigger c.functions[k]]
            0 <= k < c.functions.len() ==> stmt_fits(b, c.functions[k].statement),
        stmt_fits(b, c.constructor.statement),
    ensures
        decl_fits(b, SpecDeclaration::ClassDefinition(c)),
{
    reveal(stmt_within);
    reveal(decl_within);
    let d = SpecDeclaration::ClassDefinition(c);
    if b.tracks() {
        assert forall|x: int, t: bool| #[trigger] decl_refers(d, x, t) implies (if t {
            x < b.st().stmts.len()
        } else {
            x < b.st().exprs.len()
        }) by {
            if exists|k: int|
                0 <= k < c.functions.len() && stmt_refers(
                    c.functions[k].statement,
                    x,
                    t,
                ) {
                let k = choose|k: int|
                    0 <= k < c.functions.len() && stmt_refers(
                        c.functions[k].statement,
                        x,
                        t,
                    );
                assert(stmt_fits(b, c.functions[k].statement));
                if t {
                    assert(stmt_refers(c.functions[k].statement, x, true));
                } else {
                    assert(stmt_refers(c.functions[k].statement, x, false));
                }
            } else if t {
                assert(stmt_refers(c.constructor.statement, x, true));
            } else {
                assert(stmt_refers(c.constructor.statement, x, false));
            }
        }
        assert forall|x: int| #[trigger] decl_refers(d, x, false) implies x < b.st().exprs.len() by {
            assert(decl_refers(d, x, false));
        }
        assert forall|x: int| #[trigger] decl_refers(d, x, true) implies x < b.st().stmts.len() by {
            assert(decl_refers(d, x, true));
        }
    }
}

proof fn lemma_branches_grow(b0: ASTBuilder, b1: ASTBuilder, v: Seq<(ExprID, Statement)>)
    requires
        b1.tracks() == b0.tracks(),
        b0.st().exprs.len() <= b1.st().exprs.len(),
        b0.st().stmts.len() <= b1.st().stmts.len(),
        branches_fit(b0, v),
    ensures
        branches_fit(b1, v),
{
    lemma_grow(b0, b1);
    assert forall|k: int| 0 <= k < v.len() implies v[k].0 < b1.st().exprs.len() && stmt_fits(
        b1,
        v[k].1@,
    ) by {
        assert(stmt_fits(b0, v[k].1@));
    }
}

proof fn lemma_branches_push(b: ASTBuilder, v: Seq<(ExprID, Statement)>, x: (ExprID, Statement))
    requires
        branches_fit(b, v),
        x.0 < b.st().exprs.len(),
        stmt_fits(b, x.1@),
    ensures
        branches_fit(b, v.push(x)),
{
    assert forall|k: int| 0 <= k < v.push(x).len() implies v.push(x)[k].0 < b.st().exprs.len()
        && stmt_fits(b, v.push(x)[k].1@) by {
        if k < v.len() {
            assert(v.push(x)[k] == v[k]);
        }
    }
}

/// Each declaration of `v` fits the arenas of `b`.
pub open spec fn decls_fit(b: ASTBuilder, v: Seq<Declaration>) -> bool {
    forall|k: int| #![trigger v[k]] 0 <= k < v.len() ==> decl_fits(b, v[k]@)
}

proof fn lemma_decls_grow(b0: ASTBuilder, b1: ASTBuilder, v: Seq<Declaration>)
    requires
        b1.tracks() == b0.tracks(),
        b0.st().exprs.len() <= b1.st().exprs.len(),
        b0.st().stmts.len() <= b1.st().stmts.len(),
        decls_fit(b0, v),
    ensures
        decls_fit(b1, v),
{
    lemma_grow(b0, b1);
    assert forall|k: int| 0 <= k < v.len() implies decl_fits(b1, v[k]@) by {
        assert(decl_fits(b0, v[k]@));
    }
}

proof fn lemma_decls_push(b: ASTBuilder, v: Seq<Declaration>, d: Declaration)
    requires
        decls_fit(b, v),
        decl_fits(b, d@),
    ensures
        decls_fit(b, v.push(d)),
{
    assert forall|k: int| 0 <= k < v.push(d).len() implies decl_fits(b, v.push(d)[k]@) by {
        if k < v.len() {
            assert(v.push(d)[k] == v[k]);
        }
    }
}

/// The statements with no statement inside them fit where what they name exists.
proof fn lemma_leaf_fits(b: ASTBuilder, s: SpecStatement)
    requires
        match s {
            SpecStatement::ExprStatement(e) => e < b.st().exprs.len(),
            SpecStatement::PrintStatement(v) => forall|k: int|
                0 <= k < v.len() ==> v[k] < b.st().exprs.len(),
            SpecStatement::Whileloop(c, body) => c < b.st().exprs.len() && body
                < b.st().stmts.len(),
            SpecStatement::Return(e) => e matches Some(x) ==> x < b.st().exprs.len(),
            SpecStatement::Break(_) => true,
            SpecStatement::Continue(_) => true,
            _ => false,
        },
    ensures
        stmt_fits(b, s),
{
    reveal(stmt_within);
}

/// A declaration fits where its statement, or its value, does.
proof fn lemma_decl_fits(b: ASTBuilder, d: SpecDeclaration)
    requires
        match d {
            SpecDeclaration::Statement(s) => stmt_fits(b, s),
            SpecDeclaration::VarDecl(_, e) => e < b.st().exprs.len(),
            SpecDeclaration::FunctionDefinition(f) => stmt_fits(b, f.statement),
            SpecDeclaration::ClassDefinition(_) => false,
            SpecDeclaration::Comment(_) => true,
            SpecDeclaration::Empty => true,
        },
    ensures
        decl_fits(b, d),
{
    reveal(stmt_within);
    reveal(decl_within);
    if b.tracks() {
        assert forall|x: int, t: bool| #[trigger] decl_refers(d, x, t) implies (if t {
            x < b.st().stmts.len()
        } else {
            x < b.st().exprs.len()
        }) by {
            match d {
                SpecDeclaration::Statement(s) => {
                    if t {
                        assert(stmt_refers(s, x, true));
                    } else {
                        assert(stmt_refers(s, x, false));
                    }
                },
                SpecDeclaration::FunctionDefinition(f) => {
                    if t {
                        assert(stmt_refers(f.statement, x, true));
                    } else {
                        assert(stmt_refers(f.statement, x, false));
                    }
                },
                _ => {},
            }
        }
        assert forall|x: int| #[trigger] decl_refers(d, x, false) implies x < b.st().exprs.len() by {
            assert(decl_refers(d, x, false));
        }
        assert forall|x: int| #[trigger] decl_refers(d, x, true) implies x < b.st().stmts.len() by {
            assert(decl_refers(d, x, true));
        }
    }
}

impl ASTBuilder {
    pub closed spec fn tracks(&self) -> bool {
        self.track@
    }

    pub closed spec fn ts(&self) -> Seq<SpecToken> {
        self.tokens@
    }

    pub closed spec fn st(&self) -> PState {
        PState {
            pos: self.current_index as int,
            exprs: view_exprs(self.exprs@),
            stmts: view_stmts(self.stmts@),
        }
    }

    pub closed spec fn inv(&self) -> bool {
        &&& self.current_index <= self.tokens@.len()
        &&& self.tokens.tokens@.len() <= usize::MAX
        &&& self.track@ ==> arenas_ordered(self.st().exprs, self.st().stmts)
    }

    /// Only the position and the arenas change.
    pub closed spec fn same_input(&self, other: &Self) -> bool {
        &&& self.tokens == other.tokens
        &&& self.track == other.track
    }

    fn is_last(&self) -> (b: bool)
        requires
            self.inv(),
        ensures
            b == at_end(self.ts(), self.st()),
    {
        self.current_index == self.tokens.tokens.len()
    }

    /// The next token is the simple token `t`.
    fn check(&self, t: SimpleToken) -> (b: bool)
        requires
            self.inv(),
        ensures
            b == is_single(self.ts(), self.st(), t),
    {
        if self.current_index == self.tokens.tokens.len() {
            return false;
        }
        match &self.tokens.tokens[self.current_index].kind {
            TokenKind::Single(s) => *s == t,
            _ => false,
        }
    }

    /// Steps over the next token, which exists.
    fn bump(&mut self)
        requires
            old(self).inv(),
            old(self).current_index < old(self).tokens@.len(),
        ensures
            final(self).inv(),
            final(self).same_input(old(self)),
            final(self).st() == bump(old(self).st()),
            final(self).exprs == old(self).exprs,
            final(self).stmts == old(self).stmts,
    {
        self.current_index = self.current_index + 1;
    }

    /// A copy of the token at index `i`.
    fn token_at(&self, i: usize) -> (t: Token)
        requires
            i < self.ts().len(),
        ensures
            t@ == self.ts()[i as int],
    {
        self.tokens.tokens[i].clone()
    }

    fn advance(&mut self) -> (r: Result<TokenKind, Halt>)
        requires
            old(self).inv(),
        ensures
            final(self).inv(),
            final(self).same_input(old(self)),
            final(self).st() == sp_advance(old(self).ts(), old(self).st()).st,
            final(self).exprs == old(self).exprs,
            final(self).stmts == old(self).stmts,
            agrees(r, sp_advance(old(self).ts(), old(self).st()).out),
    {
        if self.current_index == self.tokens.tokens.len() {
            return Err(Halt::Error(ASTError::Eof));
        }
        self.current_index = self.current_index + 1;
        Ok(self.tokens.tokens[self.current_index - 1].kind.clone())
    }

    fn consume(&mut self, token: SimpleToken) -> (r: Result<(), Halt>)
        requires
            old(self).inv(),
        ensures
            final(self).inv(),
            final(self).same_input(old(self)),
            final(self).st() == sp_consume(old(self).ts(), old(self).st(), token).st,
            final(self).exprs == old(self).exprs,
            final(self).stmts == old(self).stmts,
            r is Ok <==> sp_consume(old(self).ts(), old(self).st(), token).out is Value,
            r matches Err(h) ==> halts_as(h, sp_consume(old(self).ts(), old(self).st(), token).out),
    {
        if self.check(token) {
            self.current_index = self.current_index + 1;
            Ok(())
        } else {
            if self.current_index == self.tokens.tokens.len() {
                return Err(Halt::Error(ASTError::Eof));
            }
            let t = self.token_at(self.current_index);
            let mut expected = Vec::new();
            expected.push(token);
            proof {
                assert(expected@ =~= seq![token]);
            }
            Err(Halt::Error(ASTError::TokenError(t, expected)))
        }
    }

    /// Takes the next token if it is one of `tokens`, trying them in order.
    fn my_match(&mut self, tokens: &[SimpleToken]) -> (r: Option<SimpleToken>)
        requires
            old(self).inv(),
            tokens@.len() > 0,
        ensures
            final(self).inv(),
            final(self).same_input(old(self)),
            (r, final(self).st()) == sp_match(old(self).ts(), old(self).st(), tokens@),
            final(self).exprs == old(self).exprs,
            final(self).stmts == old(self).stmts,
    {
        let mut i: usize = 0;
        proof {
            assert(tokens@.skip(0) =~= tokens@);
        }
        while i < tokens.len()
            invariant
                *self == *old(self),
                self.inv(),
                i <= tokens@.len(),
                sp_match(self.ts(), self.st(), tokens@) == sp_match(
                    self.ts(),
                    self.st(),
                    tokens@.skip(i as int),
                ),
            decreases tokens@.len() - i,
        {
            proof {
                assert(tokens@.skip(i as int).drop_first() =~= tokens@.skip(i + 1));
            }
            if self.check(tokens[i]) {
                self.bump();
                return Some(tokens[i]);
            }
            i = i + 1;
        }
        proof {
            assert(tokens@.skip(i as int) =~= Seq::<SimpleToken>::empty());
        }
        None
    }

    fn emit(&mut self, expr: Expr) -> (id: ExprID)
        requires
            old(self).inv(),
            expr_below(expr@, old(self).exprs@.len() as int),
        ensures
            final(self).inv(),
            final(self).same_input(old(self)),
            (id, final(self).st()) == emit(old(self).st(), expr@),
            extends(old(self).st(), final(self).st()),
            id < final(self).st().exprs.len(),
    {
        let ghost e = expr@;
        let id = self.exprs.len();
        self.exprs.push(expr);
        proof {
            reveal(arenas_ordered);
            reveal(stmt_within);
            let ex0 = view_exprs(old(self).exprs@);
            let ex = view_exprs(self.exprs@);
            assert(ex =~= ex0.push(e));
            if self.track@ {
                assert forall|i: int| 0 <= i < ex.len() implies #[trigger] expr_below(ex[i], i) by {
                    if i < ex0.len() {
                        assert(ex[i] == ex0[i]);
                    }
                }
                let sts = view_stmts(self.stmts@);
                assert forall|j: int| 0 <= j < sts.len() implies #[trigger] stmt_within(
                    sts[j],
                    ex.len() as int,
                    j,
                ) by {
                    assert(stmt_within(sts[j], ex0.len() as int, j));
                }
            }
        }
        id
    }

    fn emit_statment(&mut self, statement: Statement) -> (id: StatementID)
        requires
            old(self).inv(),
            stmt_fits(*old(self), statement@),
        ensures
            final(self).inv(),
            final(self).same_input(old(self)),
            (id, final(self).st()) == emit_statement(old(self).st(), statement@),
            extends(old(self).st(), final(self).st()),
    {
        let ghost s = statement@;
        let id = self.stmts.len();
        self.stmts.push(statement);
        proof {
            reveal(arenas_ordered);
            let sts0 = view_stmts(old(self).stmts@);
            let sts = view_stmts(self.stmts@);
            assert(sts =~= sts0.push(s));
            if self.track@ {
                let ne = view_exprs(self.exprs@).len() as int;
                assert forall|j: int| 0 <= j < sts.len() implies #[trigger] stmt_within(
                    sts[j],
                    ne,
                    j,
                ) by {
                    if j < sts0.len() {
                        assert(sts[j] == sts0[j]);
                    }
                }
            }
        }
        id
    }

    /// Appends a literal located at the token just taken.
    fn emit_primary(&mut self, primary: Primary) -> (id: ExprID)
        requires
            old(self).inv(),
            old(self).current_index >= 1,
        ensures
            final(self).inv(),
            final(self).same_input(old(self)),
            (id, final(self).st()) == emit_primary(old(self).ts(), old(self).st(), primary@),
            extends(old(self).st(), final(self).st()),
            id < final(self).st().exprs.len(),
    {
        let span = self.tokens.tokens[self.current_index - 1].span;
        self.emit(Expr::Terminal(LocatedPrimary { inner: primary, span }))
    }
}

impl ASTBuilder {
    fn primary(&mut self) -> (r: Result<ExprID, Halt>)
        requires
            old(self).inv(),
        ensures
            took(*old(self), *final(self), r, sp_primary(old(self).ts(), old(self).st())),
            parsed_expr(*old(self), *final(self), r),
        decreases old(self).tokens@.len() - old(self).current_index, 30int,
    {
        proof {
            reveal_with_fuel(sp_match, 2);
        }
        if self.my_match(&[SimpleToken::LeftParen]).is_some() {
            let expression = match self.expression() {
                Ok(e) => e,
                Err(e) => return Err(e),
            };
            match self.consume(SimpleToken::RightParen) {
                Ok(_) => {},
                Err(e) => return Err(e),
            }
            return Ok(expression);
        }
        let kind = match self.advance() {
            Ok(k) => k,
            Err(e) => return Err(e),
        };
        match kind {
            TokenKind::Single(SimpleToken::KeyWord(KeyWordType::MySelf)) => Ok(
                self.emit_primary(Primary::MySelf),
            ),
            TokenKind::Single(SimpleToken::KeyWord(KeyWordType::False)) => Ok(
                self.emit_primary(Primary::Boolean(false)),
            ),
            TokenKind::Single(SimpleToken::KeyWord(KeyWordType::True)) => Ok(
                self.emit_primary(Primary::Boolean(true)),
            ),
            TokenKind::Single(SimpleToken::KeyWord(KeyWordType::Nil)) => Ok(
                self.emit_primary(Primary::Nil),
            ),
            TokenKind::Single(_) => Err(
                Halt::Error(ASTError::ExpectedExpression(self.token_at(self.current_index - 1))),
            ),
            TokenKind::Identifier(s) => Ok(self.emit_primary(Primary::Identifier(s))),
            TokenKind::StringLitteral(s) => Ok(self.emit_primary(Primary::String(s))),
            TokenKind::Number(n) => Ok(self.emit_primary(Primary::Number(n))),
            TokenKind::Comment(_) => Err(
                Halt::Error(ASTError::ExpectedExpression(self.token_at(self.current_index - 1))),
            ),
        }
    }

    /// A primary that must be a name: the name.
    fn get_identifier_string(&mut self) -> (r: Result<String, Halt>)
        requires
            old(self).inv(),
        ensures
            took(*old(self), *final(self), r, sp_identifier(old(self).ts(), old(self).st())),
            r is Ok ==> old(self).current_index < final(self).current_index,
        decreases old(self).tokens@.len() - old(self).current_index, 32int,
    {
        let id = match self.primary() {
            Ok(id) => id,
            Err(e) => return Err(e),
        };
        let name = match &self.exprs[id] {
            Expr::Terminal(located_primary) => match &located_primary.inner {
                Primary::Identifier(s) => Some(s.clone()),
                _ => None,
            },
            _ => None,
        };
        match name {
            Some(s) => Ok(s),
            None => Err(Halt::Error(ASTError::ExpectedIdentifier(self.token_at(self.current_index - 1)))),
        }
    }

    /// The arguments of a call after its `(`, up to `)`: the call.
    fn call_arguments(&mut self, func: ExprID) -> (r: Result<ExprID, Halt>)
        requires
            old(self).inv(),
            func < old(self).st().exprs.len(),
        ensures
            took(
                *old(self),
                *final(self),
                r,
                sp_call_args(old(self).ts(), old(self).st(), func, Seq::empty()),
            ),
            parsed_expr(*old(self), *final(self), r),
        decreases old(self).tokens@.len() - old(self).current_index, 110int,
    {
        let ghost ts = self.ts();
        let ghost st0 = self.st();
        let ghost goal = sp_call_args(ts, st0, func, Seq::empty());
        let mut arguments: Vec<ExprID> = Vec::new();
        loop
            invariant
                self.inv(),
                self.same_input(old(self)),
                ts == self.ts(),
                st0 == old(self).st(),
                goal == sp_call_args(ts, st0, func, Seq::empty()),
                extends(st0, self.st()),
                st0.pos <= self.st().pos,
                sp_call_args(ts, self.st(), func, arguments@) == goal,
                func < self.st().exprs.len(),
                forall|k: int| 0 <= k < arguments@.len() ==> arguments@[k] < self.st().exprs.len(),
            decreases self.tokens@.len() - self.current_index,
        {
            proof {
                reveal_with_fuel(sp_match, 2);
            }
            if self.my_match(&[SimpleToken::RightParen]).is_some() {
                let call = self.emit(
                    Expr::FunctionCall(FunctionCall { func, arguments: Vec::new() }),
                );
                return Ok(call);
            }
            let argument = match self.expression() {
                Ok(e) => e,
                Err(e) => return Err(e),
            };
            arguments.push(argument);
            if arguments.len() > 255 {
                return Err(Halt::Error(ASTError::TooManyArguments));
            }
            if self.my_match(&[SimpleToken::RightParen]).is_some() {
                let call = self.emit(Expr::FunctionCall(FunctionCall { func, arguments }));
                return Ok(call);
            }
            match self.consume(SimpleToken::Comma) {
                Ok(_) => {},
                Err(e) => return Err(e),
            }
        }
    }

    /// call → primary ( "(" arguments? ")" | "." IDENTIFIER )*
    fn function_call(&mut self) -> (r: Result<ExprID, Halt>)
        requires
            old(self).inv(),
        ensures
            took(*old(self), *final(self), r, sp_function_call(old(self).ts(), old(self).st())),
            parsed_expr(*old(self), *final(self), r),
        decreases old(self).tokens@.len() - old(self).current_index, 41int,
    {
        let ghost ts = self.ts();
        let ghost st0 = self.st();
        let ghost goal = sp_function_call(ts, st0);
        let mut left = match self.primary() {
            Ok(l) => l,
            Err(e) => return Err(e),
        };
        loop
            invariant
                self.inv(),
                self.same_input(old(self)),
                ts == self.ts(),
                st0 == old(self).st(),
                goal == sp_function_call(ts, st0),
                extends(st0, self.st()),
                st0.pos < self.st().pos,
                left < self.st().exprs.len(),
                sp_call_rest(ts, self.st(), left) == goal,
            decreases self.tokens@.len() - self.current_index,
        {
            proof {
                reveal_with_fuel(sp_match, 3);
            }
            let last = self.my_match(&[SimpleToken::LeftParen, SimpleToken::Dot]);
            match last {
                None => return Ok(left),
                Some(SimpleToken::LeftParen) => {
                    left = match self.call_arguments(left) {
                        Ok(call) => call,
                        Err(e) => return Err(e),
                    };
                },
                Some(_) => {
                    let right = match self.get_identifier_string() {
                        Ok(name) => name,
                        Err(e) => return Err(e),
                    };
                    left = self.emit(Expr::Get(left, right));
                },
            }
        }
    }

    /// unary → ( "!" | "-" ) unary | call
    fn unary(&mut self) -> (r: Result<ExprID, Halt>)
        requires
            old(self).inv(),
        ensures
            took(*old(self), *final(self), r, sp_unary(old(self).ts(), old(self).st())),
            parsed_expr(*old(self), *final(self), r),
        decreases old(self).tokens@.len() - old(self).current_index, 42int,
    {
        proof {
            reveal_with_fuel(sp_match, 3);
        }
        match self.my_match(&[SimpleToken::Bang, SimpleToken::Minus]) {
            Some(p) => {
                let expr = match self.unary() {
                    Ok(e) => e,
                    Err(e) => return Err(e),
                };
                if p == SimpleToken::Bang {
                    Ok(self.emit(Expr::Unary(Unary::Not(expr))))
                } else {
                    Ok(self.emit(Expr::Unary(Unary::Minus(expr))))
                }
            },
            None => self.function_call(),
        }
    }

    /// factor → unary ( ( "*" | "/" ) unary )*
    fn factor(&mut self) -> (r: Result<ExprID, Halt>)
        requires
            old(self).inv(),
        ensures
            took(*old(self), *final(self), r, sp_factor(old(self).ts(), old(self).st())),
            parsed_expr(*old(self), *final(self), r),
        decreases old(self).tokens@.len() - old(self).current_index, 44int,
    {
        let ghost ts = self.ts();
        let ghost st0 = self.st();
        let ghost goal = sp_factor(ts, st0);
        let mut left = match self.unary() {
            Ok(l) => l,
            Err(e) => return Err(e),
        };
        loop
            invariant
                self.inv(),
                self.same_input(old(self)),
                ts == self.ts(),
                st0 == old(self).st(),
                goal == sp_factor(ts, st0),
                extends(st0, self.st()),
                st0.pos < self.st().pos,
                left < self.st().exprs.len(),
                sp_factor_rest(ts, self.st(), left) == goal,
            decreases self.tokens@.len() - self.current_index,
        {
            proof {
                reveal_with_fuel(sp_match, 3);
            }
            let operator = match self.my_match(&[SimpleToken::Star, SimpleToken::Slash]) {
                None => return Ok(left),
                Some(SimpleToken::Slash) => Operator::Slash,
                Some(_) => Operator::Star,
            };
            let right = match self.unary() {
                Ok(e) => e,
                Err(e) => return Err(e),
            };
            left = self.emit(Expr::Binary(Binary { left, operator, right }));
        }
    }

    /// term → factor ( ( "+" | "-" ) factor )*
    fn term(&mut self) -> (r: Result<ExprID, Halt>)
        requires
            old(self).inv(),
        ensures
            took(*old(self), *final(self), r, sp_term(old(self).ts(), old(self).st())),
            parsed_expr(*old(self), *final(self), r),
        decreases old(self).tokens@.len() - old(self).current_index, 46int,
    {
        let ghost ts = self.ts();
        let ghost st0 = self.st();
        let ghost goal = sp_term(ts, st0);
        let mut left = match self.factor() {
            Ok(l) => l,
            Err(e) => return Err(e),
        };
        loop
            invariant
                self.inv(),
                self.same_input(old(self)),
                ts == self.ts(),
                st0 == old(self).st(),
                goal == sp_term(ts, st0),
                extends(st0, self.st()),
                st0.pos < self.st().pos,
                left < self.st().exprs.len(),
                sp_term_rest(ts, self.st(), left) == goal,
            decreases self.tokens@.len() - self.current_index,
        {
            proof {
                reveal_with_fuel(sp_match, 3);
            }
            let operator = match self.my_match(&[SimpleToken::Plus, SimpleToken::Minus]) {
                None => return Ok(left),
                Some(SimpleToken::Minus) => Operator::Minus,
                Some(_) => Operator::Plus,
            };
            let right = match self.factor() {
                Ok(e) => e,
                Err(e) => return Err(e),
            };
            left = self.emit(Expr::Binary(Binary { left, operator, right }));
        }
    }

    /// comparison → term ( ( ">" | ">=" | "<" | "<=" ) term )*
    fn comparison(&mut self) -> (r: Result<ExprID, Halt>)
        requires
            old(self).inv(),
        ensures
            took(*old(self), *final(self), r, sp_comparison(old(self).ts(), old(self).st())),
            parsed_expr(*old(self), *final(self), r),
        decreases old(self).tokens@.len() - old(self).current_index, 48int,
    {
        let ghost ts = self.ts();
        let ghost st0 = self.st();
        let ghost goal = sp_comparison(ts, st0);
        let mut left = match self.term() {
            Ok(l) => l,
            Err(e) => return Err(e),
        };
        loop
            invariant
                self.inv(),
                self.same_input(old(self)),
                ts == self.ts(),
                st0 == old(self).st(),
                goal == sp_comparison(ts, st0),
                extends(st0, self.st()),
                st0.pos < self.st().pos,
                left < self.st().exprs.len(),
                sp_comparison_rest(ts, self.st(), left) == goal,
            decreases self.tokens@.len() - self.current_index,
        {
            proof {
                reveal_with_fuel(sp_match, 5);
            }
            let operator = match self.my_match(
                &[
                    SimpleToken::Greater,
                    SimpleToken::GreaterEqual,
                    SimpleToken::Less,
                    SimpleToken::LessEqual,
                ],
            ) {
                None => return Ok(left),
                Some(SimpleToken::Greater) => Operator::Greater,
                Some(SimpleToken::GreaterEqual) => Operator::GreaterEqual,
                Some(SimpleToken::Less) => Operator::Lesser,
                Some(_) => Operator::LesserEqual,
            };
            let right = match self.term() {
                Ok(e) => e,
                Err(e) => return Err(e),
            };
            left = self.emit(Expr::Binary(Binary { left, operator, right }));
        }
    }

    /// equality → comparison ( ( "==" | "!=" ) comparison )*
    fn equality(&mut self) -> (r: Result<ExprID, Halt>)
        requires
            old(self).inv(),
        ensures
            took(*old(self), *final(self), r, sp_equality(old(self).ts(), old(self).st())),
            parsed_expr(*old(self), *final(self), r),
        decreases old(self).tokens@.len() - old(self).current_index, 50int,
    {
        let ghost ts = self.ts();
        let ghost st0 = self.st();
        let ghost goal = sp_equality(ts, st0);
        let mut left = match self.comparison() {
            Ok(l) => l,
            Err(e) => return Err(e),
        };
        loop
            invariant
                self.inv(),
                self.same_input(old(self)),
                ts == self.ts(),
                st0 == old(self).st(),
                goal == sp_equality(ts, st0),
                extends(st0, self.st()),
                st0.pos < self.st().pos,
                left < self.st().exprs.len(),
                sp_equality_rest(ts, self.st(), left) == goal,
            decreases self.tokens@.len() - self.current_index,
        {
            proof {
                reveal_with_fuel(sp_match, 3);
            }
            let operator = match self.my_match(
                &[SimpleToken::EqualEqual, SimpleToken::BangEqual],
            ) {
                None => return Ok(left),
                Some(SimpleToken::BangEqual) => Operator::NotEqual,
                Some(_) => Operator::Equal,
            };
            let right = match self.comparison() {
                Ok(e) => e,
                Err(e) => return Err(e),
            };
            left = self.emit(Expr::Binary(Binary { left, operator, right }));
        }
    }

    /// logical_or → equality ( "|" logical_or )*
    fn logical_or(&mut self) -> (r: Result<ExprID, Halt>)
        requires
            old(self).inv(),
        ensures
            took(*old(self), *final(self), r, sp_logical_or(old(self).ts(), old(self).st())),
            parsed_expr(*old(self), *final(self), r),
        decreases old(self).tokens@.len() - old(self).current_index, 52int,
    {
        let ghost ts = self.ts();
        let ghost st0 = self.st();
        let ghost goal = sp_logical_or(ts, st0);
        let mut left = match self.equality() {
            Ok(l) => l,
            Err(e) => return Err(e),
        };
        loop
            invariant
                self.inv(),
                self.same_input(old(self)),
                ts == self.ts(),
                st0 == old(self).st(),
                goal == sp_logical_or(ts, st0),
                extends(st0, self.st()),
                st0.pos < self.st().pos,
                left < self.st().exprs.len(),
                sp_or_rest(ts, self.st(), left) == goal,
            decreases self.tokens@.len() - self.current_index,
        {
            proof {
                reveal_with_fuel(sp_match, 2);
            }
            if self.my_match(&[SimpleToken::Or]).is_none() {
                return Ok(left);
            }
            let right = match self.logical_or() {
                Ok(e) => e,
                Err(e) => return Err(e),
            };
            left = self.emit(Expr::LogicalOr(LogicalOr { left, right }));
        }
    }

    /// logical_and → logical_or ( "&" logical_and )*
    fn logical_and(&mut self) -> (r: Result<ExprID, Halt>)
        requires
            old(self).inv(),
        ensures
            took(*old(self), *final(self), r, sp_logical_and(old(self).ts(), old(self).st())),
            parsed_expr(*old(self), *final(self), r),
        decreases old(self).tokens@.len() - old(self).current_index, 54int,
    {
        let ghost ts = self.ts();
        let ghost st0 = self.st();
        let ghost goal = sp_logical_and(ts, st0);
        let mut left = match self.logical_or() {
            Ok(l) => l,
            Err(e) => return Err(e),
        };
        loop
            invariant
                self.inv(),
                self.same_input(old(self)),
                ts == self.ts(),
                st0 == old(self).st(),
                goal == sp_logical_and(ts, st0),
                extends(st0, self.st()),
                st0.pos < self.st().pos,
                left < self.st().exprs.len(),
                sp_and_rest(ts, self.st(), left) == goal,
            decreases self.tokens@.len() - self.current_index,
        {
            proof {
                reveal_with_fuel(sp_match, 2);
            }
            if self.my_match(&[SimpleToken::And]).is_none() {
                return Ok(left);
            }
            let right = match self.logical_and() {
                Ok(e) => e,
                Err(e) => return Err(e),
            };
            left = self.emit(Expr::LogicalAnd(LogicalAnd { left, right }));
        }
    }

    /// assignment → logical_and ( "=" expression )?
    fn assignment(&mut self) -> (r: Result<ExprID, Halt>)
        requires
            old(self).inv(),
        ensures
            took(*old(self), *final(self), r, sp_assignment(old(self).ts(), old(self).st())),
            parsed_expr(*old(self), *final(self), r),
        decreases old(self).tokens@.len() - old(self).current_index, 56int,
    {
        proof {
            reveal_with_fuel(sp_match, 2);
        }
        let left = match self.logical_and() {
            Ok(l) => l,
            Err(e) => return Err(e),
        };
        if self.my_match(&[SimpleToken::Equal]).is_some() {
            let right = match self.expression() {
                Ok(e) => e,
                Err(e) => return Err(e),
            };
            let assignable = match &self.exprs[left] {
                Expr::Terminal(located_primary) => match &located_primary.inner {
                    Primary::Identifier(_) => true,
                    _ => false,
                },
                Expr::Get(_, _) => true,
                _ => false,
            };
            if assignable {
                return Ok(self.emit(Expr::Assignment(left, right)));
            } else {
                return Err(Halt::Error(ASTError::RValueAssignment(left)));
            }
        }
        Ok(left)
    }

    /// expression → assignment
    fn expression(&mut self) -> (r: Result<ExprID, Halt>)
        requires
            old(self).inv(),
        ensures
            took(*old(self), *final(self), r, sp_expression(old(self).ts(), old(self).st())),
            parsed_expr(*old(self), *final(self), r),
        decreases old(self).tokens@.len() - old(self).current_index, 60int,
    {
        self.binary_error_production()
    }

    /// An expression may not start with a binary operator: that is reported
    /// as an operator without a left side.
    fn binary_error_production(&mut self) -> (r: Result<ExprID, Halt>)
        requires
            old(self).inv(),
        ensures
            took(*old(self), *final(self), r, sp_expression(old(self).ts(), old(self).st())),
            parsed_expr(*old(self), *final(self), r),
        decreases old(self).tokens@.len() - old(self).current_index, 58int,
    {
        proof {
            reveal_with_fuel(sp_match, 11);
        }
        if self.my_match(
            &[
                SimpleToken::Plus,
                SimpleToken::Equal,
                SimpleToken::BangEqual,
                SimpleToken::Less,
                SimpleToken::LessEqual,
                SimpleToken::Greater,
                SimpleToken::GreaterEqual,
                SimpleToken::Star,
                SimpleToken::Slash,
                SimpleToken::Equal,
            ],
        ).is_some() {
            return Err(Halt::Error(ASTError::BinaryNoLeft(self.token_at(self.current_index - 1))));
        }
        self.assignment()
    }
}

} // verus!

verus! {

pub open spec fn view_decls(v: Seq<Declaration>) -> Seq<SpecDeclaration> {
    v.map_values(|d: Declaration| d@)
}

pub open spec fn view_fns(v: Seq<FunctionDefinition>) -> Seq<SpecFunctionDefinition> {
    v.map_values(|f: FunctionDefinition| f@)
}

pub open spec fn view_branches(v: Seq<(ExprID, Statement)>) -> Seq<(ExprID, SpecStatement)> {
    v.map_values(|b: (ExprID, Statement)| (b.0, b.1@))
}

pub proof fn lemma_block_view(v: Vec<Declaration>)
    ensures
        Statement::Block(v)@ == SpecStatement::Block(view_decls(v@)),
{
    let s = Statement::Block(v);
    assert(s@ == view_statement(s));
    match view_statement(s) {
        SpecStatement::Block(d) => assert(d =~= view_decls(v@)),
        _ => {},
    }
}

pub proof fn lemma_if_view(v: Vec<(ExprID, Statement)>, other: Option<StatementID>)
    ensures
        Statement::IfStatement(v, other)@ == SpecStatement::IfStatement(view_branches(v@), other),
{
    let s = Statement::IfStatement(v, other);
    assert(s@ == view_statement(s));
    match view_statement(s) {
        SpecStatement::IfStatement(b, _) => assert(b =~= view_branches(v@)),
        _ => {},
    }
}

pub proof fn lemma_class_view(c: ClassDefinition)
    ensures
        Declaration::ClassDefinition(c)@ == SpecDeclaration::ClassDefinition(
            SpecClassDefinition {
                name: c.name@,
                fields: view_strings(c.fields@),
                functions: view_fns(c.functions@),
                constructor: c.constructor@,
            },
        ),
{
    let d = Declaration::ClassDefinition(c);
    assert(d@ == view_declaration(d));
    match view_declaration(d) {
        SpecDeclaration::ClassDefinition(sc) => assert(sc.functions =~= view_fns(c.functions@)),
        _ => {},
    }
}

/// What a class holds, as the parser gathers it.
struct Members {
    fields: Vec<String>,
    functions: Vec<FunctionDefinition>,
    constructor: Option<FunctionDefinition>,
}

impl View for Members {
    type V = ClassMembers;

    closed spec fn view(&self) -> ClassMembers {
        ClassMembers {
            fields: view_strings(self.fields@),
            functions: view_fns(self.functions@),
            constructor: match self.constructor {
                Some(f) => Some(f@),
                None => None,
            },
        }
    }
}

/// Each method of `m` fits the arenas of `b`.
pub open spec fn members_fit(b: ASTBuilder, m: ClassMembers) -> bool {
    &&& forall|k: int|
        #![trigger m.functions[k]]
        0 <= k < m.functions.len() ==> stmt_fits(b, m.functions[k].statement)
    &&& m.constructor matches Some(c) ==> stmt_fits(b, c.statement)
}

proof fn lemma_members_grow(b0: ASTBuilder, b1: ASTBuilder, m: ClassMembers)
    requires
        b1.tracks() == b0.tracks(),
        b0.st().exprs.len() <= b1.st().exprs.len(),
        b0.st().stmts.len() <= b1.st().stmts.len(),
        members_fit(b0, m),
    ensures
        members_fit(b1, m),
{
    lemma_grow(b0, b1);
    assert forall|k: int| 0 <= k < m.functions.len() implies stmt_fits(
        b1,
        m.functions[k].statement,
    ) by {
        assert(stmt_fits(b0, m.functions[k].statement));
    }
}

proof fn lemma_members_add(b: ASTBuilder, m: ClassMembers, f: SpecFunctionDefinition)
    requires
        members_fit(b, m),
        stmt_fits(b, f.statement),
    ensures
        members_fit(b, ClassMembers { functions: m.functions.push(f), ..m }),
        members_fit(b, ClassMembers { constructor: Some(f), ..m }),
{
    let fs = m.functions.push(f);
    assert forall|k: int| 0 <= k < fs.len() implies stmt_fits(b, fs[k].statement) by {
        if k < m.functions.len() {
            assert(fs[k] == m.functions[k]);
        }
    }
}

impl ASTBuilder {
    /// declaration → ";"* ( COMMENT | vardecl ";" | fn_def | class_def | statement )
    fn declaration(&mut self) -> (r: Result<Declaration, Halt>)
        requires
            old(self).inv(),
        ensures
            took(*old(self), *final(self), r, sp_declaration(old(self).ts(), old(self).st())),
            r matches Ok(d) ==> decl_fits(*final(self), d@),
            r is Ok ==> old(self).current_index < final(self).current_index
                || final(self).current_index == final(self).tokens@.len(),
        decreases old(self).tokens@.len() - old(self).current_index, 100int,
    {
        let ghost ts = self.ts();
        let ghost st0 = self.st();
        while self.check(SimpleToken::SemiColon)
            invariant
                self.inv(),
                self.same_input(old(self)),
                ts == self.ts(),
                st0 == old(self).st(),
                self.exprs == old(self).exprs,
                self.stmts == old(self).stmts,
                st0.pos <= self.st().pos,
                skip_semicolons(ts, self.st()) == skip_semicolons(ts, st0),
            decreases self.tokens@.len() - self.current_index,
        {
            self.bump();
        }
        if self.is_last() {
            proof {
                lemma_decl_fits(*self, SpecDeclaration::Empty);
            }
            return Ok(Declaration::Empty);
        }
        let comment = match &self.tokens.tokens[self.current_index].kind {
            TokenKind::Comment(s) => Some(s.clone()),
            _ => None,
        };
        if let Some(text) = comment {
            self.bump();
            proof {
                lemma_decl_fits(*self, SpecDeclaration::Comment(text@));
            }
            return Ok(Declaration::Comment(text));
        }
        if self.check(SimpleToken::KeyWord(KeyWordType::Var)) {
            let d = match self.vardecl() {
                Ok(d) => d,
                Err(e) => return Err(e),
            };
            match self.consume(SimpleToken::SemiColon) {
                Ok(_) => {},
                Err(e) => return Err(e),
            }
            Ok(d)
        } else if self.check(SimpleToken::KeyWord(KeyWordType::Fun)) {
            match self.function_def() {
                Ok(f) => {
                    proof {
                        lemma_decl_fits(*self, SpecDeclaration::FunctionDefinition(f@));
                    }
                    Ok(Declaration::FunctionDefinition(f))
                },
                Err(e) => Err(e),
            }
        } else if self.check(SimpleToken::KeyWord(KeyWordType::Class)) {
            self.class_definition()
        } else {
            match self.statement() {
                Ok(s) => {
                    proof {
                        lemma_decl_fits(*self, SpecDeclaration::Statement(s@));
                    }
                    Ok(Declaration::Statement(s))
                },
                Err(e) => Err(e),
            }
        }
    }

    /// class_def → "class" IDENTIFIER "{" member* "}"
    fn class_definition(&mut self) -> (r: Result<Declaration, Halt>)
        requires
            old(self).inv(),
        ensures
            took(*old(self), *final(self), r, sp_class_definition(old(self).ts(), old(self).st())),
            r matches Ok(d) ==> decl_fits(*final(self), d@),
            r is Ok ==> old(self).current_index < final(self).current_index,
        decreases old(self).tokens@.len() - old(self).current_index, 95int,
    {
        match self.advance() {
            Ok(_) => {},
            Err(e) => return Err(e),
        }
        let name = match self.get_identifier_string() {
            Ok(n) => n,
            Err(e) => return Err(e),
        };
        match self.consume(SimpleToken::LeftBrace) {
            Ok(_) => {},
            Err(e) => return Err(e),
        }
        let members = match self.class_members(&name) {
            Ok(m) => m,
            Err(e) => return Err(e),
        };
        match members.constructor {
            None => Err(Halt::Error(ASTError::NoConstructor(name))),
            Some(constructor) => {
                let c = ClassDefinition {
                    name,
                    fields: members.fields,
                    functions: members.functions,
                    constructor,
                };
                proof {
                    lemma_class_fits(
                        *self,
                        SpecClassDefinition {
                            name: c.name@,
                            fields: view_strings(c.fields@),
                            functions: view_fns(c.functions@),
                            constructor: c.constructor@,
                        },
                    );
                    lemma_class_view(c);
                }
                Ok(Declaration::ClassDefinition(c))
            },
        }
    }

    /// The members of the class `name`, up to its `}`.
    fn class_members(&mut self, name: &String) -> (r: Result<Members, Halt>)
        requires
            old(self).inv(),
        ensures
            took(
                *old(self),
                *final(self),
                r,
                sp_class_members(
                    old(self).ts(),
                    old(self).st(),
                    name@,
                    ClassMembers {
                        fields: Seq::empty(),
                        functions: Seq::empty(),
                        constructor: None,
                    },
                ),
            ),
            r matches Ok(m) ==> members_fit(*final(self), m@),
        decreases old(self).tokens@.len() - old(self).current_index, 110int,
    {
        let ghost ts = self.ts();
        let ghost st0 = self.st();
        let ghost goal = sp_class_members(
            ts,
            st0,
            name@,
            ClassMembers { fields: Seq::empty(), functions: Seq::empty(), constructor: None },
        );
        let mut members = Members {
            fields: Vec::new(),
            functions: Vec::new(),
            constructor: None,
        };
        proof {
            assert(members@.fields =~= Seq::empty());
            assert(members@.functions =~= Seq::empty());
        }
        loop
            invariant
                self.inv(),
                self.same_input(old(self)),
                ts == self.ts(),
                st0 == old(self).st(),
                extends(st0, self.st()),
                st0.pos <= self.st().pos,
                goal == sp_class_members(
                    ts,
                    st0,
                    name@,
                    ClassMembers {
                        fields: Seq::empty(),
                        functions: Seq::empty(),
                        constructor: None,
                    },
                ),
                sp_class_members(ts, self.st(), name@, members@) == goal,
                members_fit(*self, members@),
            decreases self.tokens@.len() - self.current_index,
        {
            proof {
                reveal_with_fuel(sp_match, 2);
            }
            if self.my_match(&[SimpleToken::RightBrace]).is_some() {
                return Ok(members);
            }
            let ghost b0 = *self;
            if self.check(SimpleToken::KeyWord(KeyWordType::Fun)) {
                let function_def = match self.function_def() {
                    Ok(f) => f,
                    Err(e) => return Err(e),
                };
                proof {
                    lemma_members_grow(b0, *self, members@);
                    lemma_members_add(*self, members@, function_def@);
                }
                if function_def.name == *name {
                    members.constructor = Some(function_def);
                } else {
                    let ghost before = members.functions@;
                    let ghost f = function_def@;
                    members.functions.push(function_def);
                    proof {
                        assert(view_fns(members.functions@) =~= view_fns(before).push(f));
                    }
                }
            } else if self.check(SimpleToken::KeyWord(KeyWordType::Var)) {
                self.bump();
                let field = match self.get_identifier_string() {
                    Ok(f) => f,
                    Err(e) => return Err(e),
                };
                proof {
                    lemma_members_grow(b0, *self, members@);
                }
                match self.consume(SimpleToken::SemiColon) {
                    Ok(_) => {},
                    Err(e) => return Err(e),
                }
                let ghost before = members.fields@;
                let ghost fv = field@;
                members.fields.push(field);
                proof {
                    assert(view_strings(members.fields@) =~= view_strings(before).push(fv));
                }
            } else {
                if self.is_last() {
                    return Err(Halt::PastEnd);
                }
                let t = self.token_at(self.current_index);
                let mut expected = Vec::new();
                expected.push(SimpleToken::KeyWord(KeyWordType::Fun));
                expected.push(SimpleToken::KeyWord(KeyWordType::Var));
                proof {
                    assert(expected@ =~= seq![
                        SimpleToken::KeyWord(KeyWordType::Fun),
                        SimpleToken::KeyWord(KeyWordType::Var),
                    ]);
                }
                return Err(Halt::Error(ASTError::TokenError(t, expected)));
            }
        }
    }

    /// fn_def → "fn" IDENTIFIER "(" parameters ")" block
    fn function_def(&mut self) -> (r: Result<FunctionDefinition, Halt>)
        requires
            old(self).inv(),
        ensures
            took(*old(self), *final(self), r, sp_function_def(old(self).ts(), old(self).st())),
            r matches Ok(f) ==> stmt_fits(*final(self), f@.statement),
            r is Ok ==> old(self).current_index < final(self).current_index,
        decreases old(self).tokens@.len() - old(self).current_index, 95int,
    {
        match self.consume(SimpleToken::KeyWord(KeyWordType::Fun)) {
            Ok(_) => {},
            Err(e) => return Err(e),
        }
        let name = match self.get_identifier_string() {
            Ok(n) => n,
            Err(e) => return Err(e),
        };
        match self.consume(SimpleToken::LeftParen) {
            Ok(_) => {},
            Err(e) => return Err(e),
        }
        let arguments = match self.parameters() {
            Ok(a) => a,
            Err(e) => return Err(e),
        };
        let statement = match self.block() {
            Ok(b) => b,
            Err(e) => return Err(e),
        };
        Ok(FunctionDefinition { name, arguments, statement })
    }

    /// The parameters of a function after its `(`, up to `)`.
    fn parameters(&mut self) -> (r: Result<Vec<String>, Halt>)
        requires
            old(self).inv(),
        ensures
            final(self).inv(),
            final(self).same_input(old(self)),
            final(self).st() == sp_parameters(old(self).ts(), old(self).st(), Seq::empty()).st,
            extends(old(self).st(), final(self).st()),
            old(self).current_index < final(self).current_index || r is Err,
            old(self).current_index <= final(self).current_index,
            match r {
                Ok(v) => sp_parameters(old(self).ts(), old(self).st(), Seq::empty()).out
                    == Outcome::Value(view_strings(v@)),
                Err(h) => halts_as(h, sp_parameters(old(self).ts(), old(self).st(), Seq::empty()).out),
            },
    {
        let ghost ts = self.ts();
        let ghost st0 = self.st();
        let ghost goal = sp_parameters(ts, st0, Seq::empty());
        let mut arguments: Vec<String> = Vec::new();
        proof {
            assert(view_strings(arguments@) =~= Seq::empty());
        }
        loop
            invariant
                self.inv(),
                self.same_input(old(self)),
                ts == self.ts(),
                st0 == old(self).st(),
                extends(st0, self.st()),
                st0.pos <= self.st().pos,
                goal == sp_parameters(ts, st0, Seq::empty()),
                sp_parameters(ts, self.st(), view_strings(arguments@)) == goal,
            decreases self.tokens@.len() - self.current_index,
        {
            proof {
                reveal_with_fuel(sp_match, 2);
            }
            if self.my_match(&[SimpleToken::RightParen]).is_some() {
                return Ok(arguments);
            }
            let argument_name = match self.get_identifier_string() {
                Ok(n) => n,
                Err(e) => return Err(e),
            };
            let ghost before = arguments@;
            let ghost nv = argument_name@;
            arguments.push(argument_name);
            proof {
                assert(view_strings(arguments@) =~= view_strings(before).push(nv));
            }
            if self.is_last() {
                return Err(Halt::PastEnd);
            }
            if !self.check(SimpleToken::RightParen) {
                match self.consume(SimpleToken::Comma) {
                    Ok(_) => {},
                    Err(e) => return Err(e),
                }
            }
        }
    }

    /// block → "{" declaration* "}"
    fn block(&mut self) -> (r: Result<Statement, Halt>)
        requires
            old(self).inv(),
        ensures
            took(*old(self), *final(self), r, sp_block(old(self).ts(), old(self).st())),
            r matches Ok(st) ==> stmt_fits(*final(self), st@),
            r is Ok ==> old(self).current_index < final(self).current_index,
        decreases old(self).tokens@.len() - old(self).current_index, 75int,
    {
        let ghost ts = self.ts();
        let ghost st0 = self.st();
        let ghost goal = sp_block(ts, st0);
        match self.consume(SimpleToken::LeftBrace) {
            Ok(_) => {},
            Err(e) => return Err(e),
        }
        let mut declarations: Vec<Declaration> = Vec::new();
        proof {
            assert(view_decls(declarations@) =~= Seq::empty());
        }
        loop
            invariant
                self.inv(),
                self.same_input(old(self)),
                ts == self.ts(),
                st0 == old(self).st(),
                goal == sp_block(ts, st0),
                extends(st0, self.st()),
                st0.pos < self.st().pos,
                sp_block_items(ts, self.st(), view_decls(declarations@)) == goal,
                decls_fit(*self, declarations@),
            decreases self.tokens@.len() - self.current_index,
        {
            proof {
                reveal_with_fuel(sp_match, 2);
            }
            if self.my_match(&[SimpleToken::RightBrace]).is_some() {
                proof {
                    lemma_block_fits(*self, declarations@);
                    lemma_block_view(declarations);
                }
                return Ok(Statement::Block(declarations));
            }
            let ghost b0 = *self;
            let declaration = match self.declaration() {
                Ok(d) => d,
                Err(e) => return Err(e),
            };
            let ghost before = declarations@;
            let ghost dv = declaration@;
            let ghost dd = declaration;
            proof {
                lemma_decls_grow(b0, *self, before);
                lemma_decls_push(*self, before, dd);
            }
            declarations.push(declaration);
            proof {
                assert(view_decls(declarations@) =~= view_decls(before).push(dv));
            }
            if self.is_last() {
                return Err(Halt::Error(ASTError::Eof));
            }
        }
    }
}

} // verus!

verus! {

impl ASTBuilder {
    /// statement → print ";" | block | "if" ifstmt | "while" whilestmt | "break" ";"
    ///           | "continue" ";" | "return" expression? ";" | expression ";"
    #[verifier::rlimit(40)]
    fn statement(&mut self) -> (r: Result<Statement, Halt>)
        requires
            old(self).inv(),
        ensures
            took(*old(self), *final(self), r, sp_statement(old(self).ts(), old(self).st())),
            r matches Ok(st) ==> stmt_fits(*final(self), st@),
            r is Ok ==> old(self).current_index < final(self).current_index,
        decreases old(self).tokens@.len() - old(self).current_index, 80int,
    {
        proof {
            reveal_with_fuel(sp_match, 2);
        }
        if self.check(SimpleToken::KeyWord(KeyWordType::Print)) {
            let r = match self.print() {
                Ok(r) => r,
                Err(e) => return Err(e),
            };
            match self.consume(SimpleToken::SemiColon) {
                Ok(_) => {},
                Err(e) => return Err(e),
            }
            Ok(r)
        } else if self.check(SimpleToken::LeftBrace) {
            self.block()
        } else if self.my_match(&[SimpleToken::KeyWord(KeyWordType::If)]).is_some() {
            self.ifstmt()
        } else if self.my_match(&[SimpleToken::KeyWord(KeyWordType::While)]).is_some() {
            self.whilestmt()
        } else if self.my_match(&[SimpleToken::KeyWord(KeyWordType::Break)]).is_some() {
            let token = self.token_at(self.current_index - 1);
            match self.consume(SimpleToken::SemiColon) {
                Ok(_) => {},
                Err(e) => return Err(e),
            }
            proof {
                lemma_leaf_fits(*self, SpecStatement::Break(token@));
            }
            Ok(Statement::Break(token))
        } else if self.my_match(&[SimpleToken::KeyWord(KeyWordType::Continue)]).is_some() {
            let token = self.token_at(self.current_index - 1);
            match self.consume(SimpleToken::SemiColon) {
                Ok(_) => {},
                Err(e) => return Err(e),
            }
            proof {
                lemma_leaf_fits(*self, SpecStatement::Continue(token@));
            }
            Ok(Statement::Continue(token))
        } else if self.my_match(&[SimpleToken::KeyWord(KeyWordType::Return)]).is_some() {
            if self.is_last() {
                return Err(Halt::PastEnd);
            }
            let expr = if self.check(SimpleToken::SemiColon) {
                None
            } else {
                match self.expression() {
                    Ok(e) => Some(e),
                    Err(e) => return Err(e),
                }
            };
            match self.consume(SimpleToken::SemiColon) {
                Ok(_) => {},
                Err(e) => return Err(e),
            }
            proof {
                lemma_leaf_fits(*self, SpecStatement::Return(expr));
            }
            Ok(Statement::Return(expr))
        } else {
            let expression = match self.expression() {
                Ok(e) => e,
                Err(e) => return Err(e),
            };
            match self.consume(SimpleToken::SemiColon) {
                Ok(_) => {},
                Err(e) => return Err(e),
            }
            proof {
                lemma_leaf_fits(*self, SpecStatement::ExprStatement(expression));
            }
            Ok(Statement::ExprStatement(expression))
        }
    }

    /// A condition in parentheses, then a statement.
    fn guarded(&mut self) -> (r: Result<(ExprID, Statement), Halt>)
        requires
            old(self).inv(),
        ensures
            took(*old(self), *final(self), r, sp_guarded(old(self).ts(), old(self).st())),
            r matches Ok(g) ==> g.0 < final(self).st().exprs.len() && stmt_fits(*final(self), g.1@),
            r is Ok ==> old(self).current_index < final(self).current_index,
        decreases old(self).tokens@.len() - old(self).current_index, 65int,
    {
        match self.consume(SimpleToken::LeftParen) {
            Ok(_) => {},
            Err(e) => return Err(e),
        }
        let expr = match self.expression() {
            Ok(e) => e,
            Err(e) => return Err(e),
        };
        match self.consume(SimpleToken::RightParen) {
            Ok(_) => {},
            Err(e) => return Err(e),
        }
        match self.statement() {
            Ok(stmt) => Ok((expr, stmt)),
            Err(e) => Err(e),
        }
    }

    /// whilestmt (after "while") → "(" expression ")" statement
    fn whilestmt(&mut self) -> (r: Result<Statement, Halt>)
        requires
            old(self).inv(),
        ensures
            took(*old(self), *final(self), r, sp_whilestmt(old(self).ts(), old(self).st())),
            r matches Ok(st) ==> stmt_fits(*final(self), st@),
            r is Ok ==> old(self).current_index < final(self).current_index,
        decreases old(self).tokens@.len() - old(self).current_index, 71int,
    {
        let (expr, stmt) = match self.guarded() {
            Ok(g) => g,
            Err(e) => return Err(e),
        };
        let body = self.emit_statment(stmt);
        proof {
            lemma_leaf_fits(*self, SpecStatement::Whileloop(expr, body));
        }
        Ok(Statement::Whileloop(expr, body))
    }

    /// ifstmt (after "if") → "(" expression ")" statement elif* ( "else" statement )?
    fn ifstmt(&mut self) -> (r: Result<Statement, Halt>)
        requires
            old(self).inv(),
        ensures
            took(*old(self), *final(self), r, sp_ifstmt(old(self).ts(), old(self).st())),
            r matches Ok(st) ==> stmt_fits(*final(self), st@),
            r is Ok ==> old(self).current_index < final(self).current_index,
        decreases old(self).tokens@.len() - old(self).current_index, 70int,
    {
        let first = match self.guarded() {
            Ok(g) => g,
            Err(e) => return Err(e),
        };
        let ghost fv = first@;
        let ghost ff = first;
        let mut branches: Vec<(ExprID, Statement)> = Vec::new();
        proof {
            lemma_branches_push(*self, branches@, ff);
        }
        branches.push(first);
        proof {
            assert(view_branches(branches@) =~= seq![fv]);
        }
        let branches = match self.elifs(branches) {
            Ok(b) => b,
            Err(e) => return Err(e),
        };
        proof {
            reveal_with_fuel(sp_match, 2);
        }
        let ghost b1 = *self;
        if self.my_match(&[SimpleToken::KeyWord(KeyWordType::Else)]).is_some() {
            let stmt = match self.statement() {
                Ok(s) => s,
                Err(e) => return Err(e),
            };
            let other = self.emit_statment(stmt);
            proof {
                lemma_branches_grow(b1, *self, branches@);
                lemma_if_fits(*self, branches@, Some(other));
                lemma_if_view(branches, Some(other));
            }
            Ok(Statement::IfStatement(branches, Some(other)))
        } else {
            proof {
                lemma_branches_grow(b1, *self, branches@);
                lemma_if_fits(*self, branches@, None);
                lemma_if_view(branches, None);
            }
            Ok(Statement::IfStatement(branches, None))
        }
    }

    /// ( "elif" "(" expression ")" statement )*, after the branches found so far.
    fn elifs(&mut self, found: Vec<(ExprID, Statement)>) -> (r: Result<
        Vec<(ExprID, Statement)>,
        Halt,
    >)
        requires
            old(self).inv(),
            branches_fit(*old(self), found@),
        ensures
            r matches Ok(v) ==> branches_fit(*final(self), v@),
            final(self).inv(),
            final(self).same_input(old(self)),
            final(self).st() == sp_elifs(
                old(self).ts(),
                old(self).st(),
                view_branches(found@),
            ).st,
            extends(old(self).st(), final(self).st()),
            old(self).current_index <= final(self).current_index,
            match r {
                Ok(v) => sp_elifs(old(self).ts(), old(self).st(), view_branches(found@)).out
                    == Outcome::Value(view_branches(v@)),
                Err(h) => halts_as(h, sp_elifs(old(self).ts(), old(self).st(), view_branches(found@)).out),
            },
        decreases old(self).tokens@.len() - old(self).current_index, 110int,
    {
        let ghost ts = self.ts();
        let ghost st0 = self.st();
        let ghost start = view_branches(found@);
        let ghost goal = sp_elifs(ts, st0, start);
        let mut branches = found;
        loop
            invariant
                self.inv(),
                self.same_input(old(self)),
                ts == self.ts(),
                st0 == old(self).st(),
                extends(st0, self.st()),
                st0.pos <= self.st().pos,
                start == view_branches(found@),
                goal == sp_elifs(ts, st0, start),
                sp_elifs(ts, self.st(), view_branches(branches@)) == goal,
                branches_fit(*self, branches@),
            decreases self.tokens@.len() - self.current_index,
        {
            proof {
                reveal_with_fuel(sp_match, 2);
            }
            if self.my_match(&[SimpleToken::KeyWord(KeyWordType::Elif)]).is_none() {
                return Ok(branches);
            }
            let ghost b0 = *self;
            let branch = match self.guarded() {
                Ok(b) => b,
                Err(e) => return Err(e),
            };
            let ghost before = branches@;
            let ghost bv = branch@;
            let ghost bb = branch;
            proof {
                lemma_branches_grow(b0, *self, before);
                lemma_branches_push(*self, before, bb);
            }
            branches.push(branch);
            proof {
                assert(view_branches(branches@) =~= view_branches(before).push(bv));
            }
        }
    }

    /// vardecl → "var" IDENTIFIER "=" expression
    fn vardecl(&mut self) -> (r: Result<Declaration, Halt>)
        requires
            old(self).inv(),
        ensures
            took(*old(self), *final(self), r, sp_vardecl(old(self).ts(), old(self).st())),
            r matches Ok(d) ==> decl_fits(*final(self), d@),
            r is Ok ==> old(self).current_index < final(self).current_index,
        decreases old(self).tokens@.len() - old(self).current_index, 95int,
    {
        match self.consume(SimpleToken::KeyWord(KeyWordType::Var)) {
            Ok(_) => {},
            Err(e) => return Err(e),
        }
        let ident = match self.advance() {
            Ok(k) => k,
            Err(e) => return Err(e),
        };
        match self.consume(SimpleToken::Equal) {
            Ok(_) => {},
            Err(e) => return Err(e),
        }
        let right = match self.expression() {
            Ok(e) => e,
            Err(e) => return Err(e),
        };
        match ident {
            TokenKind::Identifier(s) => {
                proof {
                    lemma_decl_fits(*self, SpecDeclaration::VarDecl(s@, right));
                }
                Ok(Declaration::VarDecl(s, right))
            },
            _ => Err(Halt::Error(ASTError::ExpectedIdentifier(self.token_at(self.current_index - 3)))),
        }
    }

    /// print → "print" "(" expression ( "," expression )* ")"
    fn print(&mut self) -> (r: Result<Statement, Halt>)
        requires
            old(self).inv(),
        ensures
            took(*old(self), *final(self), r, sp_print(old(self).ts(), old(self).st())),
            r matches Ok(st) ==> stmt_fits(*final(self), st@),
            r is Ok ==> old(self).current_index < final(self).current_index,
        decreases old(self).tokens@.len() - old(self).current_index, 70int,
    {
        match self.consume(SimpleToken::KeyWord(KeyWordType::Print)) {
            Ok(_) => {},
            Err(e) => return Err(e),
        }
        match self.consume(SimpleToken::LeftParen) {
            Ok(_) => {},
            Err(e) => return Err(e),
        }
        let to_print = match self.print_items() {
            Ok(v) => v,
            Err(e) => return Err(e),
        };
        match self.consume(SimpleToken::RightParen) {
            Ok(_) => {},
            Err(e) => return Err(e),
        }
        proof {
            lemma_leaf_fits(*self, SpecStatement::PrintStatement(to_print@));
        }
        Ok(Statement::PrintStatement(to_print))
    }

    /// expression ( "," expression )*
    fn print_items(&mut self) -> (r: Result<Vec<ExprID>, Halt>)
        requires
            old(self).inv(),
        ensures
            took(
                *old(self),
                *final(self),
                r,
                sp_print_items(old(self).ts(), old(self).st(), Seq::empty()),
            ),
            r matches Ok(v) ==> forall|k: int|
                0 <= k < v@.len() ==> v@[k] < final(self).st().exprs.len(),
    {
        let ghost ts = self.ts();
        let ghost st0 = self.st();
        let ghost goal = sp_print_items(ts, st0, Seq::empty());
        let mut to_print: Vec<ExprID> = Vec::new();
        loop
            invariant
                self.inv(),
                self.same_input(old(self)),
                ts == self.ts(),
                st0 == old(self).st(),
                extends(st0, self.st()),
                st0.pos <= self.st().pos,
                goal == sp_print_items(ts, st0, Seq::empty()),
                sp_print_items(ts, self.st(), to_print@) == goal,
                forall|k: int| 0 <= k < to_print@.len() ==> to_print@[k] < self.st().exprs.len(),
            decreases self.tokens@.len() - self.current_index,
        {
            proof {
                reveal_with_fuel(sp_match, 2);
            }
            let item = match self.expression() {
                Ok(e) => e,
                Err(e) => return Err(e),
            };
            to_print.push(item);
            if self.my_match(&[SimpleToken::Comma]).is_none() {
                return Ok(to_print);
            }
        }
    }
}

} // verus!

verus! {

pub open spec fn view_errors(v: Seq<ASTError>) -> Seq<SpecASTError> {
    v.map_values(|e: ASTError| e@)
}

/// The grammar's `declaration`, kept folded where the whole parse is reasoned about.
#[verifier::opaque]
spec fn declaration_step(ts: Seq<SpecToken>, st: PState) -> Step<SpecDeclaration> {
    sp_declaration(ts, st)
}

proof fn lemma_parse_end(
    ts: Seq<SpecToken>,
    st: PState,
    roots: Seq<SpecDeclaration>,
    errors: Seq<SpecASTError>,
    recovery: bool,
)
    requires
        st.pos >= ts.len(),
    ensures
        sp_parse_from(ts, st, roots, errors, recovery) == ParseOutcome::Parsed(st, roots, errors),
{
    reveal(sp_parse_from);
}

proof fn lemma_parse_skip(
    ts: Seq<SpecToken>,
    st: PState,
    roots: Seq<SpecDeclaration>,
    errors: Seq<SpecASTError>,
)
    requires
        0 <= st.pos < ts.len(),
    ensures
        sp_parse_from(ts, st, roots, errors, true) == sp_parse_from(
            ts,
            bump(st),
            roots,
            errors,
            !is_single(ts, st, SimpleToken::SemiColon),
        ),
{
    reveal(sp_parse_from);
}

proof fn lemma_parse_declaration(
    ts: Seq<SpecToken>,
    st: PState,
    roots: Seq<SpecDeclaration>,
    errors: Seq<SpecASTError>,
)
    requires
        0 <= st.pos < ts.len(),
        st.pos < declaration_step(ts, st).st.pos <= ts.len() || !(declaration_step(
            ts,
            st,
        ).out is Value),
        st.pos <= declaration_step(ts, st).st.pos <= ts.len(),
    ensures
        sp_parse_from(ts, st, roots, errors, false) == match declaration_step(ts, st).out {
            Outcome::Value(d) => sp_parse_from(
                ts,
                declaration_step(ts, st).st,
                roots.push(d),
                errors,
                false,
            ),
            Outcome::Failed(e) => sp_parse_from(
                ts,
                declaration_step(ts, st).st,
                roots,
                errors.push(e),
                true,
            ),
            Outcome::Panic => ParseOutcome::Panic,
            Outcome::Stuck => ParseOutcome::Stuck,
        },
{
    reveal(sp_parse_from);
    reveal(declaration_step);
}

/// The arenas of an AST as the grammar's state, at the first token.
pub open spec fn start_state(ast: AST) -> PState {
    PState { pos: 0, exprs: view_exprs(ast.expr_arena@), stmts: view_stmts(ast.statement_arena@) }
}

/// What the grammar gives for the tokens `input`, parsed into `ast`.
pub open spec fn parse_outcome(input: Seq<SpecToken>, ast: AST) -> ParseOutcome {
    sp_parse(input, start_state(ast).exprs, start_state(ast).stmts)
}

/// `after` is `before` with the grammar's parse of `input` done: the arenas
/// are those the grammar ends with, the declarations found are appended to
/// the roots, and `errors` are the errors found, in order.
pub open spec fn parsed_into(
    input: Seq<SpecToken>,
    before: AST,
    after: AST,
    errors: Seq<ASTError>,
) -> bool {
    match parse_outcome(input, before) {
        ParseOutcome::Parsed(st, roots, errs) => {
            &&& view_exprs(after.expr_arena@) == st.exprs
            &&& view_stmts(after.statement_arena@) == st.stmts
            &&& view_decls(after.roots@) == view_decls(before.roots@) + roots
            &&& view_errors(errors) == errs
            &&& after._tokens == before._tokens
        },
        _ => false,
    }
}

impl ASTBuilder {
    fn next_declaration(&mut self) -> (r: Result<Declaration, Halt>)
        requires
            old(self).inv(),
        ensures
            took(*old(self), *final(self), r, declaration_step(old(self).ts(), old(self).st())),
            r matches Ok(d) ==> decl_fits(*final(self), d@),
            r is Ok ==> old(self).current_index < final(self).current_index
                || final(self).current_index == final(self).tokens@.len(),
    {
        proof {
            reveal(declaration_step);
        }
        self.declaration()
    }

    /// Parses `input` into `ast`: appends to its arenas the nodes found and to
    /// its roots the top-level declarations, and returns the errors found.
    /// After an error, tokens are skipped up to and including the next `;`.
    pub fn parse(input: TokenVec, ast: &mut AST) -> (r: ((), Vec<ASTError>))
        requires
            !(parse_outcome(input@, *old(ast)) is Panic),
        ensures
            parsed_into(input@, *old(ast), *final(ast), r.1@),
            extends(start_state(*old(ast)), start_state(*final(ast))),
            ast_ordered(*old(ast)) ==> ast_ordered(*final(ast)),
    {
        match Self::checked_parse(input, ast) {
            Some(errors) => ((), errors),
            None => ((), Vec::new()),
        }
    }

    /// `parse`, or `None` where the grammar reads past the last token (then
    /// `ast` holds what was parsed up to there).
    pub fn checked_parse(input: TokenVec, ast: &mut AST) -> (r: Option<Vec<ASTError>>)
        ensures
            r is None <==> parse_outcome(input@, *old(ast)) is Panic,
            r matches Some(errors) ==> parsed_into(input@, *old(ast), *final(ast), errors@),
            r is Some ==> extends(start_state(*old(ast)), start_state(*final(ast))),
            r is Some ==> (ast_ordered(*old(ast)) ==> ast_ordered(*final(ast))),
    {
        let ghost ts = input@;
        let ghost st0 = start_state(*ast);
        let ghost goal = parse_outcome(input@, *ast);
        let ghost roots0 = view_decls(ast.roots@);
        let mut errors: Vec<ASTError> = Vec::new();
        let mut exprs: Vec<Expr> = Vec::new();
        let mut stmts: Vec<Statement> = Vec::new();
        core::mem::swap(&mut exprs, &mut ast.expr_arena);
        core::mem::swap(&mut stmts, &mut ast.statement_arena);
        let count = input.tokens.len();
        let mut builder = ASTBuilder {
            current_index: 0,
            tokens: input,
            exprs,
            stmts,
            track: Ghost(arenas_ordered(st0.exprs, st0.stmts)),
        };
        let mut recovery_mode = false;
        let ghost mut roots: Seq<SpecDeclaration> = Seq::empty();
        proof {
            reveal(sp_parse);
            assert(view_errors(errors@) =~= Seq::empty());
            assert(roots0 + roots =~= roots0);
        }
        while builder.current_index < builder.tokens.tokens.len()
            invariant
                builder.inv(),
                builder.ts() == ts,
                goal == sp_parse(ts, st0.exprs, st0.stmts),
                sp_parse_from(ts, builder.st(), roots, view_errors(errors@), recovery_mode) == goal,
                extends(st0, builder.st()),
                view_decls(ast.roots@) == roots0 + roots,
                roots0 == view_decls(old(ast).roots@),
                ast._tokens == old(ast)._tokens,
                st0 == start_state(*old(ast)),
                ts == input@,
                builder.tracks() == arenas_ordered(st0.exprs, st0.stmts),
                ast_ordered(*old(ast)) ==> decls_fit(builder, ast.roots@),
            decreases builder.tokens@.len() - builder.current_index, if recovery_mode {
                0int
            } else {
                1int
            },
        {
            let ghost st = builder.st();
            let ghost errs = view_errors(errors@);
            let ghost b0 = builder;
            if recovery_mode {
                proof {
                    lemma_parse_skip(ts, st, roots, errs);
                }
                if builder.check(SimpleToken::SemiColon) {
                    recovery_mode = false;
                }
                builder.bump();
                proof {
                    if ast_ordered(*old(ast)) {
                        lemma_decls_grow(b0, builder, ast.roots@);
                    }
                }
            } else {
                let result = builder.next_declaration();
                proof {
                    lemma_parse_declaration(ts, st, roots, errs);
                }
                match result {
                    Ok(declaration) => {
                        let ghost d = declaration@;
                        let ghost before = ast.roots@;
                        let ghost dd = declaration;
                        proof {
                            if ast_ordered(*old(ast)) {
                                lemma_decls_grow(b0, builder, before);
                                lemma_decls_push(builder, before, dd);
                            }
                        }
                        ast.roots.push(declaration);
                        proof {
                            assert(view_decls(ast.roots@) =~= view_decls(before).push(d));
                            assert(roots0 + roots.push(d) =~= (roots0 + roots).push(d));
                            roots = roots.push(d);
                        }
                    },
                    Err(Halt::Error(e)) => {
                        proof {
                            if ast_ordered(*old(ast)) {
                                lemma_decls_grow(b0, builder, ast.roots@);
                            }
                        }
                        let ghost before = errors@;
                        let ghost ev = e@;
                        errors.push(e);
                        proof {
                            assert(view_errors(errors@) =~= view_errors(before).push(ev));
                        }
                        recovery_mode = true;
                    },
                    Err(Halt::PastEnd) => {
                        return None;
                    },
                }
            }
        }
        proof {
            lemma_parse_end(ts, builder.st(), roots, view_errors(errors@), recovery_mode);
        }
        let ghost bf = builder;
        ast.expr_arena = builder.exprs;
        ast.statement_arena = builder.stmts;
        proof {
            if ast_ordered(*old(ast)) {
                reveal(decl_within);
                assert forall|k: int|
                    #![trigger ast.roots@[k]]
                    0 <= k < ast.roots@.len() implies decl_within(
                    ast.roots@[k]@,
                    ast.expr_arena@.len() as int,
                    ast.statement_arena@.len() as int,
                ) by {
                    assert(decl_fits(bf, ast.roots@[k]@));
                }
            }
        }
        Some(errors)
    }
}

} // verus!

