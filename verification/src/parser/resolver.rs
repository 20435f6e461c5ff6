//! The resolver: a pass over a parsed AST that replaces each name of a local
//! variable by its place, a slot in a scope.
use crate::diagnostic::{Diagnostic, Span, Stage};
use crate::parser::builder::{
    view_exprs, view_stmts, view_decls, view_branches, lemma_block_view, lemma_if_view,
};
use crate::parser::parser::{
    AST, Declaration, Expr, ExprID, LocatedPrimary, Primary, SpecClassDefinition, SpecDeclaration,
    SpecExpr, StatementID,
    SpecLocatedPrimary, SpecPrimary, SpecStatement, Statement, Unary, ast_ordered, arenas_ordered,
    decl_within, exprs_ordered, expr_below, stmt_within, stmt_refers, decl_refers, view_strings,
};
use crate::text::push_str;
use vstd::prelude::*;

verus! {

/// A scope: names, each with its slot. No name occurs twice.
pub type SpecScope = Seq<(Seq<char>, usize)>;

pub open spec fn view_scope(v: Seq<(String, usize)>) -> SpecScope {
    v.map_values(|p: (String, usize)| (p.0@, p.1))
}

pub open spec fn view_scopes(v: Seq<Vec<(String, usize)>>) -> Seq<SpecScope> {
    v.map_values(|sc: Vec<(String, usize)>| view_scope(sc@))
}

/// Where `name` stands in `scope`, looking from the last entry back.
pub open spec fn position(scope: SpecScope, name: Seq<char>) -> Option<int>
    decreases scope.len(),
{
    if scope.len() == 0 {
        None
    } else if scope.last().0 == name {
        Some(scope.len() - 1)
    } else {
        position(scope.drop_last(), name)
    }
}

/// The slot of `name` in `scope`.
pub open spec fn find_slot(scope: SpecScope, name: Seq<char>) -> Option<usize> {
    match position(scope, name) {
        Some(i) => Some(scope[i].1),
        None => None,
    }
}

/// `scope` with `name` given `slot`: its entry changed, or a new entry.
pub open spec fn scope_insert(scope: SpecScope, name: Seq<char>, slot: usize) -> SpecScope {
    match position(scope, name) {
        Some(i) => scope.update(i, (name, slot)),
        None => scope.push((name, slot)),
    }
}

/// The innermost scope that holds `name`: the slot there, and the scope's index.
pub open spec fn lookup(scopes: Seq<SpecScope>, name: Seq<char>) -> Option<(usize, int)>
    decreases scopes.len(),
{
    if scopes.len() == 0 {
        None
    } else {
        match find_slot(scopes.last(), name) {
            Some(slot) => Some((slot, scopes.len() - 1)),
            None => lookup(scopes.drop_last(), name),
        }
    }
}

/// A name is found in one of the scopes there are.
pub proof fn lemma_lookup_range(scopes: Seq<SpecScope>, name: Seq<char>)
    ensures
        lookup(scopes, name) matches Some((_, i)) ==> 0 <= i < scopes.len(),
    decreases scopes.len(),
{
    if scopes.len() > 0 {
        lemma_lookup_range(scopes.drop_last(), name);
    }
}

proof fn lemma_sub(
    scopes: Seq<SpecScope>,
    globals: Seq<Seq<char>>,
    exprs: Seq<SpecExpr>,
    a: int,
    bound: int,
)
    requires
        0 <= a < bound,
    ensures
        res_sub(scopes, globals, exprs, a, bound) == res_expr(scopes, globals, exprs, a),
{
}

/// The scope of a function's parameters: each has its position as slot (the
/// last of two equal names wins).
pub open spec fn params_scope(params: Seq<Seq<char>>) -> SpecScope
    decreases params.len(),
{
    if params.len() == 0 {
        Seq::empty()
    } else {
        scope_insert(
            params_scope(params.drop_last()),
            params.last(),
            (params.len() - 1) as usize,
        )
    }
}

/// How a pass over expressions ends: the arena after it, or the first name that
/// is neither local nor global, where it stands, and the arena up to there.
pub enum ExprOut {
    Done(Seq<SpecExpr>),
    Undefined(Seq<char>, Span, Seq<SpecExpr>),
}

/// The expression `id`, resolved (only inside a scope: at the top level names
/// are left as they are).
pub open spec fn res_expr(
    scopes: Seq<SpecScope>,
    globals: Seq<Seq<char>>,
    exprs: Seq<SpecExpr>,
    id: int,
) -> ExprOut
    decreases id, 2int, 0int,
{
    if scopes.len() == 0 || !(0 <= id < exprs.len()) {
        ExprOut::Done(exprs)
    } else {
        match exprs[id] {
            SpecExpr::Terminal(lp) => match lp.inner {
                SpecPrimary::Identifier(name) => match lookup(scopes, name) {
                    Some((slot, scope)) => ExprOut::Done(
                        exprs.update(
                            id,
                            SpecExpr::Terminal(
                                SpecLocatedPrimary {
                                    inner: SpecPrimary::Local((slot, scope as usize)),
                                    span: lp.span,
                                },
                            ),
                        ),
                    ),
                    None => if globals.contains(name) {
                        ExprOut::Done(exprs)
                    } else {
                        ExprOut::Undefined(name, lp.span, exprs)
                    },
                },
                _ => ExprOut::Done(exprs),
            },
            SpecExpr::Unary(Unary::Not(a)) => res_sub(scopes, globals, exprs, a as int, id),
            SpecExpr::Unary(Unary::Minus(a)) => res_sub(scopes, globals, exprs, a as int, id),
            SpecExpr::Binary(b) => res_pair(
                scopes,
                globals,
                exprs,
                b.left as int,
                b.right as int,
                id,
            ),
            SpecExpr::Ternary(_) => ExprOut::Done(exprs),
            SpecExpr::LogicalAnd(x) => res_pair(
                scopes,
                globals,
                exprs,
                x.left as int,
                x.right as int,
                id,
            ),
            SpecExpr::LogicalOr(x) => res_pair(
                scopes,
                globals,
                exprs,
                x.left as int,
                x.right as int,
                id,
            ),
            SpecExpr::Assignment(a, b) => res_pair(scopes, globals, exprs, a as int, b as int, id),
            SpecExpr::FunctionCall(_, args) => res_args(scopes, globals, exprs, args, 0, id),
            SpecExpr::Get(a, _) => res_sub(scopes, globals, exprs, a as int, id),
        }
    }
}

/// A part `a` of the expression `bound`.
pub open spec fn res_sub(
    scopes: Seq<SpecScope>,
    globals: Seq<Seq<char>>,
    exprs: Seq<SpecExpr>,
    a: int,
    bound: int,
) -> ExprOut
    decreases bound, 1int, 0int,
{
    if 0 <= a < bound {
        res_expr(scopes, globals, exprs, a)
    } else {
        ExprOut::Done(exprs)
    }
}

/// Two parts of the expression `bound`, in order.
pub open spec fn res_pair(
    scopes: Seq<SpecScope>,
    globals: Seq<Seq<char>>,
    exprs: Seq<SpecExpr>,
    a: int,
    b: int,
    bound: int,
) -> ExprOut
    decreases bound, 1int, 1int,
{
    match res_sub(scopes, globals, exprs, a, bound) {
        ExprOut::Done(e) => res_sub(scopes, globals, e, b, bound),
        u => u,
    }
}

/// The arguments of the call `bound` from the `i`-th on (the callee itself is
/// left as it is).
pub open spec fn res_args(
    scopes: Seq<SpecScope>,
    globals: Seq<Seq<char>>,
    exprs: Seq<SpecExpr>,
    args: Seq<ExprID>,
    i: int,
    bound: int,
) -> ExprOut
    decreases bound, 1int, args.len() - i + 2,
{
    if !(0 <= i < args.len()) {
        ExprOut::Done(exprs)
    } else {
        match res_sub(scopes, globals, exprs, args[i] as int, bound) {
            ExprOut::Done(e) => res_args(scopes, globals, e, args, i + 1, bound),
            u => u,
        }
    }
}

} // verus!

verus! {

/// The resolver's state: its scopes (innermost last), the names declared at
/// the top level, whether the next block is a function's body (whose scope is
/// already there), and the expression arena.
pub struct RState {
    pub scopes: Seq<SpecScope>,
    pub globals: Seq<Seq<char>>,
    pub building: bool,
    pub exprs: Seq<SpecExpr>,
}

/// How a pass ends: the state after it, or the first name that is neither
/// local nor global, where it stands, and the state at that point.
pub enum ResOut {
    Done(RState),
    Undefined(Seq<char>, Span, RState),
}

pub open spec fn res_e(s: RState, id: int) -> ResOut {
    match res_expr(s.scopes, s.globals, s.exprs, id) {
        ExprOut::Done(e) => ResOut::Done(RState { exprs: e, ..s }),
        ExprOut::Undefined(n, sp, e) => ResOut::Undefined(n, sp, RState { exprs: e, ..s }),
    }
}

/// The expressions `ids` from the `i`-th on, in order.
pub open spec fn res_ids(s: RState, ids: Seq<ExprID>, i: int) -> ResOut
    decreases ids.len() - i,
{
    if !(0 <= i < ids.len()) {
        ResOut::Done(s)
    } else {
        match res_e(s, ids[i] as int) {
            ResOut::Done(s2) => res_ids(s2, ids, i + 1),
            u => u,
        }
    }
}

/// `name` declared in the innermost scope (at the next slot), or as a global.
pub open spec fn declare(s: RState, name: Seq<char>) -> RState {
    if s.scopes.len() == 0 {
        RState {
            globals: if s.globals.contains(name) {
                s.globals
            } else {
                s.globals.push(name)
            },
            ..s
        }
    } else {
        let last = s.scopes.last();
        RState {
            scopes: s.scopes.update(
                s.scopes.len() - 1,
                scope_insert(last, name, last.len() as usize),
            ),
            ..s
        }
    }
}

/// The statement `st`, resolved; `bound` bounds the statements of the arena
/// it may go into.
pub open spec fn res_stmt(
    s: RState,
    st: SpecStatement,
    stmts: Seq<SpecStatement>,
    bound: int,
) -> ResOut
    decreases bound, st, 0int,
{
    match st {
        SpecStatement::ExprStatement(e) => res_e(s, e as int),
        SpecStatement::PrintStatement(ids) => res_ids(s, ids, 0),
        SpecStatement::Block(ds) => {
            let local = s.building;
            let s1 = RState {
                building: false,
                scopes: if local {
                    s.scopes
                } else {
                    s.scopes.push(Seq::empty())
                },
                ..s
            };
            match res_decls(s1, ds, 0, stmts, bound) {
                ResOut::Done(s2) => ResOut::Done(
                    if local {
                        s2
                    } else {
                        RState { scopes: s2.scopes.drop_last(), ..s2 }
                    },
                ),
                u => u,
            }
        },
        SpecStatement::IfStatement(bs, other) => match res_branches(s, bs, 0, stmts, bound) {
            ResOut::Done(s2) => match other {
                Some(id) => if 0 <= id < bound && id < stmts.len() {
                    res_stmt(s2, stmts[id as int], stmts, id as int)
                } else {
                    ResOut::Done(s2)
                },
                None => ResOut::Done(s2),
            },
            u => u,
        },
        SpecStatement::Whileloop(c, b) => match res_e(s, c as int) {
            ResOut::Done(s2) => if 0 <= b < bound && b < stmts.len() {
                res_stmt(s2, stmts[b as int], stmts, b as int)
            } else {
                ResOut::Done(s2)
            },
            u => u,
        },
        SpecStatement::Break(_) => ResOut::Done(s),
        SpecStatement::Continue(_) => ResOut::Done(s),
        SpecStatement::Return(e) => match e {
            Some(x) => res_e(s, x as int),
            None => ResOut::Done(s),
        },
    }
}

/// The branches of an `if` from the `i`-th on: each condition, then its statement.
pub open spec fn res_branches(
    s: RState,
    bs: Seq<(ExprID, SpecStatement)>,
    i: int,
    stmts: Seq<SpecStatement>,
    bound: int,
) -> ResOut
    decreases bound, bs, bs.len() - i,
{
    if !(0 <= i < bs.len()) {
        ResOut::Done(s)
    } else {
        match res_e(s, bs[i].0 as int) {
            ResOut::Done(s2) => match res_stmt(s2, bs[i].1, stmts, bound) {
                ResOut::Done(s3) => res_branches(s3, bs, i + 1, stmts, bound),
                u => u,
            },
            u => u,
        }
    }
}

/// The declarations `ds` from the `i`-th on, in order.
pub open spec fn res_decls(
    s: RState,
    ds: Seq<SpecDeclaration>,
    i: int,
    stmts: Seq<SpecStatement>,
    bound: int,
) -> ResOut
    decreases bound, ds, ds.len() - i,
{
    if !(0 <= i < ds.len()) {
        ResOut::Done(s)
    } else {
        match res_decl(s, ds[i], stmts, bound) {
            ResOut::Done(s2) => res_decls(s2, ds, i + 1, stmts, bound),
            u => u,
        }
    }
}

/// A declaration: a variable is declared before its value is resolved; a
/// function's body is resolved in a new scope that holds its parameters.
pub open spec fn res_decl(
    s: RState,
    d: SpecDeclaration,
    stmts: Seq<SpecStatement>,
    bound: int,
) -> ResOut
    decreases bound, d, 0int,
{
    match d {
        SpecDeclaration::Statement(st) => res_stmt(s, st, stmts, bound),
        SpecDeclaration::VarDecl(name, e) => res_e(declare(s, name), e as int),
        SpecDeclaration::FunctionDefinition(f) => {
            let s1 = RState {
                scopes: s.scopes.push(params_scope(f.arguments)),
                building: true,
                ..s
            };
            match res_stmt(s1, f.statement, stmts, bound) {
                ResOut::Done(s2) => ResOut::Done(RState { scopes: s2.scopes.drop_last(), ..s2 }),
                u => u,
            }
        },
        SpecDeclaration::ClassDefinition(_) => ResOut::Done(s),
        SpecDeclaration::Comment(_) => ResOut::Done(s),
        SpecDeclaration::Empty => ResOut::Done(s),
    }
}

} // verus!

verus! {

/// Why the resolver stopped: a name that is neither a local nor a global.
pub enum ResolveError {
    UndefinedVariable(String, Span),
}

impl Diagnostic for ResolveError {
    open spec fn spec_stage(&self) -> Stage {
        Stage::Parsing
    }

    open spec fn spec_span(&self) -> Option<Span> {
        match self {
            ResolveError::UndefinedVariable(_, span) => Some(*span),
        }
    }

    open spec fn spec_message(&self) -> Seq<char> {
        match self {
            ResolveError::UndefinedVariable(name, _) => "Undefined variable "@ + name@,
        }
    }

    fn stage(&self) -> (s: Stage) {
        Stage::Parsing
    }

    fn span(&self) -> (s: Option<Span>) {
        match self {
            ResolveError::UndefinedVariable(_, span) => Some(*span),
        }
    }

    fn message(&self) -> (m: String) {
        match self {
            ResolveError::UndefinedVariable(name, _) => {
                let mut s = String::new();
                push_str(&mut s, "Undefined variable ");
                push_str(&mut s, name.as_str());
                proof {
                    reveal_strlit("Undefined variable ");
                }
                s
            },
        }
    }
}

/// Where a name was found.
enum Found {
    /// In a local scope: its slot, and the scope's index counted from 1.
    Local(usize, usize),
    Global,
    Undefined,
}

/// The resolver: the scopes it is in, the top-level names, and whether the
/// next block is a function's body.
pub struct Resolver {
    map: Vec<Vec<(String, usize)>>,
    globals: Vec<String>,
    building_function: bool,
}

/// `r` and the arena `exprs` are what a pass that gives `out` leaves.
pub open spec fn ended_as(
    r: Result<(), ResolveError>,
    res: Resolver,
    exprs: Seq<SpecExpr>,
    out: ResOut,
) -> bool {
    match out {
        ResOut::Done(s) => r is Ok && res.state(exprs) == s,
        ResOut::Undefined(n, sp, s) => {
            &&& r matches Err(ResolveError::UndefinedVariable(m, sp2)) && m@ == n && sp2 == sp
            &&& res.state(exprs) == s
        },
    }
}

/// `r` and the arena `exprs` are what a pass over expressions that gives `out` leaves.
pub open spec fn expr_ended_as(r: Result<(), ResolveError>, exprs: Seq<SpecExpr>, out: ExprOut) -> bool {
    match out {
        ExprOut::Done(e) => r is Ok && exprs == e,
        ExprOut::Undefined(n, sp, e) => {
            &&& r matches Err(ResolveError::UndefinedVariable(m, sp2)) && m@ == n && sp2 == sp
            &&& exprs == e
        },
    }
}

/// Where `name` stands in `scope`.
fn position_in(scope: &Vec<(String, usize)>, name: &String) -> (r: Option<usize>)
    ensures
        r matches Some(i) ==> position(view_scope(scope@), name@) == Some(i as int),
        r matches Some(i) ==> i < scope@.len(),
        r is None ==> position(view_scope(scope@), name@) is None,
{
    let ghost v = view_scope(scope@);
    let mut i = scope.len();
    proof {
        assert(v.take(i as int) =~= v);
    }
    while i > 0
        invariant
            i <= scope@.len(),
            v == view_scope(scope@),
            position(v, name@) == position(v.take(i as int), name@),
        decreases i,
    {
        proof {
            assert(v.take(i as int).drop_last() =~= v.take(i - 1));
        }
        if scope[i - 1].0 == *name {
            return Some(i - 1);
        }
        i = i - 1;
    }
    None
}

/// Whether `name` is one of `names`.
fn contains_name(names: &Vec<String>, name: &String) -> (b: bool)
    ensures
        b == view_strings(names@).contains(name@),
{
    let mut i: usize = 0;
    while i < names.len()
        invariant
            i <= names@.len(),
            forall|k: int| 0 <= k < i ==> names@[k]@ != name@,
        decreases names@.len() - i,
    {
        if names[i] == *name {
            proof {
                assert(view_strings(names@)[i as int] == name@);
            }
            return true;
        }
        i = i + 1;
    }
    proof {
        if view_strings(names@).contains(name@) {
            let k = choose|k: int| 0 <= k < view_strings(names@).len() && view_strings(names@)[k] == name@;
            assert(names@[k]@ == name@);
        }
    }
    false
}

/// `scope` with `name` given `slot`.
fn insert_name(scope: &mut Vec<(String, usize)>, name: String, slot: usize)
    ensures
        view_scope(final(scope)@) == scope_insert(view_scope(old(scope)@), name@, slot),
{
    let ghost n = name@;
    match position_in(scope, &name) {
        Some(i) => {
            scope.set(i, (name, slot));
            proof {
                assert(view_scope(scope@) =~= view_scope(old(scope)@).update(i as int, (n, slot)));
            }
        },
        None => {
            scope.push((name, slot));
            proof {
                assert(view_scope(scope@) =~= view_scope(old(scope)@).push((n, slot)));
            }
        },
    }
}

impl Resolver {
    pub closed spec fn scopes(&self) -> Seq<SpecScope> {
        view_scopes(self.map@)
    }

    pub closed spec fn globals(&self) -> Seq<Seq<char>> {
        view_strings(self.globals@)
    }

    pub closed spec fn building(&self) -> bool {
        self.building_function
    }

    /// The resolver's state, with the arena `exprs`.
    pub open spec fn state(&self, exprs: Seq<SpecExpr>) -> RState {
        RState { scopes: self.scopes(), globals: self.globals(), building: self.building(), exprs }
    }

    /// A resolver outside any scope, with no global yet.
    pub fn init() -> (r: Self)
        ensures
            r.scopes() == Seq::<SpecScope>::empty(),
            r.globals() == Seq::<Seq<char>>::empty(),
            !r.building(),
    {
        let r = Resolver { map: Vec::new(), globals: Vec::new(), building_function: false };
        proof {
            assert(r.scopes() =~= Seq::<SpecScope>::empty());
            assert(r.globals() =~= Seq::<Seq<char>>::empty());
        }
        r
    }

    /// Where `name` stands: in the innermost local scope that holds it, or
    /// among the globals.
    fn resolve_variable(&self, name: &String) -> (r: Found)
        ensures
            match lookup(self.scopes(), name@) {
                Some((slot, scope)) => r == Found::Local(slot, (scope + 1) as usize),
                None => if self.globals().contains(name@) {
                    r is Global
                } else {
                    r is Undefined
                },
            },
            r matches Found::Local(_, sc) ==> sc >= 1,
    {
        let ghost scopes = self.scopes();
        let mut scope = self.map.len();
        proof {
            assert(scopes.take(scope as int) =~= scopes);
        }
        while scope > 0
            invariant
                scope <= self.map@.len(),
                scopes == self.scopes(),
                lookup(scopes, name@) == lookup(scopes.take(scope as int), name@),
            decreases scope,
        {
            proof {
                assert(scopes.take(scope as int).drop_last() =~= scopes.take(scope - 1));
                assert(scopes.take(scope as int).last() == view_scope(self.map@[scope - 1]@));
            }
            match position_in(&self.map[scope - 1], name) {
                Some(i) => {
                    return Found::Local(self.map[scope - 1][i].1, scope);
                },
                None => {},
            }
            scope = scope - 1;
        }
        if contains_name(&self.globals, name) {
            Found::Global
        } else {
            Found::Undefined
        }
    }
}

} // verus!

verus! {

impl Resolver {
    /// Resolves the expression `expr` and its parts: a local name becomes its
    /// slot and scope. At the top level (no scope) nothing changes.
    fn visit_expression(&self, exprs: &mut Vec<Expr>, expr: ExprID) -> (r: Result<
        (),
        ResolveError,
    >)
        requires
            exprs_ordered(view_exprs(old(exprs)@)),
            expr < old(exprs)@.len(),
        ensures
            final(exprs)@.len() == old(exprs)@.len(),
            exprs_ordered(view_exprs(final(exprs)@)),
            expr_ended_as(
                r,
                view_exprs(final(exprs)@),
                res_expr(self.scopes(), self.globals(), view_exprs(old(exprs)@), expr as int),
            ),
        decreases expr,
    {
        let ghost e0 = view_exprs(exprs@);
        if self.map.len() == 0 {
            return Ok(());
        }
        proof {
            assert(expr_below(e0[expr as int], expr as int));
            reveal_with_fuel(res_pair, 2);
            reveal_with_fuel(res_sub, 2);
            reveal_with_fuel(res_args, 2);
        }
        let node = exprs[expr].clone();
        match node {
            Expr::Terminal(located_primary) => {
                let span = located_primary.span;
                match located_primary.inner {
                    Primary::Identifier(name) => match self.resolve_variable(&name) {
                        Found::Local(index, scope) => {
                            proof {
                                lemma_lookup_range(self.scopes(), name@);
                            }
                            let local = Expr::Terminal(
                                LocatedPrimary { inner: Primary::Local((index, scope - 1)), span },
                            );
                            let ghost lv = local@;
                            exprs.set(expr, local);
                            proof {
                                let e1 = view_exprs(exprs@);
                                assert(e1 =~= e0.update(expr as int, lv));
                                assert forall|i: int| 0 <= i < e1.len() implies #[trigger] expr_below(
                                    e1[i],
                                    i,
                                ) by {
                                    if i != expr {
                                        assert(e1[i] == e0[i]);
                                    }
                                }
                                assert(res_expr(self.scopes(), self.globals(), e0, expr as int)
                                    == ExprOut::Done(e1));
                            }
                            Ok(())
                        },
                        Found::Global => {
                            proof {
                                assert(res_expr(self.scopes(), self.globals(), e0, expr as int)
                                    == ExprOut::Done(e0));
                            }
                            Ok(())
                        },
                        Found::Undefined => {
                            proof {
                                assert(lookup(self.scopes(), name@) is None);
                                assert(!self.globals().contains(name@));
                                assert(res_expr(self.scopes(), self.globals(), e0, expr as int)
                                    == ExprOut::Undefined(name@, span, e0));
                            }
                            Err(ResolveError::UndefinedVariable(name, span))
                        },
                    },
                    _ => {
                        proof {
                            assert(res_expr(self.scopes(), self.globals(), e0, expr as int)
                                == ExprOut::Done(e0));
                        }
                        Ok(())
                    },
                }
            },
            Expr::Unary(Unary::Not(a)) => {
                proof {
                    lemma_sub(self.scopes(), self.globals(), e0, a as int, expr as int);
                }
                self.visit_expression(exprs, a)
            },
            Expr::Unary(Unary::Minus(a)) => {
                proof {
                    lemma_sub(self.scopes(), self.globals(), e0, a as int, expr as int);
                }
                self.visit_expression(exprs, a)
            },
            Expr::Binary(b) => {
                proof {
                    lemma_sub(self.scopes(), self.globals(), e0, b.left as int, expr as int);
                }
                match self.visit_expression(exprs, b.left) {
                    Ok(()) => {},
                    Err(e) => {
                        proof {
                            let sc = self.scopes();
                            let gl = self.globals();
                            assert(res_sub(sc, gl, e0, b.left as int, expr as int) == res_expr(
                                sc,
                                gl,
                                e0,
                                b.left as int,
                            ));
                            assert(res_expr(sc, gl, e0, expr as int) == res_pair(
                                sc,
                                gl,
                                e0,
                                b.left as int,
                                b.right as int,
                                expr as int,
                            ));
                        }
                        return Err(e);
                    },
                }
                proof {
                    lemma_sub(self.scopes(), self.globals(), view_exprs(exprs@), b.right as int, expr as int);
                }
                self.visit_expression(exprs, b.right)
            },
            Expr::Ternary(_) => Ok(()),
            Expr::LogicalAnd(x) => {
                proof {
                    lemma_sub(self.scopes(), self.globals(), e0, x.left as int, expr as int);
                }
                match self.visit_expression(exprs, x.left) {
                    Ok(()) => {},
                    Err(e) => {
                        proof {
                            let sc = self.scopes();
                            let gl = self.globals();
                            assert(res_sub(sc, gl, e0, x.left as int, expr as int) == res_expr(
                                sc,
                                gl,
                                e0,
                                x.left as int,
                            ));
                            assert(res_expr(sc, gl, e0, expr as int) == res_pair(
                                sc,
                                gl,
                                e0,
                                x.left as int,
                                x.right as int,
                                expr as int,
                            ));
                        }
                        return Err(e);
                    },
                }
                proof {
                    lemma_sub(self.scopes(), self.globals(), view_exprs(exprs@), x.right as int, expr as int);
                }
                self.visit_expression(exprs, x.right)
            },
            Expr::LogicalOr(x) => {
                proof {
                    lemma_sub(self.scopes(), self.globals(), e0, x.left as int, expr as int);
                }
                match self.visit_expression(exprs, x.left) {
                    Ok(()) => {},
                    Err(e) => {
                        proof {
                            let sc = self.scopes();
                            let gl = self.globals();
                            assert(res_sub(sc, gl, e0, x.left as int, expr as int) == res_expr(
                                sc,
                                gl,
                                e0,
                                x.left as int,
                            ));
                            assert(res_expr(sc, gl, e0, expr as int) == res_pair(
                                sc,
                                gl,
                                e0,
                                x.left as int,
                                x.right as int,
                                expr as int,
                            ));
                        }
                        return Err(e);
                    },
                }
                proof {
                    lemma_sub(self.scopes(), self.globals(), view_exprs(exprs@), x.right as int, expr as int);
                }
                self.visit_expression(exprs, x.right)
            },
            Expr::Assignment(a, b) => {
                proof {
                    lemma_sub(self.scopes(), self.globals(), e0, a as int, expr as int);
                }
                match self.visit_expression(exprs, a) {
                    Ok(()) => {},
                    Err(e) => {
                        proof {
                            let sc = self.scopes();
                            let gl = self.globals();
                            assert(res_sub(sc, gl, e0, a as int, expr as int) == res_expr(
                                sc,
                                gl,
                                e0,
                                a as int,
                            ));
                            assert(res_expr(sc, gl, e0, expr as int) == res_pair(
                                sc,
                                gl,
                                e0,
                                a as int,
                                b as int,
                                expr as int,
                            ));
                        }
                        return Err(e);
                    },
                }
                proof {
                    lemma_sub(self.scopes(), self.globals(), view_exprs(exprs@), b as int, expr as int);
                }
                self.visit_expression(exprs, b)
            },
            Expr::FunctionCall(function_call) => {
                let ghost args = function_call.arguments@;
                let mut i: usize = 0;
                while i < function_call.arguments.len()
                    invariant
                        args == function_call.arguments@,
                        e0 == view_exprs(old(exprs)@),
                        i <= args.len(),
                        forall|k: int| 0 <= k < args.len() ==> args[k] < expr,
                        expr < old(exprs)@.len(),
                        exprs@.len() == old(exprs)@.len(),
                        exprs_ordered(view_exprs(exprs@)),
                        self.map@.len() > 0,
                        res_expr(self.scopes(), self.globals(), e0, expr as int) == res_args(
                            self.scopes(),
                            self.globals(),
                            e0,
                            args,
                            0,
                            expr as int,
                        ),
                        res_args(self.scopes(), self.globals(), e0, args, 0, expr as int)
                            == res_args(
                            self.scopes(),
                            self.globals(),
                            view_exprs(exprs@),
                            args,
                            i as int,
                            expr as int,
                        ),
                    decreases args.len() - i,
                {
                    proof {
                        reveal_with_fuel(res_args, 2);
                        reveal_with_fuel(res_sub, 2);
                    }
                    let ghost cur = view_exprs(exprs@);
                    match self.visit_expression(exprs, function_call.arguments[i]) {
                        Ok(()) => {},
                        Err(e) => {
                            proof {
                                let sc = self.scopes();
                                let gl = self.globals();
                                let a = args[i as int] as int;
                                assert(res_sub(sc, gl, cur, a, expr as int) == res_expr(sc, gl, cur, a));
                                assert(res_args(sc, gl, cur, args, i as int, expr as int) == res_sub(
                                    sc,
                                    gl,
                                    cur,
                                    a,
                                    expr as int,
                                ));
                                assert(res_expr(sc, gl, e0, expr as int) == res_expr(
                                    sc,
                                    gl,
                                    cur,
                                    a,
                                ));
                            }
                            return Err(e);
                        },
                    }
                    i = i + 1;
                }
                proof {
                    assert(res_expr(self.scopes(), self.globals(), e0, expr as int) == ExprOut::Done(
                        view_exprs(exprs@),
                    ));
                }
                Ok(())
            },
            Expr::Get(a, _) => {
                proof {
                    lemma_sub(self.scopes(), self.globals(), e0, a as int, expr as int);
                }
                self.visit_expression(exprs, a)
            },
        }
    }
}

} // verus!

verus! {

/// Each statement of the arena names only existing expressions and earlier statements.
pub open spec fn stmts_ordered(stmts: Seq<SpecStatement>, ne: int) -> bool {
    forall|j: int| 0 <= j < stmts.len() ==> #[trigger] stmt_within(stmts[j], ne, j)
}

pub proof fn lemma_arenas(exprs: Seq<SpecExpr>, stmts: Seq<SpecStatement>)
    ensures
        arenas_ordered(exprs, stmts) <==> (exprs_ordered(exprs) && stmts_ordered(
            stmts,
            exprs.len() as int,
        )),
{
    reveal(arenas_ordered);
}

/// What a statement that fits the arenas names stands in them.
pub proof fn lemma_stmt_parts(s: SpecStatement, ne: int, ns: int)
    requires
        stmt_within(s, ne, ns),
    ensures
        match s {
            SpecStatement::ExprStatement(e) => e < ne,
            SpecStatement::PrintStatement(v) => forall|k: int| 0 <= k < v.len() ==> v[k] < ne,
            SpecStatement::Block(ds) => forall|k: int|
                #![trigger ds[k]]
                0 <= k < ds.len() ==> decl_within(ds[k], ne, ns),
            SpecStatement::IfStatement(bs, other) => {
                &&& forall|k: int|
                    #![trigger bs[k]]
                    0 <= k < bs.len() ==> bs[k].0 < ne && stmt_within(bs[k].1, ne, ns)
                &&& other matches Some(id) ==> id < ns
            },
            SpecStatement::Whileloop(c, b) => c < ne && b < ns,
            SpecStatement::Return(e) => e matches Some(x) ==> x < ne,
            _ => true,
        },
{
    reveal(stmt_within);
    reveal(decl_within);
    match s {
        SpecStatement::ExprStatement(e) => {
            assert(stmt_refers(s, e as int, false));
        },
        SpecStatement::PrintStatement(v) => {
            assert forall|k: int| 0 <= k < v.len() implies v[k] < ne by {
                assert(stmt_refers(s, v[k] as int, false));
            }
        },
        SpecStatement::Block(ds) => {
            assert forall|k: int| 0 <= k < ds.len() implies decl_within(ds[k], ne, ns) by {
                assert forall|x: int| #[trigger] decl_refers(ds[k], x, false) implies x < ne by {
                    assert(stmt_refers(s, x, false));
                }
                assert forall|x: int| #[trigger] decl_refers(ds[k], x, true) implies x < ns by {
                    assert(stmt_refers(s, x, true));
                }
            }
        },
        SpecStatement::IfStatement(bs, other) => {
            assert forall|k: int| 0 <= k < bs.len() implies bs[k].0 < ne && stmt_within(
                bs[k].1,
                ne,
                ns,
            ) by {
                assert(stmt_refers(s, bs[k].0 as int, false));
                assert forall|x: int| #[trigger] stmt_refers(bs[k].1, x, false) implies x < ne by {
                    assert(stmt_refers(s, x, false));
                }
                assert forall|x: int| #[trigger] stmt_refers(bs[k].1, x, true) implies x < ns by {
                    assert(stmt_refers(s, x, true));
                }
            }
            if let Some(id) = other {
                assert(stmt_refers(s, id as int, true));
            }
        },
        SpecStatement::Whileloop(c, b) => {
            assert(stmt_refers(s, c as int, false));
            assert(stmt_refers(s, b as int, true));
        },
        SpecStatement::Return(e) => {
            if let Some(x) = e {
                assert(stmt_refers(s, x as int, false));
            }
        },
        _ => {},
    }
}

/// The expressions a print statement that fits names stand in the arena.
pub proof fn lemma_print_parts(v: Seq<ExprID>, ne: int, ns: int)
    requires
        stmt_within(SpecStatement::PrintStatement(v), ne, ns),
    ensures
        forall|k: int| 0 <= k < v.len() ==> v[k] < ne,
{
    let s = SpecStatement::PrintStatement(v);
    lemma_stmt_parts(s, ne, ns);
    match s {
        SpecStatement::PrintStatement(w) => {
            assert(w == v);
        },
        _ => {},
    }
}

/// The declarations of a block that fits fit too.
pub proof fn lemma_block_parts(ds: Seq<SpecDeclaration>, ne: int, ns: int)
    requires
        stmt_within(SpecStatement::Block(ds), ne, ns),
    ensures
        forall|k: int| #![trigger ds[k]] 0 <= k < ds.len() ==> decl_within(ds[k], ne, ns),
{
    let s = SpecStatement::Block(ds);
    lemma_stmt_parts(s, ne, ns);
    match s {
        SpecStatement::Block(w) => {
            assert(w == ds);
        },
        _ => {},
    }
}

/// The branches of an `if` that fits fit too.
pub proof fn lemma_if_parts(bs: Seq<(ExprID, SpecStatement)>, other: Option<StatementID>, ne: int, ns: int)
    requires
        stmt_within(SpecStatement::IfStatement(bs, other), ne, ns),
    ensures
        forall|k: int|
            #![trigger bs[k]]
            0 <= k < bs.len() ==> bs[k].0 < ne && stmt_within(bs[k].1, ne, ns),
        other matches Some(id) ==> id < ns,
{
    let s = SpecStatement::IfStatement(bs, other);
    lemma_stmt_parts(s, ne, ns);
    match s {
        SpecStatement::IfStatement(w, o) => {
            assert(w == bs && o == other);
        },
        _ => {},
    }
}

/// The methods of a class that fits fit too.
pub proof fn lemma_class_parts(c: SpecClassDefinition, ne: int, ns: int)
    requires
        decl_within(SpecDeclaration::ClassDefinition(c), ne, ns),
    ensures
        forall|k: int|
            #![trigger c.functions[k]]
            0 <= k < c.functions.len() ==> stmt_within(c.functions[k].statement, ne, ns),
        stmt_within(c.constructor.statement, ne, ns),
{
    lemma_decl_parts(SpecDeclaration::ClassDefinition(c), ne, ns);
}

/// What a declaration that fits the arenas names stands in them.
pub proof fn lemma_decl_parts(d: SpecDeclaration, ne: int, ns: int)
    requires
        decl_within(d, ne, ns),
    ensures
        match d {
            SpecDeclaration::Statement(s) => stmt_within(s, ne, ns),
            SpecDeclaration::VarDecl(_, e) => e < ne,
            SpecDeclaration::FunctionDefinition(f) => stmt_within(f.statement, ne, ns),
            SpecDeclaration::ClassDefinition(c) => {
                &&& forall|k: int|
                    #![trigger c.functions[k]]
                    0 <= k < c.functions.len() ==> stmt_within(c.functions[k].statement, ne, ns)
                &&& stmt_within(c.constructor.statement, ne, ns)
            },
            _ => true,
        },
{
    reveal(stmt_within);
    reveal(decl_within);
    match d {
        SpecDeclaration::Statement(s) => {
            assert forall|x: int| #[trigger] stmt_refers(s, x, false) implies x < ne by {
                assert(decl_refers(d, x, false));
            }
            assert forall|x: int| #[trigger] stmt_refers(s, x, true) implies x < ns by {
                assert(decl_refers(d, x, true));
            }
        },
        SpecDeclaration::VarDecl(_, e) => {
            assert(decl_refers(d, e as int, false));
        },
        SpecDeclaration::FunctionDefinition(f) => {
            assert forall|x: int| #[trigger] stmt_refers(f.statement, x, false) implies x < ne by {
                assert(decl_refers(d, x, false));
            }
            assert forall|x: int| #[trigger] stmt_refers(f.statement, x, true) implies x < ns by {
                assert(decl_refers(d, x, true));
            }
        },
        SpecDeclaration::ClassDefinition(c) => {
            assert forall|k: int| 0 <= k < c.functions.len() implies stmt_within(
                c.functions[k].statement,
                ne,
                ns,
            ) by {
                assert forall|x: int| #[trigger]
                    stmt_refers(c.functions[k].statement, x, false) implies x < ne by {
                    assert(decl_refers(d, x, false));
                }
                assert forall|x: int| #[trigger]
                    stmt_refers(c.functions[k].statement, x, true) implies x < ns by {
                    assert(decl_refers(d, x, true));
                }
            }
            assert forall|x: int| #[trigger]
                stmt_refers(c.constructor.statement, x, false) implies x < ne by {
                assert(decl_refers(d, x, false));
            }
            assert forall|x: int| #[trigger]
                stmt_refers(c.constructor.statement, x, true) implies x < ns by {
                assert(decl_refers(d, x, true));
            }
        },
        _ => {},
    }
}

} // verus!

verus! {

impl Resolver {
    /// The resolver's state, with the arena `exprs`.
    pub open spec fn at(self, exprs: Seq<SpecExpr>) -> RState {
        self.state(exprs)
    }

    /// Resolves a statement. A block opens a scope, unless it is a function's
    /// body, whose scope the function opened.
    fn visit_statement(
        &mut self,
        exprs: &mut Vec<Expr>,
        stmts: &Vec<Statement>,
        statement: &Statement,
        bound: usize,
    ) -> (r: Result<(), ResolveError>)
        requires
            exprs_ordered(view_exprs(old(exprs)@)),
            stmts_ordered(view_stmts(stmts@), old(exprs)@.len() as int),
            bound <= stmts@.len(),
            stmt_within(statement@, old(exprs)@.len() as int, bound as int),
        ensures
            final(exprs)@.len() == old(exprs)@.len(),
            exprs_ordered(view_exprs(final(exprs)@)),
            ended_as(
                r,
                *final(self),
                view_exprs(final(exprs)@),
                res_stmt(
                    old(self).state(view_exprs(old(exprs)@)),
                    statement@,
                    view_stmts(stmts@),
                    bound as int,
                ),
            ),
            r is Ok ==> final(self).map@.len() == old(self).map@.len(),
        decreases bound, statement, 0int,
    {
        let ghost ne = exprs@.len() as int;
        let ghost s0 = self.state(view_exprs(exprs@));
        let ghost sts = view_stmts(stmts@);
        proof {
            lemma_stmt_parts(statement@, ne, bound as int);
        }
        match statement {
            Statement::ExprStatement(id) => self.visit_expression(exprs, *id),
            Statement::PrintStatement(ids) => self.visit_ids(exprs, ids),
            Statement::Block(block) => {
                let build_function_local = self.building_function;
                self.building_function = false;
                if !build_function_local {
                    self.map.push(Vec::new());
                    proof {
                        assert(view_scope(Seq::<(String, usize)>::empty()) =~= Seq::empty());
                        assert(self.scopes() =~= s0.scopes.push(Seq::empty()));
                    }
                }
                proof {
                    lemma_block_view(*block);
                    let ds = view_decls(block@);
                    assert forall|k: int|
                        #![trigger block@[k]]
                        0 <= k < block@.len() implies decl_within(
                        block@[k]@,
                        ne,
                        bound as int,
                    ) by {
                        assert(ds[k] == block@[k]@);
                    }
                }
                match self.visit_declarations(exprs, stmts, block, bound) {
                    Ok(()) => {},
                    Err(e) => return Err(e),
                }
                if !build_function_local {
                    let ghost before = self.scopes();
                    self.map.pop();
                    proof {
                        assert(self.scopes() =~= before.drop_last());
                    }
                }
                Ok(())
            },
            Statement::IfStatement(items, id) => {
                proof {
                    lemma_if_view(*items, *id);
                }
                match self.visit_branches(exprs, stmts, items, bound) {
                    Ok(()) => {},
                    Err(e) => return Err(e),
                }
                match id {
                    Some(other) => self.visit_statement(exprs, stmts, &stmts[*other], *other),
                    None => Ok(()),
                }
            },
            Statement::Whileloop(cond, body) => {
                match self.visit_expression(exprs, *cond) {
                    Ok(()) => {},
                    Err(e) => return Err(e),
                }
                self.visit_statement(exprs, stmts, &stmts[*body], *body)
            },
            Statement::Break(_) => Ok(()),
            Statement::Continue(_) => Ok(()),
            Statement::Return(expr) => match expr {
                Some(x) => self.visit_expression(exprs, *x),
                None => Ok(()),
            },
        }
    }

    /// Resolves expressions, in order.
    fn visit_ids(&self, exprs: &mut Vec<Expr>, ids: &Vec<ExprID>) -> (r: Result<(), ResolveError>)
        requires
            exprs_ordered(view_exprs(old(exprs)@)),
            forall|k: int| 0 <= k < ids@.len() ==> ids@[k] < old(exprs)@.len(),
        ensures
            final(exprs)@.len() == old(exprs)@.len(),
            exprs_ordered(view_exprs(final(exprs)@)),
            ended_as(r, *self, view_exprs(final(exprs)@), res_ids(self.state(view_exprs(old(exprs)@)), ids@, 0)),
    {
        let ghost ne = exprs@.len() as int;
        let ghost s0 = self.state(view_exprs(exprs@));
        let mut i: usize = 0;
        while i < ids.len()
            invariant
                i <= ids@.len(),
                forall|k: int| 0 <= k < ids@.len() ==> ids@[k] < ne,
                exprs@.len() == ne,
                exprs_ordered(view_exprs(exprs@)),
                ne == old(exprs)@.len(),
                s0 == self.state(view_exprs(old(exprs)@)),
                res_ids(s0, ids@, 0) == res_ids(self.state(view_exprs(exprs@)), ids@, i as int),
            decreases ids@.len() - i,
        {
            let ghost cur = self.state(view_exprs(exprs@));
            proof {
                reveal_with_fuel(res_ids, 2);
            }
            match self.visit_expression(exprs, ids[i]) {
                Ok(()) => {},
                Err(e) => {
                    proof {
                        assert(res_ids(cur, ids@, i as int) == res_e(cur, ids@[i as int] as int));
                    }
                    return Err(e);
                },
            }
            i = i + 1;
        }
        Ok(())
    }

    /// Resolves the branches of an `if`: each condition, then its statement.
    fn visit_branches(
        &mut self,
        exprs: &mut Vec<Expr>,
        stmts: &Vec<Statement>,
        items: &Vec<(ExprID, Statement)>,
        bound: usize,
    ) -> (r: Result<(), ResolveError>)
        requires
            exprs_ordered(view_exprs(old(exprs)@)),
            stmts_ordered(view_stmts(stmts@), old(exprs)@.len() as int),
            bound <= stmts@.len(),
            forall|k: int|
                #![trigger view_branches(items@)[k]]
                0 <= k < items@.len() ==> view_branches(items@)[k].0 < old(exprs)@.len()
                    && stmt_within(view_branches(items@)[k].1, old(exprs)@.len() as int, bound as int),
        ensures
            final(exprs)@.len() == old(exprs)@.len(),
            exprs_ordered(view_exprs(final(exprs)@)),
            ended_as(
                r,
                *final(self),
                view_exprs(final(exprs)@),
                res_branches(
                    old(self).state(view_exprs(old(exprs)@)),
                    view_branches(items@),
                    0,
                    view_stmts(stmts@),
                    bound as int,
                ),
            ),
            r is Ok ==> final(self).map@.len() == old(self).map@.len(),
        decreases bound, items, 1int,
    {
        let ghost ne = exprs@.len() as int;
        let ghost s0 = self.state(view_exprs(exprs@));
        let ghost sts = view_stmts(stmts@);
        let ghost bs = view_branches(items@);
        let mut i: usize = 0;
        while i < items.len()
            invariant
                i <= items@.len(),
                bs == view_branches(items@),
                forall|k: int|
                    #![trigger bs[k]]
                    0 <= k < bs.len() ==> bs[k].0 < ne && stmt_within(bs[k].1, ne, bound as int),
                exprs@.len() == ne,
                exprs_ordered(view_exprs(exprs@)),
                stmts_ordered(sts, ne),
                sts == view_stmts(stmts@),
                bound <= stmts@.len(),
                ne == old(exprs)@.len(),
                s0 == old(self).state(view_exprs(old(exprs)@)),
                self.map@.len() == old(self).map@.len(),
                res_branches(s0, bs, 0, sts, bound as int) == res_branches(
                    self.state(view_exprs(exprs@)),
                    bs,
                    i as int,
                    sts,
                    bound as int,
                ),
            decreases items@.len() - i,
        {
            let ghost cur = self.state(view_exprs(exprs@));
            proof {
                reveal_with_fuel(res_branches, 2);
                assert(bs[i as int] == (items@[i as int].0, items@[i as int].1@));
            }
            match self.visit_expression(exprs, items[i].0) {
                Ok(()) => {},
                Err(e) => {
                    proof {
                        assert(res_branches(cur, bs, i as int, sts, bound as int) == res_e(
                            cur,
                            bs[i as int].0 as int,
                        ));
                    }
                    return Err(e);
                },
            }
            let ghost cur2 = self.state(view_exprs(exprs@));
            match self.visit_statement(exprs, stmts, &items[i].1, bound) {
                Ok(()) => {},
                Err(e) => {
                    proof {
                        assert(res_branches(cur, bs, i as int, sts, bound as int) == res_stmt(
                            cur2,
                            bs[i as int].1,
                            sts,
                            bound as int,
                        ));
                    }
                    return Err(e);
                },
            }
            i = i + 1;
        }
        Ok(())
    }

    /// Resolves declarations, in order.
    fn visit_declarations(
        &mut self,
        exprs: &mut Vec<Expr>,
        stmts: &Vec<Statement>,
        decls: &Vec<Declaration>,
        bound: usize,
    ) -> (r: Result<(), ResolveError>)
        requires
            exprs_ordered(view_exprs(old(exprs)@)),
            stmts_ordered(view_stmts(stmts@), old(exprs)@.len() as int),
            bound <= stmts@.len(),
            forall|k: int|
                #![trigger decls@[k]]
                0 <= k < decls@.len() ==> decl_within(
                    decls@[k]@,
                    old(exprs)@.len() as int,
                    bound as int,
                ),
        ensures
            final(exprs)@.len() == old(exprs)@.len(),
            exprs_ordered(view_exprs(final(exprs)@)),
            ended_as(
                r,
                *final(self),
                view_exprs(final(exprs)@),
                res_decls(
                    old(self).state(view_exprs(old(exprs)@)),
                    view_decls(decls@),
                    0,
                    view_stmts(stmts@),
                    bound as int,
                ),
            ),
            r is Ok ==> final(self).map@.len() == old(self).map@.len(),
        decreases bound, decls, 1int,
    {
        let ghost ne = exprs@.len() as int;
        let ghost s0 = self.state(view_exprs(exprs@));
        let ghost sts = view_stmts(stmts@);
        let ghost ds = view_decls(decls@);
        let mut i: usize = 0;
        while i < decls.len()
            invariant
                i <= decls@.len(),
                ds == view_decls(decls@),
                forall|k: int|
                    #![trigger decls@[k]]
                    0 <= k < decls@.len() ==> decl_within(decls@[k]@, ne, bound as int),
                exprs@.len() == ne,
                exprs_ordered(view_exprs(exprs@)),
                stmts_ordered(sts, ne),
                sts == view_stmts(stmts@),
                bound <= stmts@.len(),
                ne == old(exprs)@.len(),
                s0 == old(self).state(view_exprs(old(exprs)@)),
                self.map@.len() == old(self).map@.len(),
                res_decls(s0, ds, 0, sts, bound as int) == res_decls(
                    self.state(view_exprs(exprs@)),
                    ds,
                    i as int,
                    sts,
                    bound as int,
                ),
            decreases decls@.len() - i,
        {
            proof {
                reveal_with_fuel(res_decls, 2);
                assert(ds[i as int] == decls@[i as int]@);
            }
            match self.visit_declaration(exprs, stmts, &decls[i], bound) {
                Ok(()) => {},
                Err(e) => return Err(e),
            }
            i = i + 1;
        }
        Ok(())
    }

    /// Resolves a declaration: a variable is declared (in the innermost scope,
    /// or as a global) before its value is resolved; a function's body is
    /// resolved in a scope that holds its parameters.
    fn visit_declaration(
        &mut self,
        exprs: &mut Vec<Expr>,
        stmts: &Vec<Statement>,
        declaration: &Declaration,
        bound: usize,
    ) -> (r: Result<(), ResolveError>)
        requires
            exprs_ordered(view_exprs(old(exprs)@)),
            stmts_ordered(view_stmts(stmts@), old(exprs)@.len() as int),
            bound <= stmts@.len(),
            decl_within(declaration@, old(exprs)@.len() as int, bound as int),
        ensures
            final(exprs)@.len() == old(exprs)@.len(),
            exprs_ordered(view_exprs(final(exprs)@)),
            ended_as(
                r,
                *final(self),
                view_exprs(final(exprs)@),
                res_decl(
                    old(self).state(view_exprs(old(exprs)@)),
                    declaration@,
                    view_stmts(stmts@),
                    bound as int,
                ),
            ),
            r is Ok ==> final(self).map@.len() == old(self).map@.len(),
        decreases bound, declaration, 0int,
    {
        let ghost ne = exprs@.len() as int;
        let ghost s0 = self.state(view_exprs(exprs@));
        proof {
            lemma_decl_parts(declaration@, ne, bound as int);
        }
        match declaration {
            Declaration::Statement(statement) => self.visit_statement(
                exprs,
                stmts,
                statement,
                bound,
            ),
            Declaration::VarDecl(name, id) => {
                if self.map.len() == 0 {
                    if !contains_name(&self.globals, name) {
                        self.globals.push(name.clone());
                        proof {
                            assert(self.globals() =~= s0.globals.push(name@));
                        }
                    }
                } else {
                    let mut last = self.map.pop().unwrap();
                    let offset = last.len();
                    insert_name(&mut last, name.clone(), offset);
                    self.map.push(last);
                    proof {
                        assert(self.scopes() =~= s0.scopes.update(
                            s0.scopes.len() - 1,
                            scope_insert(s0.scopes.last(), name@, offset),
                        ));
                    }
                }
                self.visit_expression(exprs, *id)
            },
            Declaration::FunctionDefinition(function_definition) => {
                let ghost params = view_strings(function_definition.arguments@);
                let mut new_env: Vec<(String, usize)> = Vec::new();
                let mut i: usize = 0;
                proof {
                    assert(view_scope(new_env@) =~= params_scope(params.take(0)));
                }
                while i < function_definition.arguments.len()
                    invariant
                        i <= params.len(),
                        params == view_strings(function_definition.arguments@),
                        view_scope(new_env@) == params_scope(params.take(i as int)),
                    decreases params.len() - i,
                {
                    proof {
                        assert(params.take(i + 1).drop_last() =~= params.take(i as int));
                    }
                    insert_name(&mut new_env, function_definition.arguments[i].clone(), i);
                    i = i + 1;
                }
                proof {
                    assert(params.take(i as int) =~= params);
                }
                self.map.push(new_env);
                self.building_function = true;
                proof {
                    assert(self.scopes() =~= s0.scopes.push(params_scope(params)));
                }
                match self.visit_statement(exprs, stmts, &function_definition.statement, bound) {
                    Ok(()) => {},
                    Err(e) => return Err(e),
                }
                let ghost before = self.scopes();
                self.map.pop();
                proof {
                    assert(self.scopes() =~= before.drop_last());
                }
                Ok(())
            },
            Declaration::ClassDefinition(_) => Ok(()),
            Declaration::Comment(_) => Ok(()),
            Declaration::Empty => Ok(()),
        }
    }

    /// Resolves the AST's top-level declarations, in order: each name of a
    /// local variable becomes its slot and scope. A name that is neither local
    /// nor declared at the top level before is an error, which ends the pass.
    pub fn resolve(&mut self, ast: &mut AST) -> (r: Result<(), ResolveError>)
        requires
            ast_ordered(*old(ast)),
        ensures
            final(ast).statement_arena == old(ast).statement_arena,
            final(ast).roots == old(ast).roots,
            final(ast)._tokens == old(ast)._tokens,
            final(ast).expr_arena@.len() == old(ast).expr_arena@.len(),
            ended_as(
                r,
                *final(self),
                view_exprs(final(ast).expr_arena@),
                res_decls(
                    old(self).state(view_exprs(old(ast).expr_arena@)),
                    view_decls(old(ast).roots@),
                    0,
                    view_stmts(old(ast).statement_arena@),
                    old(ast).statement_arena@.len() as int,
                ),
            ),
            ast_ordered(*final(ast)),
    {
        proof {
            lemma_arenas(view_exprs(ast.expr_arena@), view_stmts(ast.statement_arena@));
        }
        let mut exprs: Vec<Expr> = Vec::new();
        core::mem::swap(&mut exprs, &mut ast.expr_arena);
        let bound = ast.statement_arena.len();
        let r = self.visit_declarations(&mut exprs, &ast.statement_arena, &ast.roots, bound);
        ast.expr_arena = exprs;
        proof {
            lemma_arenas(view_exprs(ast.expr_arena@), view_stmts(ast.statement_arena@));
        }
        r
    }
}

} // verus!

verus! {

/// An `else` is resolved as a statement of its own, in what resolving the
/// branches before it left: resolving an `if` with an `else` does what
/// resolving the `if` without it does, then what resolving the `else`
/// statement does. So every name in the `else` is resolved as one in the
/// branches would be.
pub proof fn lemma_else_is_resolved(
    s: RState,
    bs: Seq<(ExprID, SpecStatement)>,
    id: StatementID,
    stmts: Seq<SpecStatement>,
    bound: int,
)
    requires
        0 <= id < bound,
        id < stmts.len(),
    ensures
        res_stmt(s, SpecStatement::IfStatement(bs, Some(id)), stmts, bound) == match res_stmt(
            s,
            SpecStatement::IfStatement(bs, None),
            stmts,
            bound,
        ) {
            ResOut::Done(s2) => res_stmt(s2, stmts[id as int], stmts, id as int),
            u => u,
        },
{
}

/// A loop's body is resolved as a statement of its own, after its condition.
pub proof fn lemma_loop_body_is_resolved(
    s: RState,
    c: ExprID,
    b: StatementID,
    stmts: Seq<SpecStatement>,
    bound: int,
)
    requires
        0 <= b < bound,
        b < stmts.len(),
    ensures
        res_stmt(s, SpecStatement::Whileloop(c, b), stmts, bound) == match res_e(s, c as int) {
            ResOut::Done(s2) => res_stmt(s2, stmts[b as int], stmts, b as int),
            u => u,
        },
{
}

} // verus!

verus! {

/// After `name` is given `slot` in a scope, the scope finds `name` at `slot`,
/// and finds every other name where it found it before.
pub proof fn lemma_insert_then_find(scope: SpecScope, name: Seq<char>, slot: usize, other: Seq<char>)
    ensures
        find_slot(scope_insert(scope, name, slot), name) == Some(slot),
        other != name ==> find_slot(scope_insert(scope, name, slot), other) == find_slot(
            scope,
            other,
        ),
    decreases scope.len(),
{
    lemma_position_found(scope, other);
    match position(scope, name) {
        Some(i) => {
            lemma_position_update(scope, name, slot, i, other);
            lemma_position_found(scope, name);
        },
        None => {
            let s2 = scope.push((name, slot));
            assert(s2.drop_last() =~= scope);
        },
    }
}

proof fn lemma_position_found(scope: SpecScope, name: Seq<char>)
    ensures
        position(scope, name) matches Some(j) ==> 0 <= j < scope.len() && scope[j].0 == name,
    decreases scope.len(),
{
    if scope.len() > 0 && scope.last().0 != name {
        lemma_position_found(scope.drop_last(), name);
    }
}

proof fn lemma_position_update(scope: SpecScope, name: Seq<char>, slot: usize, i: int, other: Seq<char>)
    requires
        position(scope, name) == Some(i),
    ensures
        position(scope.update(i, (name, slot)), name) == Some(i),
        0 <= i < scope.len(),
        other != name ==> position(scope.update(i, (name, slot)), other) == position(scope, other),
    decreases scope.len(),
{
    let s2 = scope.update(i, (name, slot));
    if scope.last().0 == name {
        assert(s2.drop_last() =~= scope.drop_last());
    } else {
        lemma_position_update(scope.drop_last(), name, slot, i, other);
        assert(s2.drop_last() =~= scope.drop_last().update(i, (name, slot)));
        assert(s2.last() == scope.last());
    }
}

/// A function's parameters, all named differently, are in the slots of their
/// places: the `i`-th parameter is in slot `i`.
pub proof fn lemma_parameters_take_their_places(params: Seq<Seq<char>>, i: int)
    requires
        0 <= i < params.len(),
        params.len() <= usize::MAX,
        forall|a: int, b: int| 0 <= a < b < params.len() ==> params[a] != params[b],
    ensures
        find_slot(params_scope(params), params[i]) == Some(i as usize),
    decreases params.len(),
{
    let last = params.len() - 1;
    if i == last {
        lemma_insert_then_find(params_scope(params.drop_last()), params.last(), last as usize, params[i]);
    } else {
        lemma_parameters_take_their_places(params.drop_last(), i);
        lemma_insert_then_find(params_scope(params.drop_last()), params.last(), last as usize, params[i]);
    }
}

} // verus!
