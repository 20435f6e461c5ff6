//! Writing a parsed AST back as source text, one declaration after another.
use crate::parser::builder::{
    view_exprs, view_stmts, view_decls, view_branches, view_fns, lemma_block_view, lemma_if_view,
    lemma_class_view,
};
use crate::parser::parser::{
    AST, ClassDefinition, Declaration, Expr, ExprID, FunctionCall, FunctionDefinition, Operator,
    Primary, SpecClassDefinition, SpecDeclaration,
    SpecExpr, SpecFunctionDefinition, SpecPrimary, SpecStatement, Statement, Unary, ast_ordered,
    decl_within, exprs_ordered, expr_below, stmt_within, view_strings,
};
use crate::parser::resolver::{
    stmts_ordered, lemma_arenas, lemma_stmt_parts, lemma_decl_parts, lemma_print_parts,
    lemma_block_parts, lemma_if_parts, lemma_class_parts,
};
use crate::text::{push_str, push_decimal, spec_decimal};
use vstd::prelude::*;

verus! {

/// How a literal or a name is written.
pub open spec fn fmt_primary(p: SpecPrimary) -> Seq<char> {
    match p {
        SpecPrimary::Number(s) => s,
        SpecPrimary::String(s) => "\""@ + s + "\""@,
        SpecPrimary::Boolean(b) => if b {
            "true"@
        } else {
            "false"@
        },
        SpecPrimary::Identifier(s) => s,
        SpecPrimary::Nil => "nil"@,
        SpecPrimary::MySelf => "self"@,
        SpecPrimary::Local((slot, scope)) => "local("@ + spec_decimal(slot as nat) + ", "@
            + spec_decimal(scope as nat) + ")"@,
    }
}

/// How a binary operator is written, spaces around it.
pub open spec fn operator_text(o: Operator) -> Seq<char> {
    match o {
        Operator::Equal => " == "@,
        Operator::NotEqual => " != "@,
        Operator::Lesser => " < "@,
        Operator::LesserEqual => " <= "@,
        Operator::Greater => " > "@,
        Operator::GreaterEqual => " >= "@,
        Operator::Plus => " + "@,
        Operator::Minus => " - "@,
        Operator::Slash => " / "@,
        Operator::Star => " * "@,
    }
}

/// How the expression `id` is written; a call's arguments are separated by `, `.
pub open spec fn fmt_expr(exprs: Seq<SpecExpr>, id: int) -> Seq<char>
    decreases id, 1int, 0int,
{
    if !(0 <= id < exprs.len()) {
        Seq::empty()
    } else {
        match exprs[id] {
            SpecExpr::Terminal(lp) => fmt_primary(lp.inner),
            SpecExpr::Unary(Unary::Not(a)) => "!"@ + fmt_sub(exprs, a as int, id),
            SpecExpr::Unary(Unary::Minus(a)) => "-"@ + fmt_sub(exprs, a as int, id),
            SpecExpr::Binary(b) => fmt_sub(exprs, b.left as int, id) + operator_text(b.operator)
                + fmt_sub(exprs, b.right as int, id),
            SpecExpr::Ternary(_) => Seq::empty(),
            SpecExpr::LogicalAnd(x) => fmt_sub(exprs, x.left as int, id) + " && "@ + fmt_sub(
                exprs,
                x.right as int,
                id,
            ),
            SpecExpr::LogicalOr(x) => fmt_sub(exprs, x.left as int, id) + " || "@ + fmt_sub(
                exprs,
                x.right as int,
                id,
            ),
            SpecExpr::Assignment(left, right) => fmt_sub(exprs, left as int, id) + " = "@ + fmt_sub(
                exprs,
                right as int,
                id,
            ),
            SpecExpr::FunctionCall(f, args) => fmt_sub(exprs, f as int, id) + "("@ + fmt_args(
                exprs,
                args,
                0,
                id,
            ) + ")"@,
            SpecExpr::Get(a, name) => fmt_sub(exprs, a as int, id) + "."@ + name,
        }
    }
}

pub open spec fn fmt_sub(exprs: Seq<SpecExpr>, a: int, bound: int) -> Seq<char>
    decreases bound, 0int, 0int,
{
    if 0 <= a < bound {
        fmt_expr(exprs, a)
    } else {
        Seq::empty()
    }
}

pub open spec fn fmt_args(exprs: Seq<SpecExpr>, args: Seq<ExprID>, i: int, bound: int) -> Seq<char>
    decreases bound, 0int, args.len() - i + 1,
{
    if !(0 <= i < args.len()) {
        Seq::empty()
    } else {
        fmt_sub(exprs, args[i] as int, bound) + separator(i, args.len() as int) + fmt_args(
            exprs,
            args,
            i + 1,
            bound,
        )
    }
}

/// What follows the `i`-th of `n` items in a list: `, ` but after the last.
pub open spec fn separator(i: int, n: int) -> Seq<char> {
    if i + 1 < n {
        ", "@
    } else {
        Seq::empty()
    }
}

/// The expressions `ids` from the `i`-th on, separated by `, `.
pub open spec fn fmt_ids(exprs: Seq<SpecExpr>, ids: Seq<ExprID>, i: int) -> Seq<char>
    decreases ids.len() - i,
{
    if !(0 <= i < ids.len()) {
        Seq::empty()
    } else {
        fmt_expr(exprs, ids[i] as int) + separator(i, ids.len() as int) + fmt_ids(exprs, ids, i + 1)
    }
}

/// A function's parameters: each followed by `,`, the last by `)`.
pub open spec fn fmt_params(params: Seq<Seq<char>>, i: int) -> Seq<char>
    decreases params.len() - i,
{
    if !(0 <= i < params.len()) {
        Seq::empty()
    } else if i == params.len() - 1 {
        params[i] + ")"@
    } else {
        params[i] + ","@ + fmt_params(params, i + 1)
    }
}

/// How a statement is written, `indent` before the lines of its blocks.
pub open spec fn fmt_stmt(
    exprs: Seq<SpecExpr>,
    stmts: Seq<SpecStatement>,
    s: SpecStatement,
    indent: Seq<char>,
    bound: int,
) -> Seq<char>
    decreases bound, s, 0int,
{
    match s {
        SpecStatement::ExprStatement(e) => fmt_expr(exprs, e as int) + ";\n"@,
        SpecStatement::PrintStatement(items) => "print("@ + fmt_ids(exprs, items, 0) + ");\n"@,
        SpecStatement::Block(ds) => "{\n"@ + fmt_decls(exprs, stmts, ds, 0, indent + "    "@, bound)
            + indent + "}\n"@,
        SpecStatement::IfStatement(bs, other) => fmt_branches(exprs, stmts, bs, 0, indent, bound)
            + match other {
            Some(id) => if 0 <= id < bound && id < stmts.len() {
                "else "@ + fmt_stmt(exprs, stmts, stmts[id as int], indent, id as int)
            } else {
                Seq::empty()
            },
            None => Seq::empty(),
        },
        SpecStatement::Whileloop(c, b) => "while ("@ + fmt_expr(exprs, c as int) + ") "@ + if 0
            <= b < bound && b < stmts.len() {
            fmt_stmt(exprs, stmts, stmts[b as int], indent, b as int)
        } else {
            Seq::empty()
        },
        SpecStatement::Break(_) => "break;\n"@,
        SpecStatement::Continue(_) => "continue;\n"@,
        SpecStatement::Return(e) => "return"@ + match e {
            Some(x) => " "@ + fmt_expr(exprs, x as int),
            None => Seq::empty(),
        } + ";\n"@,
    }
}

/// The branches of an `if` from the `i`-th on: `if (...)` for the first, then
/// `else if (...)`, each with its statement.
pub open spec fn fmt_branches(
    exprs: Seq<SpecExpr>,
    stmts: Seq<SpecStatement>,
    bs: Seq<(ExprID, SpecStatement)>,
    i: int,
    indent: Seq<char>,
    bound: int,
) -> Seq<char>
    decreases bound, bs, bs.len() - i,
{
    if !(0 <= i < bs.len()) {
        Seq::empty()
    } else {
        (if i == 0 {
            "if ("@
        } else {
            "else if ("@
        }) + fmt_expr(exprs, bs[i].0 as int) + ")\n"@ + fmt_stmt(exprs, stmts, bs[i].1, indent, bound)
            + fmt_branches(exprs, stmts, bs, i + 1, indent, bound)
    }
}

/// The declarations `ds` from the `i`-th on.
pub open spec fn fmt_decls(
    exprs: Seq<SpecExpr>,
    stmts: Seq<SpecStatement>,
    ds: Seq<SpecDeclaration>,
    i: int,
    indent: Seq<char>,
    bound: int,
) -> Seq<char>
    decreases bound, ds, ds.len() - i,
{
    if !(0 <= i < ds.len()) {
        Seq::empty()
    } else {
        fmt_decl(exprs, stmts, ds[i], indent, bound) + fmt_decls(exprs, stmts, ds, i + 1, indent, bound)
    }
}

/// `fn name (params) body`.
pub open spec fn fmt_function(
    exprs: Seq<SpecExpr>,
    stmts: Seq<SpecStatement>,
    f: SpecFunctionDefinition,
    indent: Seq<char>,
    bound: int,
) -> Seq<char>
    decreases bound, f, 0int,
{
    "fn "@ + f.name + " ("@ + fmt_params(f.arguments, 0) + " "@ + fmt_stmt(
        exprs,
        stmts,
        f.statement,
        indent,
        bound,
    )
}

/// The methods of a class from the `i`-th on, each on its own line.
pub open spec fn fmt_methods(
    exprs: Seq<SpecExpr>,
    stmts: Seq<SpecStatement>,
    fs: Seq<SpecFunctionDefinition>,
    i: int,
    indent: Seq<char>,
    bound: int,
) -> Seq<char>
    decreases bound, fs, fs.len() - i,
{
    if !(0 <= i < fs.len()) {
        Seq::empty()
    } else {
        indent + fmt_function(exprs, stmts, fs[i], indent, bound) + fmt_methods(
            exprs,
            stmts,
            fs,
            i + 1,
            indent,
            bound,
        )
    }
}

/// The fields of a class from the `i`-th on, each as `var name;`.
pub open spec fn fmt_fields(fields: Seq<Seq<char>>, i: int, indent: Seq<char>) -> Seq<char>
    decreases fields.len() - i,
{
    if !(0 <= i < fields.len()) {
        Seq::empty()
    } else {
        indent + "var "@ + fields[i] + ";\n"@ + fmt_fields(fields, i + 1, indent)
    }
}

/// How a declaration is written, on a line that starts with `indent`.
pub open spec fn fmt_decl(
    exprs: Seq<SpecExpr>,
    stmts: Seq<SpecStatement>,
    d: SpecDeclaration,
    indent: Seq<char>,
    bound: int,
) -> Seq<char>
    decreases bound, d, 0int,
{
    indent + match d {
        SpecDeclaration::Statement(s) => fmt_stmt(exprs, stmts, s, indent, bound),
        SpecDeclaration::VarDecl(name, e) => "var "@ + name + " = "@ + fmt_expr(exprs, e as int)
            + ";\n"@,
        SpecDeclaration::FunctionDefinition(f) => fmt_function(exprs, stmts, f, indent, bound),
        SpecDeclaration::ClassDefinition(c) => "class "@ + c.name + " {\n"@ + fmt_fields(
            c.fields,
            0,
            indent + "    "@,
        ) + indent + "    "@ + fmt_function(exprs, stmts, c.constructor, indent + "    "@, bound)
            + fmt_methods(exprs, stmts, c.functions, 0, indent + "    "@, bound) + indent
            + "}\n"@,
        SpecDeclaration::Comment(text) => "//"@ + text + "\n"@,
        SpecDeclaration::Empty => Seq::empty(),
    }
}

/// The whole AST: each top-level declaration, followed by an empty line.
pub open spec fn fmt_roots(
    exprs: Seq<SpecExpr>,
    stmts: Seq<SpecStatement>,
    roots: Seq<SpecDeclaration>,
    i: int,
) -> Seq<char>
    decreases roots.len() - i,
{
    if !(0 <= i < roots.len()) {
        Seq::empty()
    } else {
        fmt_decl(exprs, stmts, roots[i], Seq::empty(), stmts.len() as int) + "\n"@ + fmt_roots(
            exprs,
            stmts,
            roots,
            i + 1,
        )
    }
}

} // verus!

verus! {

fn display_primary(out: &mut String, primary: &Primary)
    ensures
        final(out)@ == old(out)@ + fmt_primary(primary@),
{
    match primary {
        Primary::Number(s) => push_str(out, s.as_str()),
        Primary::String(s) => {
            push_str(out, "\"");
            push_str(out, s.as_str());
            push_str(out, "\"");
        },
        Primary::Boolean(b) => {
            if *b {
                push_str(out, "true");
            } else {
                push_str(out, "false");
            }
        },
        Primary::Identifier(s) => push_str(out, s.as_str()),
        Primary::Nil => push_str(out, "nil"),
        Primary::MySelf => push_str(out, "self"),
        Primary::Local((slot, scope)) => {
            push_str(out, "local(");
            push_decimal(out, *slot);
            push_str(out, ", ");
            push_decimal(out, *scope);
            push_str(out, ")");
        },
    }
    proof {
        assert(out@ =~= old(out)@ + fmt_primary(primary@));
    }
}

fn operator_str(operator: Operator) -> (s: &'static str)
    ensures
        s@ == operator_text(operator),
{
    match operator {
        Operator::Equal => " == ",
        Operator::NotEqual => " != ",
        Operator::Lesser => " < ",
        Operator::LesserEqual => " <= ",
        Operator::Greater => " > ",
        Operator::GreaterEqual => " >= ",
        Operator::Plus => " + ",
        Operator::Minus => " - ",
        Operator::Slash => " / ",
        Operator::Star => " * ",
    }
}

/// Writes the expression `id`.
fn display_expression(out: &mut String, exprs: &Vec<Expr>, id: ExprID)
    requires
        exprs_ordered(view_exprs(exprs@)),
        id < exprs@.len(),
    ensures
        final(out)@ == old(out)@ + fmt_expr(view_exprs(exprs@), id as int),
    decreases id, 1int,
{
    let ghost ev = view_exprs(exprs@);
    proof {
        assert(expr_below(ev[id as int], id as int));
        reveal_with_fuel(fmt_sub, 2);
    }
    match &exprs[id] {
        Expr::Terminal(located_primary) => display_primary(out, &located_primary.inner),
        Expr::Unary(Unary::Not(a)) => {
            push_str(out, "!");
            display_expression(out, exprs, *a);
        },
        Expr::Unary(Unary::Minus(a)) => {
            push_str(out, "-");
            display_expression(out, exprs, *a);
        },
        Expr::Binary(binary) => {
            display_expression(out, exprs, binary.left);
            push_str(out, operator_str(binary.operator));
            display_expression(out, exprs, binary.right);
        },
        Expr::Ternary(_) => {},
        Expr::LogicalAnd(x) => {
            display_expression(out, exprs, x.left);
            push_str(out, " && ");
            display_expression(out, exprs, x.right);
        },
        Expr::LogicalOr(x) => {
            display_expression(out, exprs, x.left);
            push_str(out, " || ");
            display_expression(out, exprs, x.right);
        },
        Expr::Assignment(left, right) => {
            display_expression(out, exprs, *left);
            push_str(out, " = ");
            display_expression(out, exprs, *right);
        },
        Expr::FunctionCall(function_call) => {
            proof {
                assert(ev[id as int] == exprs@[id as int]@);
                assert forall|k: int|
                    0 <= k < function_call.arguments@.len() implies function_call.arguments@[k]
                    < id by {
                    let e = ev[id as int];
                    assert(e == SpecExpr::FunctionCall(function_call.func, function_call.arguments@));
                    assert(expr_below(e, id as int));
                    if let SpecExpr::FunctionCall(_, args) = e {
                        assert(args[k] < id);
                    }
                }
            }
            display_function_call(out, exprs, function_call, id)
        },
        Expr::Get(a, name) => {
            display_expression(out, exprs, *a);
            push_str(out, ".");
            push_str(out, name.as_str());
        },
    }
    proof {
        assert(out@ =~= old(out)@ + fmt_expr(ev, id as int));
    }
}

/// Writes a call, the callee and then its arguments, separated by `, `.
fn display_function_call(out: &mut String, exprs: &Vec<Expr>, input: &FunctionCall, bound: ExprID)
    requires
        exprs_ordered(view_exprs(exprs@)),
        bound < exprs@.len(),
        input.func < bound,
        forall|k: int| 0 <= k < input.arguments@.len() ==> input.arguments@[k] < bound,
    ensures
        final(out)@ == old(out)@ + fmt_sub(view_exprs(exprs@), input.func as int, bound as int)
            + "("@ + fmt_args(view_exprs(exprs@), input.arguments@, 0, bound as int) + ")"@,
    decreases bound, 0int,
{
    let ghost ev = view_exprs(exprs@);
    let ghost args = input.arguments@;
    proof {
        reveal_with_fuel(fmt_sub, 2);
    }
    display_expression(out, exprs, input.func);
    push_str(out, "(");
    let ghost start = out@;
    let mut i: usize = 0;
    while i < input.arguments.len()
        invariant
            i <= args.len(),
            args == input.arguments@,
            ev == view_exprs(exprs@),
            exprs_ordered(ev),
            bound < exprs@.len(),
            forall|k: int| 0 <= k < args.len() ==> args[k] < bound,
            start + fmt_args(ev, args, 0, bound as int) == out@ + fmt_args(ev, args, i as int, bound as int),
        decreases args.len() - i,
    {
        let ghost before = out@;
        proof {
            reveal_with_fuel(fmt_sub, 2);
            reveal_with_fuel(fmt_args, 2);
        }
        display_expression(out, exprs, input.arguments[i]);
        push_separator(out, i, input.arguments.len());
        proof {
            assert(fmt_args(ev, args, i as int, bound as int) == fmt_expr(ev, args[i as int] as int)
                + separator(i as int, args.len() as int) + fmt_args(ev, args, i + 1, bound as int));
            assert(before + fmt_args(ev, args, i as int, bound as int) =~= out@ + fmt_args(
                ev,
                args,
                i + 1,
                bound as int,
            ));
        }
        i = i + 1;
    }
    proof {
        assert(fmt_args(ev, args, i as int, bound as int) =~= Seq::<char>::empty());
    }
    push_str(out, ")");
    proof {
        assert(out@ =~= old(out)@ + fmt_sub(ev, input.func as int, bound as int) + "("@ + fmt_args(
            ev,
            args,
            0,
            bound as int,
        ) + ")"@);
    }
}

} // verus!

verus! {

/// Writes the expressions `ids`, separated by `, `.
/// Writes what follows the `i`-th of `n` items in a list.
fn push_separator(out: &mut String, i: usize, n: usize)
    ensures
        final(out)@ == old(out)@ + separator(i as int, n as int),
{
    if i < n && n - i > 1 {
        push_str(out, ", ");
    }
    proof {
        reveal_strlit(", ");
        assert(old(out)@ + Seq::<char>::empty() =~= old(out)@);
    }
}

fn display_ids(out: &mut String, exprs: &Vec<Expr>, ids: &Vec<ExprID>)
    requires
        exprs_ordered(view_exprs(exprs@)),
        forall|k: int| 0 <= k < ids@.len() ==> ids@[k] < exprs@.len(),
    ensures
        final(out)@ == old(out)@ + fmt_ids(view_exprs(exprs@), ids@, 0),
{
    let ghost ev = view_exprs(exprs@);
    let mut i: usize = 0;
    while i < ids.len()
        invariant
            i <= ids@.len(),
            ev == view_exprs(exprs@),
            exprs_ordered(ev),
            forall|k: int| 0 <= k < ids@.len() ==> ids@[k] < exprs@.len(),
            old(out)@ + fmt_ids(ev, ids@, 0) == out@ + fmt_ids(ev, ids@, i as int),
        decreases ids@.len() - i,
    {
        let ghost before = out@;
        display_expression(out, exprs, ids[i]);
        push_separator(out, i, ids.len());
        proof {
            assert(before + fmt_ids(ev, ids@, i as int) =~= out@ + fmt_ids(ev, ids@, i + 1));
        }
        i = i + 1;
    }
    proof {
        assert(out@ + fmt_ids(ev, ids@, i as int) =~= out@);
    }
}

/// Writes a statement; the lines of its blocks start with `indent`.
fn display_statement(
    out: &mut String,
    exprs: &Vec<Expr>,
    stmts: &Vec<Statement>,
    statement: &Statement,
    indent: &String,
    bound: usize,
)
    requires
        exprs_ordered(view_exprs(exprs@)),
        stmts_ordered(view_stmts(stmts@), exprs@.len() as int),
        bound <= stmts@.len(),
        stmt_within(statement@, exprs@.len() as int, bound as int),
    ensures
        final(out)@ == old(out)@ + fmt_stmt(
            view_exprs(exprs@),
            view_stmts(stmts@),
            statement@,
            indent@,
            bound as int,
        ),
    decreases bound, statement, 0int,
{
    let ghost ev = view_exprs(exprs@);
    let ghost sv = view_stmts(stmts@);
    proof {
        lemma_stmt_parts(statement@, exprs@.len() as int, bound as int);
    }
    match statement {
        Statement::ExprStatement(expr) => {
            display_expression(out, exprs, *expr);
            push_str(out, ";\n");
        },
        Statement::PrintStatement(items) => {
            proof {
                assert(statement@ == SpecStatement::PrintStatement(items@));
                lemma_print_parts(items@, exprs@.len() as int, bound as int);
            }
            push_str(out, "print(");
            display_ids(out, exprs, items);
            push_str(out, ");\n");
        },
        Statement::Block(declarations) => {
            proof {
                lemma_block_view(*declarations);
                assert(statement@ == SpecStatement::Block(view_decls(declarations@)));
                let ds = view_decls(declarations@);
                lemma_block_parts(ds, exprs@.len() as int, bound as int);
                assert forall|k: int|
                    #![trigger declarations@[k]]
                    0 <= k < declarations@.len() implies decl_within(
                    declarations@[k]@,
                    exprs@.len() as int,
                    bound as int,
                ) by {
                    assert(ds[k] == declarations@[k]@);
                }
            }
            push_str(out, "{\n");
            let mut deeper = indent.clone();
            push_str(&mut deeper, "    ");
            display_decls(out, exprs, stmts, declarations, &deeper, bound);
            push_str(out, indent.as_str());
            push_str(out, "}\n");
        },
        Statement::IfStatement(items, block) => {
            proof {
                lemma_if_view(*items, *block);
                lemma_if_parts(view_branches(items@), *block, exprs@.len() as int, bound as int);
            }
            display_branches(out, exprs, stmts, items, indent, bound);
            if let Some(block) = block {
                proof {
                    assert(sv[*block as int] == stmts@[*block as int]@);
                    assert(stmt_within(sv[*block as int], exprs@.len() as int, *block as int));
                }
                push_str(out, "else ");
                display_statement(out, exprs, stmts, &stmts[*block], indent, *block);
            }
        },
        Statement::Whileloop(cond, statement) => {
            push_str(out, "while (");
            display_expression(out, exprs, *cond);
            push_str(out, ") ");
            proof {
                assert(sv[*statement as int] == stmts@[*statement as int]@);
                assert(stmt_within(sv[*statement as int], exprs@.len() as int, *statement as int));
            }
            display_statement(out, exprs, stmts, &stmts[*statement], indent, *statement);
        },
        Statement::Break(_) => push_str(out, "break;\n"),
        Statement::Continue(_) => push_str(out, "continue;\n"),
        Statement::Return(expr_id) => {
            push_str(out, "return");
            if let Some(expr_id) = expr_id {
                push_str(out, " ");
                display_expression(out, exprs, *expr_id);
            }
            push_str(out, ";\n");
        },
    }
    proof {
        assert(out@ =~= old(out)@ + fmt_stmt(ev, sv, statement@, indent@, bound as int));
    }
}

/// Writes the branches of an `if`: `if (...)` then `else if (...)`, each with
/// its statement.
fn display_branches(
    out: &mut String,
    exprs: &Vec<Expr>,
    stmts: &Vec<Statement>,
    items: &Vec<(ExprID, Statement)>,
    indent: &String,
    bound: usize,
)
    requires
        exprs_ordered(view_exprs(exprs@)),
        stmts_ordered(view_stmts(stmts@), exprs@.len() as int),
        bound <= stmts@.len(),
        forall|k: int|
            #![trigger view_branches(items@)[k]]
            0 <= k < items@.len() ==> view_branches(items@)[k].0 < exprs@.len() && stmt_within(
                view_branches(items@)[k].1,
                exprs@.len() as int,
                bound as int,
            ),
    ensures
        final(out)@ == old(out)@ + fmt_branches(
            view_exprs(exprs@),
            view_stmts(stmts@),
            view_branches(items@),
            0,
            indent@,
            bound as int,
        ),
    decreases bound, items, 1int,
{
    let ghost ev = view_exprs(exprs@);
    let ghost sv = view_stmts(stmts@);
    let ghost bs = view_branches(items@);
    let mut i: usize = 0;
    while i < items.len()
        invariant
            i <= items@.len(),
            bs == view_branches(items@),
            ev == view_exprs(exprs@),
            sv == view_stmts(stmts@),
            exprs_ordered(ev),
            stmts_ordered(sv, exprs@.len() as int),
            bound <= stmts@.len(),
            forall|k: int|
                #![trigger bs[k]]
                0 <= k < bs.len() ==> bs[k].0 < exprs@.len() && stmt_within(
                    bs[k].1,
                    exprs@.len() as int,
                    bound as int,
                ),
            old(out)@ + fmt_branches(ev, sv, bs, 0, indent@, bound as int) == out@ + fmt_branches(
                ev,
                sv,
                bs,
                i as int,
                indent@,
                bound as int,
            ),
        decreases items@.len() - i,
    {
        let ghost before = out@;
        proof {
            assert(bs[i as int] == (items@[i as int].0, items@[i as int].1@));
        }
        if i == 0 {
            push_str(out, "if (");
        } else {
            push_str(out, "else if (");
        }
        display_expression(out, exprs, items[i].0);
        push_str(out, ")\n");
        display_statement(out, exprs, stmts, &items[i].1, indent, bound);
        proof {
            assert(before + fmt_branches(ev, sv, bs, i as int, indent@, bound as int) =~= out@
                + fmt_branches(ev, sv, bs, i + 1, indent@, bound as int));
        }
        i = i + 1;
    }
    proof {
        assert(out@ + fmt_branches(ev, sv, bs, i as int, indent@, bound as int) =~= out@);
    }
}

/// Writes declarations, in order, each on lines that start with `indent`.
fn display_decls(
    out: &mut String,
    exprs: &Vec<Expr>,
    stmts: &Vec<Statement>,
    decls: &Vec<Declaration>,
    indent: &String,
    bound: usize,
)
    requires
        exprs_ordered(view_exprs(exprs@)),
        stmts_ordered(view_stmts(stmts@), exprs@.len() as int),
        bound <= stmts@.len(),
        forall|k: int|
            #![trigger decls@[k]]
            0 <= k < decls@.len() ==> decl_within(decls@[k]@, exprs@.len() as int, bound as int),
    ensures
        final(out)@ == old(out)@ + fmt_decls(
            view_exprs(exprs@),
            view_stmts(stmts@),
            view_decls(decls@),
            0,
            indent@,
            bound as int,
        ),
    decreases bound, decls, 1int,
{
    let ghost ev = view_exprs(exprs@);
    let ghost sv = view_stmts(stmts@);
    let ghost ds = view_decls(decls@);
    let mut i: usize = 0;
    while i < decls.len()
        invariant
            i <= decls@.len(),
            ds == view_decls(decls@),
            ev == view_exprs(exprs@),
            sv == view_stmts(stmts@),
            exprs_ordered(ev),
            stmts_ordered(sv, exprs@.len() as int),
            bound <= stmts@.len(),
            forall|k: int|
                #![trigger decls@[k]]
                0 <= k < decls@.len() ==> decl_within(
                    decls@[k]@,
                    exprs@.len() as int,
                    bound as int,
                ),
            old(out)@ + fmt_decls(ev, sv, ds, 0, indent@, bound as int) == out@ + fmt_decls(
                ev,
                sv,
                ds,
                i as int,
                indent@,
                bound as int,
            ),
        decreases decls@.len() - i,
    {
        let ghost before = out@;
        proof {
            assert(ds[i as int] == decls@[i as int]@);
        }
        display_decl(out, exprs, stmts, &decls[i], indent, bound);
        proof {
            assert(before + fmt_decls(ev, sv, ds, i as int, indent@, bound as int) =~= out@
                + fmt_decls(ev, sv, ds, i + 1, indent@, bound as int));
        }
        i = i + 1;
    }
    proof {
        assert(out@ + fmt_decls(ev, sv, ds, i as int, indent@, bound as int) =~= out@);
    }
}

} // verus!

verus! {

/// Writes `fn name (params) body`.
fn display_function_definition(
    out: &mut String,
    exprs: &Vec<Expr>,
    stmts: &Vec<Statement>,
    function_definition: &FunctionDefinition,
    indent: &String,
    bound: usize,
)
    requires
        exprs_ordered(view_exprs(exprs@)),
        stmts_ordered(view_stmts(stmts@), exprs@.len() as int),
        bound <= stmts@.len(),
        stmt_within(function_definition@.statement, exprs@.len() as int, bound as int),
    ensures
        final(out)@ == old(out)@ + fmt_function(
            view_exprs(exprs@),
            view_stmts(stmts@),
            function_definition@,
            indent@,
            bound as int,
        ),
    decreases bound, function_definition, 0int,
{
    let ghost params = view_strings(function_definition.arguments@);
    push_str(out, "fn ");
    push_str(out, function_definition.name.as_str());
    push_str(out, " (");
    let ghost start = out@;
    let n = function_definition.arguments.len();
    let mut i: usize = 0;
    while i < n
        invariant
            i <= n,
            n == params.len(),
            params == view_strings(function_definition.arguments@),
            start + fmt_params(params, 0) == out@ + fmt_params(params, i as int),
        decreases n - i,
    {
        let ghost before = out@;
        push_str(out, function_definition.arguments[i].as_str());
        if i == n - 1 {
            push_str(out, ")");
        } else {
            push_str(out, ",");
        }
        proof {
            assert(params[i as int] == function_definition.arguments@[i as int]@);
            assert(before + fmt_params(params, i as int) =~= out@ + fmt_params(params, i + 1));
        }
        i = i + 1;
    }
    proof {
        assert(out@ + fmt_params(params, i as int) =~= out@);
    }
    push_str(out, " ");
    display_statement(out, exprs, stmts, &function_definition.statement, indent, bound);
    proof {
        assert(out@ =~= old(out)@ + fmt_function(
            view_exprs(exprs@),
            view_stmts(stmts@),
            function_definition@,
            indent@,
            bound as int,
        ));
    }
}

/// Writes a declaration on lines that start with `indent`.
fn display_decl(
    out: &mut String,
    exprs: &Vec<Expr>,
    stmts: &Vec<Statement>,
    declaration: &Declaration,
    indent: &String,
    bound: usize,
)
    requires
        exprs_ordered(view_exprs(exprs@)),
        stmts_ordered(view_stmts(stmts@), exprs@.len() as int),
        bound <= stmts@.len(),
        decl_within(declaration@, exprs@.len() as int, bound as int),
    ensures
        final(out)@ == old(out)@ + fmt_decl(
            view_exprs(exprs@),
            view_stmts(stmts@),
            declaration@,
            indent@,
            bound as int,
        ),
    decreases bound, declaration, 0int,
{
    let ghost ev = view_exprs(exprs@);
    let ghost sv = view_stmts(stmts@);
    proof {
        lemma_decl_parts(declaration@, exprs@.len() as int, bound as int);
    }
    push_str(out, indent.as_str());
    let ghost after_indent = out@;
    match declaration {
        Declaration::Statement(statement) => display_statement(
            out,
            exprs,
            stmts,
            statement,
            indent,
            bound,
        ),
        Declaration::VarDecl(s, expr_id) => {
            push_str(out, "var ");
            push_str(out, s.as_str());
            push_str(out, " = ");
            display_expression(out, exprs, *expr_id);
            push_str(out, ";\n");
        },
        Declaration::FunctionDefinition(function_definition) => {
            display_function_definition(out, exprs, stmts, function_definition, indent, bound);
        },
        Declaration::ClassDefinition(class) => {
            proof {
                lemma_class_view(*class);
                let fs = view_fns(class.functions@);
                lemma_class_parts(
                    SpecClassDefinition {
                        name: class.name@,
                        fields: view_strings(class.fields@),
                        functions: fs,
                        constructor: class.constructor@,
                    },
                    exprs@.len() as int,
                    bound as int,
                );
                assert forall|k: int|
                    #![trigger class.functions@[k]]
                    0 <= k < class.functions@.len() implies stmt_within(
                    class.functions@[k]@.statement,
                    exprs@.len() as int,
                    bound as int,
                ) by {
                    assert(fs[k] == class.functions@[k]@);
                }
            }
            display_class(out, exprs, stmts, class, indent, bound);
        },
        Declaration::Comment(text) => {
            push_str(out, "//");
            push_str(out, text.as_str());
            push_str(out, "\n");
        },
        Declaration::Empty => {},
    }
    proof {
        assert(out@ =~= old(out)@ + fmt_decl(ev, sv, declaration@, indent@, bound as int));
    }
}

/// Writes a class: its fields, its constructor, then its methods.
fn display_class(
    out: &mut String,
    exprs: &Vec<Expr>,
    stmts: &Vec<Statement>,
    class: &ClassDefinition,
    indent: &String,
    bound: usize,
)
    requires
        exprs_ordered(view_exprs(exprs@)),
        stmts_ordered(view_stmts(stmts@), exprs@.len() as int),
        bound <= stmts@.len(),
        forall|k: int|
            #![trigger class.functions@[k]]
            0 <= k < class.functions@.len() ==> stmt_within(
                class.functions@[k]@.statement,
                exprs@.len() as int,
                bound as int,
            ),
        stmt_within(class.constructor@.statement, exprs@.len() as int, bound as int),
    ensures
        final(out)@ == old(out)@ + ("class "@ + class.name@ + " {\n"@ + fmt_fields(
            view_strings(class.fields@),
            0,
            indent@ + "    "@,
        ) + indent@ + "    "@ + fmt_function(
            view_exprs(exprs@),
            view_stmts(stmts@),
            class.constructor@,
            indent@ + "    "@,
            bound as int,
        ) + fmt_methods(
            view_exprs(exprs@),
            view_stmts(stmts@),
            view_fns(class.functions@),
            0,
            indent@ + "    "@,
            bound as int,
        ) + indent@ + "}\n"@),
    decreases bound, class, 0int,
{
    let ghost ev = view_exprs(exprs@);
    let ghost sv = view_stmts(stmts@);
    let ghost fields = view_strings(class.fields@);
    let ghost fs = view_fns(class.functions@);
    let mut deeper = indent.clone();
    push_str(&mut deeper, "    ");
    push_str(out, "class ");
    push_str(out, class.name.as_str());
    push_str(out, " {\n");
    let ghost start = out@;
    let mut i: usize = 0;
    while i < class.fields.len()
        invariant
            i <= class.fields@.len(),
            fields == view_strings(class.fields@),
            start + fmt_fields(fields, 0, deeper@) == out@ + fmt_fields(fields, i as int, deeper@),
        decreases class.fields@.len() - i,
    {
        let ghost before = out@;
        push_str(out, deeper.as_str());
        push_str(out, "var ");
        push_str(out, class.fields[i].as_str());
        push_str(out, ";\n");
        proof {
            assert(fields[i as int] == class.fields@[i as int]@);
            assert(before + fmt_fields(fields, i as int, deeper@) =~= out@ + fmt_fields(
                fields,
                i + 1,
                deeper@,
            ));
        }
        i = i + 1;
    }
    proof {
        assert(out@ + fmt_fields(fields, i as int, deeper@) =~= out@);
    }
    let ghost after_fields = out@;
    push_str(out, deeper.as_str());
    display_function_definition(out, exprs, stmts, &class.constructor, &deeper, bound);
    let ghost start2 = out@;
    let mut j: usize = 0;
    while j < class.functions.len()
        invariant
            j <= class.functions@.len(),
            fs == view_fns(class.functions@),
            ev == view_exprs(exprs@),
            sv == view_stmts(stmts@),
            exprs_ordered(ev),
            stmts_ordered(sv, exprs@.len() as int),
            bound <= stmts@.len(),
            forall|k: int|
                #![trigger class.functions@[k]]
                0 <= k < class.functions@.len() ==> stmt_within(
                    class.functions@[k]@.statement,
                    exprs@.len() as int,
                    bound as int,
                ),
            start2 + fmt_methods(ev, sv, fs, 0, deeper@, bound as int) == out@ + fmt_methods(
                ev,
                sv,
                fs,
                j as int,
                deeper@,
                bound as int,
            ),
        decreases class.functions@.len() - j,
    {
        let ghost before = out@;
        push_str(out, deeper.as_str());
        display_function_definition(out, exprs, stmts, &class.functions[j], &deeper, bound);
        proof {
            assert(fs[j as int] == class.functions@[j as int]@);
            assert(before + fmt_methods(ev, sv, fs, j as int, deeper@, bound as int) =~= out@
                + fmt_methods(ev, sv, fs, j + 1, deeper@, bound as int));
        }
        j = j + 1;
    }
    proof {
        assert(out@ + fmt_methods(ev, sv, fs, j as int, deeper@, bound as int) =~= out@);
    }
    push_str(out, indent.as_str());
    push_str(out, "}\n");
    proof {
        assert(out@ =~= old(out)@ + ("class "@ + class.name@ + " {\n"@ + fmt_fields(
            fields,
            0,
            indent@ + "    "@,
        ) + indent@ + "    "@ + fmt_function(
            ev,
            sv,
            class.constructor@,
            indent@ + "    "@,
            bound as int,
        ) + fmt_methods(ev, sv, fs, 0, indent@ + "    "@, bound as int) + indent@ + "}\n"@));
    }
}

/// The AST written back as source text: each top-level declaration, then an
/// empty line.
pub fn display_ast(ast: &AST) -> (r: String)
    requires
        ast_ordered(*ast),
    ensures
        r@ == fmt_roots(
            view_exprs(ast.expr_arena@),
            view_stmts(ast.statement_arena@),
            view_decls(ast.roots@),
            0,
        ),
{
    let ghost ev = view_exprs(ast.expr_arena@);
    let ghost sv = view_stmts(ast.statement_arena@);
    let ghost ds = view_decls(ast.roots@);
    proof {
        lemma_arenas(ev, sv);
    }
    let mut out = String::new();
    let indent = String::new();
    let bound = ast.statement_arena.len();
    let mut i: usize = 0;
    while i < ast.roots.len()
        invariant
            i <= ast.roots@.len(),
            ds == view_decls(ast.roots@),
            ev == view_exprs(ast.expr_arena@),
            sv == view_stmts(ast.statement_arena@),
            exprs_ordered(ev),
            stmts_ordered(sv, ast.expr_arena@.len() as int),
            bound == ast.statement_arena@.len(),
            indent@ == Seq::<char>::empty(),
            ast_ordered(*ast),
            fmt_roots(ev, sv, ds, 0) == out@ + fmt_roots(ev, sv, ds, i as int),
        decreases ast.roots@.len() - i,
    {
        let ghost before = out@;
        proof {
            assert(ds[i as int] == ast.roots@[i as int]@);
            assert(decl_within(
                ast.roots@[i as int]@,
                ast.expr_arena@.len() as int,
                ast.statement_arena@.len() as int,
            ));
        }
        display_decl(&mut out, &ast.expr_arena, &ast.statement_arena, &ast.roots[i], &indent, bound);
        push_str(&mut out, "\n");
        proof {
            assert(before + fmt_roots(ev, sv, ds, i as int) =~= out@ + fmt_roots(ev, sv, ds, i + 1));
        }
        i = i + 1;
    }
    proof {
        assert(out@ + fmt_roots(ev, sv, ds, i as int) =~= out@);
    }
    out
}

} // verus!

