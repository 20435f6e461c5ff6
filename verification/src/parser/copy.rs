//! Copies of statements and declarations, equal to the originals in view.
use crate::parser::builder::{
    view_branches, view_decls, view_fns, lemma_block_view, lemma_if_view, lemma_class_view,
};
use crate::parser::parser::{
    ClassDefinition, Declaration, ExprID, FunctionDefinition, Statement, view_strings,
};
use crate::text::push_str;
use vstd::prelude::*;

verus! {

fn copy_string(s: &String) -> (r: String)
    ensures
        r@ == s@,
{
    let mut r = String::new();
    push_str(&mut r, s.as_str());
    proof {
        reveal_strlit("");
        assert(r@ =~= s@);
    }
    r
}

fn copy_strings(v: &Vec<String>) -> (r: Vec<String>)
    ensures
        view_strings(r@) == view_strings(v@),
{
    let mut r: Vec<String> = Vec::new();
    let mut i: usize = 0;
    while i < v.len()
        invariant
            i <= v@.len(),
            view_strings(r@) == view_strings(v@.take(i as int)),
        decreases v@.len() - i,
    {
        let ghost before = r@;
        let x = copy_string(&v[i]);
        r.push(x);
        proof {
            assert(v@.take(i + 1) =~= v@.take(i as int).push(v@[i as int]));
            assert(view_strings(r@) =~= view_strings(before).push(x@));
            assert(view_strings(v@.take(i + 1)) =~= view_strings(v@.take(i as int)).push(
                v@[i as int]@,
            ));
        }
        i = i + 1;
    }
    proof {
        assert(v@.take(i as int) =~= v@);
    }
    r
}

fn copy_ids(v: &Vec<ExprID>) -> (r: Vec<ExprID>)
    ensures
        r@ == v@,
{
    let mut r: Vec<ExprID> = Vec::new();
    let mut i: usize = 0;
    while i < v.len()
        invariant
            i <= v@.len(),
            r@ == v@.take(i as int),
        decreases v@.len() - i,
    {
        r.push(v[i]);
        proof {
            assert(v@.take(i + 1) =~= v@.take(i as int).push(v@[i as int]));
        }
        i = i + 1;
    }
    proof {
        assert(v@.take(i as int) =~= v@);
    }
    r
}

/// A copy of `s`.
pub fn copy_statement(s: &Statement) -> (r: Statement)
    ensures
        r@ == s@,
    decreases s,
{
    match s {
        Statement::ExprStatement(e) => Statement::ExprStatement(*e),
        Statement::PrintStatement(items) => {
            let r = Statement::PrintStatement(copy_ids(items));
            r
        },
        Statement::Block(ds) => {
            let mut out: Vec<Declaration> = Vec::new();
            let mut i: usize = 0;
            while i < ds.len()
                invariant
                    i <= ds@.len(),
                    view_decls(out@) == view_decls(ds@.take(i as int)),
                    *s == Statement::Block(*ds),
                decreases ds@.len() - i,
            {
                proof {
                    assert(decreases_to!(*s => (*s)->Block_0));
                    assert(decreases_to!(*ds => ds@));
                    assert(decreases_to!(ds@ => ds@[i as int]));
                }
                let ghost before = out@;
                let x = copy_declaration(&ds[i]);
                out.push(x);
                proof {
                    assert(ds@.take(i + 1) =~= ds@.take(i as int).push(ds@[i as int]));
                    assert(view_decls(out@) =~= view_decls(before).push(x@));
                    assert(view_decls(ds@.take(i + 1)) =~= view_decls(ds@.take(i as int)).push(
                        ds@[i as int]@,
                    ));
                }
                i = i + 1;
            }
            proof {
                assert(ds@.take(i as int) =~= ds@);
                lemma_block_view(out);
                lemma_block_view(*ds);
            }
            Statement::Block(out)
        },
        Statement::IfStatement(bs, other) => {
            let mut out: Vec<(ExprID, Statement)> = Vec::new();
            let mut i: usize = 0;
            while i < bs.len()
                invariant
                    i <= bs@.len(),
                    view_branches(out@) == view_branches(bs@.take(i as int)),
                    *s == Statement::IfStatement(*bs, *other),
                decreases bs@.len() - i,
            {
                proof {
                    assert(decreases_to!(*s => (*s)->IfStatement_0));
                    assert(decreases_to!(*bs => bs@));
                    assert(decreases_to!(bs@ => bs@[i as int]));
                    assert(decreases_to!(bs@[i as int] => bs@[i as int].1));
                }
                let ghost before = out@;
                let b = copy_statement(&bs[i].1);
                out.push((bs[i].0, b));
                proof {
                    assert(bs@.take(i + 1) =~= bs@.take(i as int).push(bs@[i as int]));
                    assert(view_branches(out@) =~= view_branches(before).push((bs@[i as int].0, b@)));
                    assert(view_branches(bs@.take(i + 1)) =~= view_branches(bs@.take(i as int)).push(
                        (bs@[i as int].0, bs@[i as int].1@),
                    ));
                }
                i = i + 1;
            }
            proof {
                assert(bs@.take(i as int) =~= bs@);
                lemma_if_view(out, *other);
                lemma_if_view(*bs, *other);
            }
            Statement::IfStatement(out, *other)
        },
        Statement::Whileloop(c, b) => Statement::Whileloop(*c, *b),
        Statement::Break(t) => Statement::Break(t.clone()),
        Statement::Continue(t) => Statement::Continue(t.clone()),
        Statement::Return(e) => Statement::Return(*e),
    }
}

/// A copy of `f`.
pub fn copy_function(f: &FunctionDefinition) -> (r: FunctionDefinition)
    ensures
        r@ == f@,
    decreases f,
{
    proof {
        assert(decreases_to!(*f => f.statement));
    }
    FunctionDefinition {
        name: copy_string(&f.name),
        arguments: copy_strings(&f.arguments),
        statement: copy_statement(&f.statement),
    }
}

/// A copy of `d`.
pub fn copy_declaration(d: &Declaration) -> (r: Declaration)
    ensures
        r@ == d@,
    decreases d,
{
    match d {
        Declaration::Statement(s) => Declaration::Statement(copy_statement(s)),
        Declaration::VarDecl(n, e) => Declaration::VarDecl(copy_string(n), *e),
        Declaration::FunctionDefinition(f) => Declaration::FunctionDefinition(copy_function(f)),
        Declaration::ClassDefinition(c) => {
            let mut fns: Vec<FunctionDefinition> = Vec::new();
            let mut i: usize = 0;
            while i < c.functions.len()
                invariant
                    i <= c.functions@.len(),
                    view_fns(fns@) == view_fns(c.functions@.take(i as int)),
                    *d == Declaration::ClassDefinition(*c),
                decreases c.functions@.len() - i,
            {
                proof {
                    assert(decreases_to!(*d => (*d)->ClassDefinition_0));
                    assert(decreases_to!(*c => c.functions));
                    assert(decreases_to!(c.functions => c.functions@));
                    assert(decreases_to!(c.functions@ => c.functions@[i as int]));
                }
                let ghost before = fns@;
                let x = copy_function(&c.functions[i]);
                fns.push(x);
                proof {
                    assert(c.functions@.take(i + 1) =~= c.functions@.take(i as int).push(
                        c.functions@[i as int],
                    ));
                    assert(view_fns(fns@) =~= view_fns(before).push(x@));
                    assert(view_fns(c.functions@.take(i + 1)) =~= view_fns(c.functions@.take(i as int)).push(
                        c.functions@[i as int]@,
                    ));
                }
                i = i + 1;
            }
            proof {
                assert(c.functions@.take(i as int) =~= c.functions@);
                assert(decreases_to!(*d => c.constructor));
            }
            let copy = ClassDefinition {
                name: copy_string(&c.name),
                fields: copy_strings(&c.fields),
                functions: fns,
                constructor: copy_function(&c.constructor),
            };
            proof {
                lemma_class_view(copy);
                lemma_class_view(*c);
            }
            Declaration::ClassDefinition(copy)
        },
        Declaration::Comment(s) => Declaration::Comment(copy_string(s)),
        Declaration::Empty => Declaration::Empty,
    }
}

} // verus!
