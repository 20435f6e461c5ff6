use brod::diagnostic::Span;
use brod::interpreter::evaluator::RuntimeError;
use brod::interpreter::machine::{Evaluator, Reply, Request, Wait};
use brod::lexer::lexer::lex;
use brod::parser::copy::copy_function;
use brod::parser::parser::{ASTBuilder, Expr, FunctionDefinition, Operator, Primary, AST};
use brod::parser::resolver::Resolver;
use std::collections::HashMap;

/// A small driver: integers for numbers, 0 and 1 for booleans.
struct Driver {
    machine: Evaluator<i64>,
    functions: HashMap<String, (FunctionDefinition, usize)>,
    printed: Vec<i64>,
}

fn span() -> Span {
    Span::new(0, 0)
}

impl Driver {
    fn new() -> Self {
        Driver { machine: Evaluator::new(0), functions: HashMap::new(), printed: Vec::new() }
    }

    fn expr(&mut self, ast: &AST, e: usize) -> Result<i64, RuntimeError<i64>> {
        match &ast.expr_arena[e] {
            Expr::Terminal(t) => match &t.inner {
                Primary::Number(n) => Ok(n.parse().unwrap()),
                Primary::Boolean(b) => Ok(*b as i64),
                Primary::Identifier(name) => match self.machine.get_var(name) {
                    Some(v) => Ok(*v),
                    None => Err(RuntimeError::UndeclaredIdentifier(name.clone(), t.span)),
                },
                Primary::Local((slot, scope)) => Ok(*self.machine.get_local(*slot, *scope).unwrap()),
                _ => panic!("not used here"),
            },
            Expr::Binary(b) => {
                let l = self.expr(ast, b.left)?;
                let r = self.expr(ast, b.right)?;
                Ok(match b.operator {
                    Operator::Plus => l + r,
                    Operator::Lesser => (l < r) as i64,
                    Operator::Equal => (l == r) as i64,
                    _ => panic!("not used here"),
                })
            }
            Expr::Assignment(target, source) => {
                let v = self.expr(ast, *source)?;
                match &ast.expr_arena[*target] {
                    Expr::Terminal(t) => match &t.inner {
                        Primary::Identifier(name) => assert!(self.machine.assign_var(name, v)),
                        Primary::Local((slot, scope)) => assert!(self.machine.set_local(*slot, *scope, v)),
                        _ => panic!("not used here"),
                    },
                    _ => panic!("not used here"),
                }
                Ok(v)
            }
            Expr::FunctionCall(call) => {
                let mut args = Vec::new();
                for a in &call.arguments {
                    args.push(self.expr(ast, *a)?);
                }
                let name = match &ast.expr_arena[call.func] {
                    Expr::Terminal(t) => match &t.inner {
                        Primary::Identifier(n) => n.clone(),
                        _ => panic!("not used here"),
                    },
                    _ => panic!("not used here"),
                };
                let (def, scope) = &self.functions[&name];
                let def = copy_function(def);
                let scope = *scope;
                self.machine.begin_call(def, scope, args, None, false, None);
                self.drive(ast)
            }
            _ => panic!("not used here"),
        }
    }

    fn drive(&mut self, ast: &AST) -> Result<i64, RuntimeError<i64>> {
        let mut reply = Reply::Go;
        loop {
            reply = match self.machine.step(ast, reply) {
                Request::Eval(e) => match self.expr(ast, e) {
                    Ok(v) => Reply::Value(v, span()),
                    Err(err) => Reply::Failed(err),
                },
                Request::Test(e) => match self.expr(ast, e) {
                    Ok(v) => Reply::Bool(v != 0),
                    Err(err) => Reply::Failed(err),
                },
                Request::Print(v) => {
                    self.printed.push(v);
                    Reply::Go
                }
                Request::Define(f, scope) => {
                    self.functions.insert(f.name.clone(), (f, scope));
                    Reply::Go
                }
                Request::DefineClass(_) => Reply::Go,
                Request::Go => Reply::Go,
                Request::Returned(r) | Request::Done(r) => return r,
            };
        }
    }

    fn run(&mut self, ast: &mut AST, source: &str) -> Result<i64, RuntimeError<i64>> {
        let (_, errors) = ASTBuilder::parse(lex(source.to_string()).unwrap(), ast);
        assert!(errors.is_empty());
        assert!(Resolver::init().resolve(ast).is_ok());
        self.machine.begin_run();
        self.drive(ast)
    }
}

#[test]
fn a_while_loop_runs_until_its_condition_fails() {
    let mut d = Driver::new();
    let mut ast = AST::default();
    let r = d.run(&mut ast, "var x = 1; while (x < 4) { x = x + 1; } print(x);");
    assert!(r.is_ok());
    assert_eq!(d.printed, vec![4]);
    assert_eq!(d.machine.expects(), Wait::Nothing);
}

#[test]
fn break_ends_only_the_innermost_loop() {
    let mut d = Driver::new();
    let mut ast = AST::default();
    let source = "var i = 0; var n = 0; while (i < 3) { i = i + 1; while (true) { n = n + 1; break; } } print(n);";
    assert!(d.run(&mut ast, source).is_ok());
    assert_eq!(d.printed, vec![3]);
}

#[test]
fn return_inside_a_loop_ends_the_function() {
    let mut d = Driver::new();
    let mut ast = AST::default();
    assert!(d.run(&mut ast, "fn f(a) { while (true) { return a + 1; } } print(f(6));").is_ok());
    assert_eq!(d.printed, vec![7]);
}

#[test]
fn if_elif_else_takes_the_first_true_branch() {
    let mut d = Driver::new();
    let mut ast = AST::default();
    let source = "var a = 2; if (a == 1) { print(10); } elif (a == 2) { print(20); } else { print(30); } if (a == 5) { print(1); } else { print(2); }";
    assert!(d.run(&mut ast, source).is_ok());
    assert_eq!(d.printed, vec![20, 2]);
}

#[test]
fn locals_of_a_call_are_given_back() {
    let mut d = Driver::new();
    let mut ast = AST::default();
    let source = "fn g(p) { var q = p + 1; { var r = q + 1; return r; } } var x = g(1) + g(10); print(x);";
    assert!(d.run(&mut ast, source).is_ok());
    assert_eq!(d.printed, vec![15]);
}

#[test]
fn the_run_goes_on_from_where_it_stopped() {
    let mut d = Driver::new();
    let mut ast = AST::default();
    assert_eq!(d.run(&mut ast, "var x = 5; x + 1;").unwrap(), 6);
    assert_eq!(d.run(&mut ast, "print(x);").unwrap(), 0);
    assert_eq!(d.printed, vec![5]);
}

#[test]
fn an_error_ends_the_run() {
    let mut d = Driver::new();
    let mut ast = AST::default();
    match d.run(&mut ast, "print(1); print(y); print(2);") {
        Err(RuntimeError::UndeclaredIdentifier(name, _)) => assert_eq!(name, "y"),
        _ => panic!("an undeclared variable was expected"),
    }
    assert_eq!(d.printed, vec![1]);
}

#[test]
fn break_outside_a_loop_is_an_error() {
    let mut d = Driver::new();
    let mut ast = AST::default();
    assert!(matches!(d.run(&mut ast, "break;"), Err(RuntimeError::Break(_))));
}
