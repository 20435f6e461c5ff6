use brod::diagnostic::{line_col, Diagnostic, Span, Stage};
use brod::lexer::lexer::{lex, KeyWordType, SimpleToken, TokenKind};
use brod::parser::parser::{
    ASTBuilder, ASTError, Binary, Declaration, Expr, LocatedPrimary, Operator, Primary, Statement,
    AST,
};
use brod::parser::resolver::{ResolveError, Resolver};

fn parse_source(source: &str) -> (AST, Vec<ASTError>) {
    let tokens = lex(source.to_string()).unwrap();
    let mut ast = AST::default();
    let (_, errors) = ASTBuilder::parse(tokens, &mut ast);
    (ast, errors)
}

fn inner(e: &Expr) -> Option<&Primary> {
    match e {
        Expr::Terminal(LocatedPrimary { inner, .. }) => Some(inner),
        _ => None,
    }
}

#[test]
fn lexes_a_declaration() {
    let tokens = lex("var x = 10;".to_string()).unwrap();
    let kinds: Vec<TokenKind> = tokens.tokens.iter().map(|t| t.kind.clone()).collect();
    assert_eq!(
        kinds,
        vec![
            TokenKind::Single(SimpleToken::KeyWord(KeyWordType::Var)),
            TokenKind::Identifier("x".to_string()),
            TokenKind::Single(SimpleToken::Equal),
            TokenKind::Number("10".to_string()),
            TokenKind::Single(SimpleToken::SemiColon),
        ]
    );
}

#[test]
fn parses_declarations_in_order() {
    let (ast, errors) = parse_source("var x = 10; print(x);");
    assert!(errors.is_empty());
    assert_eq!(ast.roots.len(), 2);
    assert!(matches!(&ast.roots[0], Declaration::VarDecl(n, 0) if n == "x"));
    assert!(matches!(&ast.roots[1], Declaration::Statement(Statement::PrintStatement(v)) if v == &vec![1]));
    assert_eq!(inner(&ast.expr_arena[0]), Some(&Primary::Number("10".to_string())));
    assert_eq!(inner(&ast.expr_arena[1]), Some(&Primary::Identifier("x".to_string())));
}

#[test]
fn product_binds_tighter_than_sum() {
    let (ast, errors) = parse_source("1 + 2 * 3;");
    assert!(errors.is_empty());
    assert!(matches!(&ast.roots[0], Declaration::Statement(Statement::ExprStatement(4))));
    assert!(matches!(
        &ast.expr_arena[3],
        Expr::Binary(Binary { left: 1, operator: Operator::Star, right: 2 })
    ));
    assert!(matches!(
        &ast.expr_arena[4],
        Expr::Binary(Binary { left: 0, operator: Operator::Plus, right: 3 })
    ));
}

#[test]
fn missing_name_is_reported_and_skipped() {
    let (ast, errors) = parse_source("var = 5; print(1);");
    assert_eq!(errors.len(), 1);
    assert!(matches!(&errors[0], ASTError::TokenError(t, expected)
        if t.kind == TokenKind::Number("5".to_string()) && expected == &vec![SimpleToken::Equal]));
    assert_eq!(errors[0].message(), "Unexpected token \"5\", expected [Equal]");
    assert_eq!(errors[0].stage(), Stage::Parsing);
    assert_eq!(ast.roots.len(), 1);
}

#[test]
fn leading_operator_has_no_left_side() {
    let (_, errors) = parse_source("* 3;");
    assert_eq!(errors.len(), 1);
    assert!(matches!(&errors[0], ASTError::BinaryNoLeft(t) if t.kind == TokenKind::Single(SimpleToken::Star)));
    assert_eq!(
        errors[0].message(),
        "Unexpected token \"*\", this token should have a left and right side"
    );
}

#[test]
fn class_needs_a_constructor() {
    let (_, errors) = parse_source("class A { fn f() {} }");
    assert_eq!(errors.len(), 1);
    assert!(matches!(&errors[0], ASTError::NoConstructor(n) if n == "A"));
    assert_eq!(errors[0].message(), "Class A has no constructor");
    assert_eq!(errors[0].span(), None);
}

#[test]
fn class_with_constructor_and_method() {
    let (ast, errors) = parse_source("class P { var x; fn P() {} fn describe() { return 1; } }");
    assert!(errors.is_empty());
    match &ast.roots[0] {
        Declaration::ClassDefinition(c) => {
            assert_eq!(c.name, "P");
            assert_eq!(c.fields, vec!["x".to_string()]);
            assert_eq!(c.functions.len(), 1);
            assert_eq!(c.functions[0].name, "describe");
            assert_eq!(c.constructor.name, "P");
        }
        _ => panic!("expected a class"),
    }
}

#[test]
fn if_elif_else_and_while() {
    let (ast, errors) = parse_source("if (1) { } elif (2) { } else { } while (3) { }");
    assert!(errors.is_empty());
    assert_eq!(ast.roots.len(), 2);
    match &ast.roots[0] {
        Declaration::Statement(Statement::IfStatement(branches, other)) => {
            assert_eq!(branches.len(), 2);
            assert_eq!(branches[0].0, 0);
            assert_eq!(branches[1].0, 1);
            assert_eq!(*other, Some(0));
        }
        _ => panic!("expected an if"),
    }
    assert!(matches!(&ast.roots[1], Declaration::Statement(Statement::Whileloop(2, 1))));
    assert_eq!(ast.statement_arena.len(), 2);
}

#[test]
fn return_at_the_end_is_refused() {
    let tokens = lex("return".to_string()).unwrap();
    let mut ast = AST::default();
    assert!(ASTBuilder::checked_parse(tokens, &mut ast).is_none());
}

#[test]
fn parse_appends_to_an_existing_ast() {
    let mut ast = AST::default();
    let first = lex("var a = 1;".to_string()).unwrap();
    let (_, e1) = ASTBuilder::parse(first, &mut ast);
    let second = lex("var b = 2;".to_string()).unwrap();
    let (_, e2) = ASTBuilder::parse(second, &mut ast);
    assert!(e1.is_empty() && e2.is_empty());
    assert_eq!(ast.roots.len(), 2);
    assert!(matches!(&ast.roots[1], Declaration::VarDecl(n, 1) if n == "b"));
    assert_eq!(inner(&ast.expr_arena[0]), Some(&Primary::Number("1".to_string())));
}

#[test]
fn parsed_ids_stand_in_the_arenas() {
    let (ast, errors) = parse_source("fn f(a) { while (a) { print(a, a + 1); } } f(2);");
    assert!(errors.is_empty());
    for (i, e) in ast.expr_arena.iter().enumerate() {
        match e {
            Expr::Binary(b) => assert!(b.left < i && b.right < i),
            Expr::FunctionCall(c) => {
                assert!(c.func < i);
                assert!(c.arguments.iter().all(|a| *a < i));
            }
            _ => {}
        }
    }
    for s in ast.statement_arena.iter() {
        if let Statement::Block(ds) = s {
            for d in ds {
                if let Declaration::Statement(Statement::PrintStatement(v)) = d {
                    assert!(v.iter().all(|x| *x < ast.expr_arena.len()));
                }
            }
        }
    }
}

#[test]
fn parameters_become_slots() {
    let (mut ast, errors) = parse_source("fn add(a, b) { return a + b; }");
    assert!(errors.is_empty());
    let mut resolver = Resolver::init();
    assert!(resolver.resolve(&mut ast).is_ok());
    assert_eq!(inner(&ast.expr_arena[3]), Some(&Primary::Local((0, 0))));
    assert_eq!(inner(&ast.expr_arena[4]), Some(&Primary::Local((1, 0))));
}

#[test]
fn locals_in_a_nested_block() {
    let (mut ast, errors) = parse_source("fn f(p) { var a = 1; { var q = p; var r = a; } }");
    assert!(errors.is_empty());
    let mut resolver = Resolver::init();
    assert!(resolver.resolve(&mut ast).is_ok());
    // `p` is slot 0 of the function's scope, and `a` slot 1 there.
    let locals: Vec<&Primary> = ast
        .expr_arena
        .iter()
        .filter_map(inner)
        .filter(|p| matches!(p, Primary::Local(_)))
        .collect();
    assert_eq!(locals, vec![&Primary::Local((0, 0)), &Primary::Local((1, 0))]);
}

#[test]
fn undefined_name_is_an_error() {
    let (mut ast, errors) = parse_source("fn f() { return y; }");
    assert!(errors.is_empty());
    let mut resolver = Resolver::init();
    match resolver.resolve(&mut ast) {
        Err(ResolveError::UndefinedVariable(name, span)) => {
            assert_eq!(name, "y");
            assert_eq!(span, Span::new(16, 17));
        }
        Ok(()) => panic!("expected an error"),
    }
    let err = ResolveError::UndefinedVariable("y".to_string(), Span::new(16, 17));
    assert_eq!(err.message(), "Undefined variable y");
    assert_eq!(err.span(), Some(Span::new(16, 17)));
}

#[test]
fn globals_stay_names() {
    let (mut ast, errors) = parse_source("var g = 1; fn f() { return g; }");
    assert!(errors.is_empty());
    let mut resolver = Resolver::init();
    assert!(resolver.resolve(&mut ast).is_ok());
    assert!(ast
        .expr_arena
        .iter()
        .filter_map(inner)
        .all(|p| !matches!(p, Primary::Local(_))));
}

#[test]
fn line_and_column_of_an_offset() {
    assert_eq!(line_col("ab\ncd", 4), (2, 2));
    assert_eq!(line_col("ab\ncd", 0), (1, 1));
    assert_eq!(line_col("é\nx", 3), (2, 1));
}

#[test]
fn span_operations() {
    assert_eq!(Span::point(4), Span::new(4, 5));
    assert_eq!(Span::new(3, 5).union(Span::new(1, 4)), Span::new(1, 5));
    assert_eq!(Span::new(3, 5).extended_to(Some(9)), Span::new(3, 9));
    assert_eq!(Span::new(3, 5).extended_to(None), Span::new(3, 5));
}

#[test]
fn comment_text_follows_both_slashes() {
    for source in ["// hi\n", "// hi"] {
        let tokens = lex(source.to_string()).unwrap();
        assert_eq!(tokens.tokens.len(), 1);
        assert_eq!(tokens.tokens[0].kind, TokenKind::Comment(" hi".to_string()));
        assert_eq!(tokens.tokens[0].span, Span::new(0, 5));
    }
}

#[test]
fn a_call_takes_at_most_255_arguments() {
    let many = "f(".to_string() + &"0,".repeat(255) + "0);";
    let (_, errors) = parse_source(&many);
    assert_eq!(errors.len(), 1);
    assert!(matches!(errors[0], ASTError::TooManyArguments));
    assert_eq!(errors[0].message(), "Too many arguments for function call, maximum is 255");
    let enough = "f(".to_string() + &"0,".repeat(254) + "0);";
    let (_, errors) = parse_source(&enough);
    assert!(errors.is_empty());
}
