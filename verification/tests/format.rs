use brod::lexer::lexer::lex;
use brod::parser::format::display_ast;
use brod::parser::parser::{ASTBuilder, AST};

fn formatted(source: &str) -> String {
    let tokens = lex(source.to_string()).unwrap();
    let mut ast = AST::default();
    let (_, errors) = ASTBuilder::parse(tokens, &mut ast);
    assert!(errors.is_empty());
    display_ast(&ast)
}

#[test]
fn declarations_are_written_back() {
    assert_eq!(formatted("var x = 10; print(x);"), "var x = 10;\n\nprint(x);\n\n");
}

#[test]
fn function_bodies_are_indented() {
    assert_eq!(
        formatted("fn add(a, b) { return a + b; }"),
        "fn add (a,b) {\n    return a + b;\n}\n\n"
    );
}

#[test]
fn operators_and_calls() {
    assert_eq!(formatted("1 * 2;"), "1 * 2;\n\n");
    assert_eq!(formatted("f(1, 2) == !x;"), "f(1, 2) == !x;\n\n");
    assert_eq!(formatted("x = 3;"), "x = 3;\n\n");
}

#[test]
fn branches_and_loops() {
    assert_eq!(
        formatted("if (a) { } elif (b) { } else { } while (c) break;"),
        "if (a)\n{\n}\nelse if (b)\n{\n}\nelse {\n}\n\nwhile (c) break;\n\n"
    );
}

#[test]
fn print_items_are_separated() {
    assert_eq!(formatted("print(1, x);"), "print(1, x);\n\n");
}
