use brod::diagnostic::{render, Diagnostic, Span, Stage};
use brod::interpreter::evaluator::RuntimeError;
use brod::lexer::lexer::lex;

/// The text without its color escape sequences.
fn plain(s: &str) -> String {
    let mut out = String::new();
    let mut chars = s.chars().peekable();
    while let Some(c) = chars.next() {
        if c == '\u{1b}' {
            while let Some(d) = chars.next() {
                if d == 'm' {
                    break;
                }
            }
        } else {
            out.push(c);
        }
    }
    out
}

#[test]
fn runtime_error_parts() {
    let r: RuntimeError<i64> = RuntimeError::Ungetable("Number: 1".to_string(), Span::new(2, 4));
    assert_eq!(r.stage(), Stage::Runtime);
    assert_eq!(r.span(), Some(Span::new(2, 4)));
    assert_eq!(r.message(), "Number: 1 is not getable");
}

#[test]
fn render_without_span() {
    let r: RuntimeError<i64> = RuntimeError::InvalidAssignmentTarget(None);
    assert_eq!(
        plain(&render(&r, "var x = 1;", "prog")),
        "prog: Runtime error: invalid assignment target: expected a variable or a field"
    );
}

#[test]
fn render_points_at_the_span() {
    let source = "var x = 1;\nprint(y);";
    let r: RuntimeError<i64> = RuntimeError::UndeclaredIdentifier("y".to_string(), Span::new(17, 18));
    assert_eq!(
        plain(&render(&r, source, "prog")),
        "prog:2:7: Runtime error: Undeclared variable: y\n  print(y);\n        ^"
    );
}

#[test]
fn render_a_lexing_error() {
    let err = lex("var a = 1 $".to_string()).unwrap_err();
    let text = plain(&render(&err, "var a = 1 $", "prog"));
    assert!(text.starts_with("prog:1:11: Lexing error: "));
    assert!(text.ends_with("\n  var a = 1 $\n            ^"));
}
