use lambda_parse::evaluating::{evaluate, evaluate_expression};
use lambda_parse::lexing::{Position, Token, TokenKind, TokenStream};
use lambda_parse::parsing::{parse_text, Error, Expression, ExpressionGraph, ExpressionId, ParsingContext};

fn graph(source: &str) -> ExpressionGraph {
    match ParsingContext::new(source).parse() {
        Ok(g) => g,
        Err(e) => panic!("{source:?} did not parse: {e:?}"),
    }
}

fn rendered(source: &str) -> String {
    evaluate(graph(source))
}

fn error(source: &str) -> Error {
    match parse_text(source) {
        Ok(_) => panic!("{source:?} parsed"),
        Err(e) => e,
    }
}

fn at(line: usize, column: usize) -> Position {
    Position { column, line }
}

fn nodes(g: &ExpressionGraph) -> Vec<Expression> {
    (0..g.len()).map(|i| *g.get(ExpressionId(i)).unwrap()).collect()
}

#[test]
fn identity_renders_with_index_one() {
    assert_eq!(rendered("\\x.x"), "(\\1)");
}

#[test]
fn shared_abstraction_is_stored_once() {
    let g = graph("(\\x.x)(\\x.x)");
    let all = nodes(&g);
    let abstractions = all.iter().filter(|e| matches!(e, Expression::Abstraction { .. })).count();
    assert_eq!(abstractions, 1);
    assert_eq!(
        all,
        vec![
            Expression::Variable { index: 1 },
            Expression::Abstraction { body: ExpressionId(0) },
            Expression::Application { function: ExpressionId(1), argument: ExpressionId(1) },
        ]
    );
    assert_eq!(g.root(), ExpressionId(2));
    assert_eq!(evaluate(g), "((\\1) (\\1))");
}

#[test]
fn outer_binder_has_index_two() {
    assert_eq!(rendered("\\x.\\y.x"), "(\\(\\2))");
    assert_eq!(rendered("\\x.\\y.y"), "(\\(\\1))");
}

#[test]
fn inner_binder_shadows_outer() {
    assert_eq!(rendered("\\x.\\x.x"), "(\\(\\1))");
}

#[test]
fn outer_binder_returns_after_inner_scope() {
    assert_eq!(rendered("\\x.(\\x.x) x"), "(\\((\\1) 1))");
}

#[test]
fn application_associates_to_the_left() {
    let g = graph("\\a.\\b.\\c.a b c");
    let all = nodes(&g);
    let root = g.root();
    let Expression::Abstraction { body: b1 } = all[root.0] else { panic!() };
    let Expression::Abstraction { body: b2 } = all[b1.0] else { panic!() };
    let Expression::Abstraction { body: b3 } = all[b2.0] else { panic!() };
    let Expression::Application { function, argument } = all[b3.0] else { panic!() };
    assert_eq!(all[argument.0], Expression::Variable { index: 1 });
    let Expression::Application { function: f, argument: a } = all[function.0] else { panic!() };
    assert_eq!(all[f.0], Expression::Variable { index: 3 });
    assert_eq!(all[a.0], Expression::Variable { index: 2 });
    assert_eq!(evaluate(g), "(\\(\\(\\((3 2) 1))))");
}

#[test]
fn unbound_variable_is_undefined_label() {
    assert_eq!(error("x"), Error::UndefinedLabel { position: at(1, 1) });
    assert_eq!(error("\\y.  x"), Error::UndefinedLabel { position: at(1, 6) });
}

#[test]
fn unclosed_parenthesis_exhausts_stream() {
    assert_eq!(error("(\\x.x"), Error::TokenStreamExhausted { position: at(1, 6) });
}

#[test]
fn stray_closing_parenthesis_fails() {
    assert!(parse_text("x)").is_err());
    assert_eq!(
        error("\\x.x)"),
        Error::UnexpectedToken {
            token: Token {
                span: 4..5,
                intern: None,
                position: at(1, 5),
                kind: TokenKind::RightParenthesis,
            },
        }
    );
}

#[test]
fn parsing_twice_gives_the_same_graph() {
    let source = "\\f.\\x.f (f x) (\\y.y) (\\y.y)";
    let a = graph(source);
    let b = graph(source);
    assert_eq!(nodes(&a), nodes(&b));
    assert_eq!(a.root(), b.root());
    let all = nodes(&a);
    for i in 0..all.len() {
        for j in 0..all.len() {
            if i != j {
                assert_ne!(all[i], all[j]);
            }
        }
    }
}

#[test]
fn rendering_keeps_de_bruijn_structure() {
    assert_eq!(rendered("\\f.\\x.f (f x)"), "(\\(\\(2 (2 1))))");
    assert_eq!(rendered("\\g.\\y.g (g y)"), "(\\(\\(2 (2 1))))");
}

#[test]
fn index_ten_renders_two_digits() {
    assert_eq!(
        rendered("\\a.\\b.\\c.\\d.\\e.\\f.\\g.\\h.\\i.\\j.a"),
        format!("{}10{}", "(\\".repeat(10), ")".repeat(10))
    );
}

#[test]
fn empty_input_exhausts_stream() {
    assert_eq!(error(""), Error::TokenStreamExhausted { position: at(1, 1) });
    assert_eq!(error("  \n "), Error::TokenStreamExhausted { position: at(2, 2) });
}

#[test]
fn missing_label_after_backslash() {
    assert_eq!(
        error("\\.x"),
        Error::IncorrectToken {
            actual: Token { span: 1..2, intern: None, position: at(1, 2), kind: TokenKind::FullStop },
            expected: TokenKind::Label,
        }
    );
}

#[test]
fn missing_full_stop_after_label() {
    assert_eq!(
        error("\\x x"),
        Error::IncorrectToken {
            actual: Token { span: 3..4, intern: Some(0), position: at(1, 4), kind: TokenKind::Label },
            expected: TokenKind::FullStop,
        }
    );
}

#[test]
fn missing_closing_parenthesis_after_group() {
    assert_eq!(error("(\\x.x"), Error::TokenStreamExhausted { position: at(1, 6) });
    assert_eq!(error("\\x.(x"), Error::TokenStreamExhausted { position: at(1, 6) });
}

#[test]
fn illegal_character_is_unexpected() {
    assert_eq!(
        error("\\x.x $"),
        Error::UnexpectedToken {
            token: Token {
                span: 5..6,
                intern: None,
                position: at(1, 6),
                kind: TokenKind::IllegalCharacter,
            },
        }
    );
}

#[test]
fn leading_closing_parenthesis_is_unexpected() {
    assert_eq!(
        error(")"),
        Error::UnexpectedToken {
            token: Token { span: 0..1, intern: None, position: at(1, 1), kind: TokenKind::RightParenthesis },
        }
    );
}

#[test]
fn evaluate_expression_renders_a_subterm() {
    let g = graph("\\x.x x");
    assert_eq!(evaluate_expression(&g, 0), "1");
    assert_eq!(evaluate_expression(&g, 1), "(1 1)");
    assert_eq!(g.len(), 3);
    assert!(g.get(ExpressionId(3)).is_none());
}

#[test]
fn lexer_tracks_lines_columns_and_spans() {
    let mut s = TokenStream::new("\\ab1 .\n (λ");
    let t = s.next().unwrap();
    assert_eq!((t.kind, t.span, t.position), (TokenKind::Backslash, 0..1, at(1, 1)));
    let t = s.next().unwrap();
    assert_eq!((t.kind, t.span.clone(), t.intern, t.position), (TokenKind::Label, 1..4, Some(0), at(1, 2)));
    let t = s.next().unwrap();
    assert_eq!((t.kind, t.span, t.position), (TokenKind::FullStop, 5..6, at(1, 6)));
    let t = s.next().unwrap();
    assert_eq!((t.kind, t.span, t.position), (TokenKind::LeftParenthesis, 8..9, at(2, 2)));
    let t = s.next().unwrap();
    assert_eq!((t.kind, t.span, t.intern, t.position), (TokenKind::Label, 9..11, Some(1), at(2, 3)));
    assert!(s.next().is_none());
    assert_eq!(s.position(), at(2, 4));
}

#[test]
fn lexer_interns_by_spelling() {
    let mut s = TokenStream::new("foo bar foo\tbar baz");
    let symbols: Vec<Option<usize>> = (0..5).map(|_| s.next().unwrap().intern).collect();
    assert_eq!(symbols, vec![Some(0), Some(1), Some(0), Some(1), Some(2)]);
}

#[test]
fn peek_does_not_consume() {
    let mut s = TokenStream::new(" x");
    let p = s.peek().unwrap();
    let n = s.next().unwrap();
    assert_eq!(p, n);
    assert!(s.peek().is_none());
}

#[test]
fn illegal_character_spans_its_bytes() {
    let mut s = TokenStream::new("€x");
    let t = s.next().unwrap();
    assert_eq!((t.kind, t.span), (TokenKind::IllegalCharacter, 0..3));
    let t = s.next().unwrap();
    assert_eq!((t.kind, t.span, t.position), (TokenKind::Label, 3..4, at(1, 2)));
}

#[test]
fn token_kinds_describe_themselves() {
    assert_eq!(TokenKind::Backslash.describe(), "'\\'");
    assert_eq!(TokenKind::Label.describe(), "{label}");
    assert_eq!(TokenKind::IllegalCharacter.describe(), "illegal character");
}

#[test]
fn application_associates_to_the_left_in_other_contexts() {
    assert_eq!(rendered("\\c.\\b.\\a.a b c"), "(\\(\\(\\((1 2) 3))))");
    assert_eq!(rendered("\\a.(\\b.a b a) a"), "(\\((\\((2 1) 2)) 1))");
    assert_eq!(rendered("\\a.\\b.(a b) a"), "(\\(\\((2 1) 2)))");
    assert_eq!(rendered("\\a.\\b.a (b a)"), "(\\(\\(2 (1 2))))");
}

fn var(index: usize) -> Expression {
    Expression::Variable { index }
}

fn abs(body: usize) -> Expression {
    Expression::Abstraction { body: ExpressionId(body) }
}

fn app(function: usize, argument: usize) -> Expression {
    Expression::Application { function: ExpressionId(function), argument: ExpressionId(argument) }
}

fn assert_nodes(source: &str, expected: Vec<Expression>) {
    let g = graph(source);
    assert_eq!(nodes(&g), expected, "{source:?}");
    assert_eq!(g.root(), ExpressionId(expected.len() - 1), "{source:?}");
}

#[test]
fn node_lists_follow_creation_order() {
    assert_nodes("\\x.\\y.x", vec![var(2), abs(0), abs(1)]);
    assert_nodes("\\x.\\y.y", vec![var(1), abs(0), abs(1)]);
    assert_nodes("\\x.\\x.x", vec![var(1), abs(0), abs(1)]);
    assert_nodes("\\x.(\\x.x) x", vec![var(1), abs(0), app(1, 0), abs(2)]);
    assert_nodes(
        "\\a.\\b.\\c.a b c",
        vec![var(3), var(2), app(0, 1), var(1), app(2, 3), abs(4), abs(5), abs(6)],
    );
    assert_nodes("((\\x.x))", vec![var(1), abs(0)]);
    assert_nodes("\\x.x x", vec![var(1), app(0, 0), abs(1)]);
    assert_nodes("(\\x.x)(\\x.x)", vec![var(1), abs(0), app(1, 1)]);
}

#[test]
fn every_node_of_shared_graph_renders() {
    let g = graph("(\\x.x)(\\x.x)");
    assert_eq!(evaluate_expression(&g, 2), "((\\1) (\\1))");
    assert_eq!(evaluate_expression(&g, 1), "(\\1)");
    assert_eq!(evaluate_expression(&g, 0), "1");
}

#[test]
fn error_messages_name_kind_and_place() {
    assert_eq!(error("x").message(), "undefined label at 1:1");
    assert_eq!(error("(\\x.x").message(), "unexpected end of input at 1:6");
    assert_eq!(error("\\.x").message(), "expected {label}, found '.' at 1:2");
    assert_eq!(error("\\x.x\n   )").message(), "unexpected ')' at 2:4");
}

#[test]
fn unicode_whitespace_and_letters() {
    assert_eq!(rendered("\\λ.\u{3000}λ\u{a0}λ"), "(\\(1 1))");
    assert_eq!(rendered("\\x1.\\x2.x1"), "(\\(\\2))");
}
