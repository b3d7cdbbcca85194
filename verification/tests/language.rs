use serv::ast::{Declaration, Expression, Pattern, TemplateElement, Word};
use serv::compiler::{compile, compile_single_word, try_compile_single_word, Compiled};
use serv::dictionary::{populate_defaults, Label, RequestParts, StackDictionary};
use serv::error::{ServError, ServType};
use serv::expression::{AstToken, Engine, ExpressionInterpreter, Value as ExprValue};
use serv::lexer::{tokenize, try_tokenize, TokenKind};
use serv::parser::{parse_expression_from_text, parse_root_from_text, parse_template_from_text,
    try_parse_expression_from_text, try_parse_root_from_text};
use serv::text::{decimal_string, join_text, split_text};

fn kinds_and_texts(input: &str) -> Vec<(TokenKind, String)> {
    tokenize(input).iter().map(|t| (t.kind, t.contents.clone())).collect()
}

#[test]
fn hello_world_route_tokens() {
    let tokens = tokenize("/ => {hello world}");
    let got: Vec<(TokenKind, String, usize, usize)> =
        tokens.iter().map(|t| (t.kind, t.contents.clone(), t.start, t.end)).collect();
    assert_eq!(got, vec![
        (TokenKind::Route, "/".to_string(), 0, 1),
        (TokenKind::WideArrow, "=>".to_string(), 2, 4),
        (TokenKind::TemplateOpen, "{".to_string(), 5, 6),
        (TokenKind::TemplateText, "hello world".to_string(), 6, 17),
        (TokenKind::TemplateClose, "}".to_string(), 17, 18),
        (TokenKind::EndOfInput, "".to_string(), 18, 18),
    ]);
}

#[test]
fn template_variables_and_expressions() {
    let got = kinds_and_texts("{hello $name!}");
    assert_eq!(got, vec![
        (TokenKind::TemplateOpen, "{".to_string()),
        (TokenKind::TemplateText, "hello ".to_string()),
        (TokenKind::Dollar, "$".to_string()),
        (TokenKind::Identifier, "name".to_string()),
        (TokenKind::TemplateText, "!".to_string()),
        (TokenKind::TemplateClose, "}".to_string()),
        (TokenKind::EndOfInput, "".to_string()),
    ]);
    let got = kinds_and_texts("{$(uppercase name)}");
    assert_eq!(got, vec![
        (TokenKind::TemplateOpen, "{".to_string()),
        (TokenKind::Dollar, "$".to_string()),
        (TokenKind::LambdaBegin, "(".to_string()),
        (TokenKind::Identifier, "uppercase".to_string()),
        (TokenKind::Identifier, "name".to_string()),
        (TokenKind::LambdaEnd, ")".to_string()),
        (TokenKind::TemplateClose, "}".to_string()),
        (TokenKind::EndOfInput, "".to_string()),
    ]);
}

#[test]
fn words_comments_and_numbers() {
    let got = kinds_and_texts("@double => incr 42 # note\n");
    assert_eq!(got, vec![
        (TokenKind::At, "@".to_string()),
        (TokenKind::Identifier, "double".to_string()),
        (TokenKind::WideArrow, "=>".to_string()),
        (TokenKind::Identifier, "incr".to_string()),
        (TokenKind::IntLiteral, "42".to_string()),
        (TokenKind::Comment, "# note".to_string()),
        (TokenKind::EndOfInput, "".to_string()),
    ]);
}

#[test]
fn lexer_refuses_unknown_characters() {
    assert!(try_tokenize("/ => ^").is_none());
    assert!(try_tokenize("{a \\ b}").is_none());
    assert!(try_tokenize("/ => {ok}").is_some());
}

#[test]
fn parse_hello_world_program() {
    let root = parse_root_from_text("/ => {hello world}").unwrap();
    assert_eq!(root.0.len(), 1);
    let d = &root.0[0];
    assert_eq!(d.kind, "route");
    match &d.key {
        Pattern::Key(k) => assert_eq!(k, "/"),
        _ => panic!("expected a key"),
    }
    assert_eq!(d.value.0.len(), 1);
    assert!(!d.value.1);
    match &d.value.0[0] {
        Word::Template(t) => {
            assert_eq!(t.open, "{");
            assert_eq!(t.close, "}");
            assert_eq!(t.elements.len(), 1);
            match &t.elements[0] {
                TemplateElement::Text(s) => assert_eq!(s, "hello world"),
                _ => panic!("expected text"),
            }
        },
        _ => panic!("expected a template"),
    }
}

#[test]
fn parse_word_declaration_and_literals() {
    let root = parse_root_from_text("@answer => incr 41\n/x => answer").unwrap();
    assert_eq!(root.0.len(), 2);
    assert_eq!(root.0[0].kind, "word");
    match &root.0[0].key {
        Pattern::Key(k) => assert_eq!(k, "answer"),
        _ => panic!("expected a key"),
    }
    match (&root.0[0].value.0[0], &root.0[0].value.0[1]) {
        (Word::Function(f), Word::Literal(n)) => {
            assert_eq!(f, "incr");
            assert_eq!(*n, 41);
        },
        _ => panic!("unexpected words"),
    }
    assert_eq!(root.0[1].kind, "route");
}

#[test]
fn parse_expression_and_template() {
    let e = parse_expression_from_text("uppercase name").unwrap();
    assert_eq!(e.0.len(), 2);
    let t = parse_template_from_text("{a {b} $c}").unwrap();
    assert_eq!(t.elements.len(), 4);
    match &t.elements[1] {
        TemplateElement::Template(inner) => assert_eq!(inner.elements.len(), 1),
        _ => panic!("expected a nested template"),
    }
    match &t.elements[3] {
        TemplateElement::Expression(Word::Function(n)) => assert_eq!(n, "c"),
        _ => panic!("expected a variable"),
    }
}

#[test]
fn parse_errors_are_reported() {
    match parse_root_from_text("{oops}") {
        Err(ServError::General(code, message)) => {
            assert_eq!(code, 500);
            assert_eq!(
                message,
                "token Some(Token { kind: TemplateOpen, contents: \"{\", start: 0, end: 1 }) is not a valid way to start a route"
            );
        },
        _ => panic!("expected an error"),
    }
    match parse_root_from_text("/a {x}") {
        Err(ServError::General(500, m)) => assert_eq!(m, "unexpected token"),
        _ => panic!("expected an error"),
    }
}

#[test]
fn try_parse_refuses_oversized_literals() {
    assert!(try_parse_root_from_text("/a => incr 99999999999999999999").is_none());
    assert!(try_parse_root_from_text("/a => incr 9223372036854775807").is_some());
    match try_parse_expression_from_text("incr /x 99999999999999999999") {
        Some(Ok(e)) => assert_eq!(e.0.len(), 1),
        _ => panic!("the literal is never read"),
    }
}

#[test]
fn error_messages() {
    assert_eq!(ServError::new(404, "not here").to_string(), "err 404: not here");
    assert_eq!(ServError::expected_type(ServType::Int, ServType::Text).to_string(), "expected type INT, found TEXT");
    assert_eq!(ServError::MissingLabel(Label::Anonymous(7)).to_string(), "missing label anonymous function 7");
    assert_eq!(ServError::Io("gone".to_string()).to_string(), "io error: gone");
    assert_eq!(ServError::InsertWithEmptyAddress.to_string(), "empty address");
}

#[test]
fn labels() {
    let l = Label::from_str("hello");
    assert_eq!(l.to_string(), "hello");
    assert_eq!(l.parts().len(), 1);
    assert_eq!(Label::Route("/a".to_string()).to_string(), "/a");
}

#[test]
fn text_helpers() {
    assert_eq!(decimal_string(0), "0");
    assert_eq!(decimal_string(18446744073709551615), "18446744073709551615");
    let parts = split_text("a  b", ' ');
    assert_eq!(parts, vec!["a".to_string(), "".to_string(), "b".to_string()]);
    assert_eq!(join_text(&parts, "-"), "a--b");
    assert_eq!(split_text("", '.'), vec!["".to_string()]);
}

#[test]
fn test() {
    let mut one: StackDictionary<Vec<String>> = StackDictionary::empty();
    one.insert(Label::from_str("hello"), vec![]);
}

#[test]
fn scopes_read_through_to_parents() {
    let mut outer: StackDictionary<i64> = StackDictionary::empty();
    outer.insert(Label::from_str("a"), 1);
    outer.insert(Label::from_str("b"), 2);
    outer.insert(Label::from_str("a"), 3);
    let id = outer.insert_anonymous(9);
    assert!(matches!(id, Label::Anonymous(0)));
    assert!(outer.get_request().is_none());
    outer.set_request(RequestParts { method: "GET".to_string(), path: "/".to_string(), headers: vec![] });
    let mut inner = outer.make_child();
    inner.insert(Label::from_str("b"), 20);
    assert_eq!(inner.get(Label::from_str("a")).ok(), Some(3));
    assert_eq!(inner.get(Label::from_str("b")).ok(), Some(20));
    assert_eq!(inner.get(Label::Anonymous(0)).ok(), Some(9));
    assert_eq!(inner.get_request().map(|r| r.path.clone()), Some("/".to_string()));
    match inner.get(Label::from_str("zzz")) {
        Err(e) => assert_eq!(e.to_string(), "missing label zzz"),
        Ok(_) => panic!("missing"),
    }
    inner.insert_module(vec![(Label::Route("/x".to_string()), 5), (Label::Route("/x".to_string()), 6)]);
    assert_eq!(inner.get(Label::Route("/x".to_string())).ok(), Some(6));
}

#[test]
fn words_print_as_written() {
    let e = parse_expression_from_text("(incr 4) {x $(y) z}").unwrap();
    assert_eq!(e.0[0].to_string(), "(incr 4 )");
    assert_eq!(e.0[1].to_string(), "{x $((y )) z}");
    assert_eq!(Word::Literal(-12).to_string(), "-12");
    assert_eq!(Word::Literal(i64::MIN).to_string(), "-9223372036854775808");
}

#[test]
fn declarations_by_key() {
    let d = Declaration::with_key("route", "/a", Expression(vec![], false));
    assert_eq!(d.key(), "/a");
    let d2 = Declaration::with_expr("word", Expression(vec![Word::Function("f".to_string())], false), Expression(vec![], false));
    assert!(matches!(d2.key, Pattern::Expr(_)));
}

#[test]
fn strings_with_nested_brackets_read_back() {
    let src = "{\n    window.onload = function() {\n    \tconsole.log(hello);\n    }\n} /next";
    let t = parse_template_from_text(src).unwrap();
    let end = src.find(" /next").unwrap();
    assert_eq!(t.to_string(), &src[..end]);
    let t2 = parse_template_from_text("{a {b {c}} d}").unwrap();
    assert_eq!(t2.to_string(), "{a {b {c}} d}");
}

#[test]
fn plain_text_expressions_concatenate() {
    let t = AstToken::Expression {
        interpreter: ExpressionInterpreter::PlainText,
        content: vec![
            AstToken::Text("a".to_string()),
            AstToken::Expression { interpreter: ExpressionInterpreter::PlainText, content: vec![AstToken::Text("b".to_string())] },
        ],
    };
    let mut engine = Engine;
    match t.into_value(&mut engine) {
        ExprValue::Text(s) => assert_eq!(s, "ab"),
        _ => panic!("text"),
    }
}

#[test]
fn route_declarations_read_back() {
    let root = parse_root_from_text("/{*f} => {<html>{nested} text</html>}").unwrap();
    assert_eq!(root.0.len(), 1);
    let d = &root.0[0];
    assert_eq!(d.kind, "route");
    match &d.key {
        Pattern::Key(k) => assert_eq!(k, "/{*f}"),
        _ => panic!("expected a key"),
    }
    assert_eq!(d.value.0.len(), 1);
    assert!(!d.value.1);
    match &d.value.0[0] {
        Word::Template(t) => assert_eq!(t.to_string(), "{<html>{nested} text</html>}"),
        _ => panic!("expected a template"),
    }
}

#[test]
fn assignments_are_lexed() {
    assert_eq!(
        kinds_and_texts("name = {connor}"),
        vec![
            (TokenKind::Identifier, "name".to_string()),
            (TokenKind::Equals, "=".to_string()),
            (TokenKind::TemplateOpen, "{".to_string()),
            (TokenKind::TemplateText, "connor".to_string()),
            (TokenKind::TemplateClose, "}".to_string()),
            (TokenKind::EndOfInput, "".to_string()),
        ]
    );
}

fn fun(n: &str) -> Word {
    Word::Function(n.to_string())
}

#[test]
fn words_compile_with_their_arguments() {
    let rest = vec![fun("clamp"), Word::Literal(3), fun("x")];
    match compile_single_word(&fun("get"), &rest) {
        Ok((Compiled::Get(inner), 2)) => match *inner {
            Compiled::Clamp(max) => assert!(matches!(*max, Compiled::Int(3))),
            _ => panic!("expected clamp"),
        },
        _ => panic!("expected get"),
    }
    assert!(matches!(compile_single_word(&fun("!"), &[fun("a"), fun("b")]), Ok((Compiled::Identity, 1))));
    assert!(matches!(compile_single_word(&fun("drop"), &[]), Ok((Compiled::Identity, 0))));
    assert!(matches!(compile_single_word(&fun("incr"), &[fun("a")]), Ok((Compiled::Incr, 0))));
    match compile_single_word(&fun("greet"), &[]) {
        Ok((Compiled::Reference(n), 0)) => assert_eq!(n, "greet"),
        _ => panic!("expected a reference"),
    }
    assert!(matches!(compile_single_word(&fun("get"), &[]), Err("missing argument for get")));
    assert!(matches!(compile_single_word(&fun("clamp"), &[]), Err("!")));
    assert!(matches!(compile_single_word(&fun("pipe"), &[]), Err("missing argument for exec")));
    assert!(matches!(compile_single_word(&fun("pipe"), &[fun("upper"), fun("x")]), Ok((Compiled::Pipe(_), 1))));
    assert!(try_compile_single_word(&fun("switch"), &[]).is_none());
    assert!(try_compile_single_word(&fun("pipe"), &[fun("get")]).is_none());
}

#[test]
fn expressions_compile_word_by_word() {
    let e = Expression(vec![fun("incr"), fun("drop"), fun("x"), Word::Literal(7), fun("name")], false);
    match compile(&e) {
        Some(Ok(v)) => {
            assert_eq!(v.len(), 4);
            assert!(matches!(v[0], Compiled::Incr));
            assert!(matches!(v[1], Compiled::Identity));
            assert!(matches!(v[2], Compiled::Int(7)));
            assert!(matches!(&v[3], Compiled::Reference(n) if n == "name"));
        },
        _ => panic!("expected words"),
    }
    assert!(matches!(compile(&Expression(vec![fun("get")], false)), Some(Err("missing argument for get"))));
}

#[test]
fn the_default_port_fills_in_only_a_missing_one() {
    let mut scope: StackDictionary<i64> = StackDictionary::empty();
    populate_defaults(&mut scope, 4000);
    assert!(matches!(scope.get(Label::from_str("server.port")), Ok(4000)));
    let mut set: StackDictionary<i64> = StackDictionary::empty();
    set.insert(Label::from_str("server.port"), 443);
    populate_defaults(&mut set, 4000);
    assert!(matches!(set.get(Label::from_str("server.port")), Ok(443)));
}

#[test]
fn every_token_list_ends_with_the_end_of_input() {
    for input in ["", "   \n\t", "@main => /x", "{a}"] {
        let tokens = tokenize(input);
        let n = input.chars().count();
        assert!(!tokens.is_empty());
        let last = tokens.last().unwrap();
        assert_eq!(last.kind, TokenKind::EndOfInput);
        assert_eq!((last.start, last.end), (n, n));
        for t in &tokens[..tokens.len() - 1] {
            assert!(t.kind != TokenKind::EndOfInput && t.kind != TokenKind::WhiteSpace && t.kind != TokenKind::NewLine);
        }
        for w in tokens.windows(2) {
            assert!(w[0].end <= w[1].start);
        }
    }
}
