use serv::body::{Body, HttpError};
use serv::engine::table_parser::parse_table;
use serv::engine::template::{Template as EngineTemplate, TemplateElement as EngineElement};
use serv::engine::value::{Table, Value as TableValue};
use serv::engine::Value;
use serv::generic_tokenizer::Tokenizer as SliceTokenizer;
use serv::cursor::Tokenizer;
use serv::json::{serializer, try_tokenize_json, JsonSerializer, JsonTokenKind, JsonData};
use serv::json_doc::{parse_json, JsonDoc};
use serv::json_parser::{parse_json_from_str, try_parse_json, JsonError, JsonNode};
use serv::module::{Member, ServModule};
use serv::lists::{choose_index, count, sum, Item, Selector};
use serv::old_servvalue::ServBody;
use serv::reference::{Address, Label};
use serv::servstring::{Data, ServString};
use serv::template::{DefaultRenderer, LiteralRenderer, SqliteRenderer, Template, TemplateElement};

fn bytes(b: &Body) -> Vec<u8> {
    b.data().to_vec()
}

#[test]
fn body_append_concatenates() {
    let mut b = Body::from_str("hello ");
    b.append(Body::from_str("world"));
    match &b {
        Body::Txt(s) => assert_eq!(s, "hello world"),
        _ => panic!("text stays text"),
    }
    let mut r = Body::from_bytes(vec![1, 2]);
    r.append(Body::from_str("A"));
    assert_eq!(bytes(&r), vec![1, 2, 65]);
    let mut t = Body::from_str("é");
    t.append(Body::from_bytes(vec![0]));
    match &t {
        Body::Raw(v) => assert_eq!(v, &vec![0xc3, 0xa9, 0]),
        _ => panic!("text then bytes is bytes"),
    }
}

#[test]
fn body_errors_win() {
    let mut b = Body::from_str("x");
    b.append(Body::Error(HttpError::not_found("no such file")));
    assert_eq!(bytes(&b), b"error".to_vec());
    match &b {
        Body::Error(e) => {
            assert_eq!(e.code, 404);
            assert_eq!(e.to_string(), "404: no such file");
        },
        _ => panic!("error expected"),
    }
    let e = HttpError { code: 500, message: None };
    assert_eq!(e.to_string(), "500");
    let mut c = Body::Error(HttpError { code: 418, message: None });
    c.append(Body::from_str("tea"));
    assert!(matches!(c, Body::Error(HttpError { code: 418, .. })));
    c.replace(Body::from_str("fresh"));
    assert_eq!(bytes(&c), b"fresh".to_vec());
}

#[test]
fn table_reads_back_writes() {
    let mut t = Table::new();
    assert_eq!(t.get("a"), None);
    t.set("a", TableValue::from_text("1"));
    t.set("b", TableValue::Empty);
    t.set("a", TableValue::from_text("2"));
    assert_eq!(t.get("a"), Some("2".to_string()));
    assert_eq!(t.get("b"), Some("".to_string()));
    assert_eq!(t.get("c"), None);
}

#[test]
fn value_text() {
    assert_eq!(TableValue::Empty.to_string(), "");
    assert_eq!(TableValue::Text("x".to_string()).to_string(), "x");
}

#[test]
fn table_parser_reads_records() {
    let v = parse_table("name = serv;\n  port=4000 ;\nname = other; broken = ");
    match &v {
        Value::Table(entries) => {
            assert_eq!(entries.len(), 2);
            assert_eq!(v.get("name"), "other");
            assert_eq!(v.get("port"), "4000");
        },
        _ => panic!("a table"),
    }
    match parse_table("") {
        Value::Table(entries) => assert!(entries.is_empty()),
        _ => panic!("a table"),
    }
}

#[test]
fn value_get() {
    assert_eq!(Value::Nil.get("x"), "");
    assert_eq!(Value::Text("t".to_string()).get("x"), "t");
    let nested = Value::Table(vec![("k".to_string(), Value::Table(vec![("".to_string(), Value::Text("deep".to_string()))]))]);
    assert_eq!(nested.get("k"), "deep");
}

#[test]
fn engine_template_fills_variables() {
    let t = EngineTemplate(vec![
        EngineElement::Text("hello ".to_string()),
        EngineElement::Var("name".to_string()),
        EngineElement::Text("!".to_string()),
    ]);
    let ctx = parse_table("name = world;");
    match t.eval(ctx) {
        Value::Text(s) => assert_eq!(s, "hello world!"),
        _ => panic!("text"),
    }
}

#[test]
fn addresses_and_labels() {
    let a = Address::from_text("server.port");
    assert_eq!(a.len(), 2);
    let names: Vec<&str> = a.iter().iter().map(|l| l.as_str()).collect();
    assert_eq!(names, vec!["server", "port"]);
    assert!(matches!(Label::from_text("/index"), Label::Route(_)));
    assert!(matches!(Label::from_text("index"), Label::Name(_)));
    assert_eq!(Address::from_label(Label::from_text("x")).len(), 1);
    assert_eq!(Address::from_text("").len(), 1);
}

#[test]
fn literal_renderer_writes_templates_back() {
    let inner = Template { open: "{".to_string(), close: "}".to_string(), elements: vec![TemplateElement::Text("b".to_string())] };
    let t = Template {
        open: "{".to_string(),
        close: "}".to_string(),
        elements: vec![
            TemplateElement::Text("a ".to_string()),
            TemplateElement::Template(inner),
            TemplateElement::Expression("name".to_string()),
        ],
    };
    let mut r = LiteralRenderer::new(true);
    assert_eq!(r.to_text(&t), "{a {b}$(name)}");
    let mut r2 = LiteralRenderer::new(false);
    assert_eq!(r2.to_text(&t), "a {b}$(name)");
}

#[test]
fn slice_tokenizer_cuts_tokens() {
    let chars: Vec<char> = "ab cd".chars().collect();
    let mut t = SliceTokenizer::new(&chars);
    t.incr_while(|c| c.is_alphabetic());
    let tok = t.emit();
    assert_eq!(tok.to_string(), "ab");
    assert_eq!((tok.start, tok.end), (0, 2));
    t.skip();
    t.incr_while(|c| c.is_alphabetic());
    assert_eq!(t.emit().to_string(), "cd");
    assert!(t.is_done());
}

#[test]
fn cursor_tokenizer() {
    let chars: Vec<char> = "x1".chars().collect();
    let mut t = Tokenizer::new(&chars);
    assert_eq!(t.get(1), Some('1'));
    assert_eq!(t.get(2), None);
    t.incr(1);
    let tok = t.emit(7u8);
    assert_eq!((tok.kind, tok.to_string()), (7u8, "x".to_string()));
}

#[test]
fn json_tokens() {
    let toks = try_tokenize_json("{\"a\": [1, -2.5, true]}").unwrap();
    let got: Vec<(JsonTokenKind, String)> = toks.iter().map(|t| (t.kind, t.value.clone())).collect();
    assert_eq!(got, vec![
        (JsonTokenKind::OpenObject, "{".to_string()),
        (JsonTokenKind::Text, "a".to_string()),
        (JsonTokenKind::Colon, ":".to_string()),
        (JsonTokenKind::OpenList, "[".to_string()),
        (JsonTokenKind::Number, "1".to_string()),
        (JsonTokenKind::Comma, ",".to_string()),
        (JsonTokenKind::Number, "-2.5".to_string()),
        (JsonTokenKind::Comma, ",".to_string()),
        (JsonTokenKind::Identifier, "true".to_string()),
        (JsonTokenKind::CloseList, "]".to_string()),
        (JsonTokenKind::CloseObject, "}".to_string()),
    ]);
    let spans: Vec<(usize, usize)> = toks.iter().map(|t| (t.start, t.end)).collect();
    assert_eq!(spans[0], (0, 1));
    assert_eq!(spans[1], (2, 3));
    assert_eq!(spans[4], (7, 8));
    assert_eq!(spans[6], (10, 14));
    assert!(try_tokenize_json("\"open").is_none());
    assert!(try_tokenize_json("@").is_none());
}

#[test]
fn json_line_breaks() {
    let mut s = serializer();
    let mut out = String::new();
    s.line_break(&mut out);
    assert_eq!(out, "\n");
    s.indent = 2;
    s.line_break(&mut out);
    assert_eq!(out, "\n\n    ");
    let t = JsonSerializer::new();
    assert_eq!(t.tab, "  ");
}

#[test]
fn serv_body_hands_out_bytes_once() {
    let mut b = ServBody::new();
    let first = b.take_frame().unwrap();
    assert_eq!(first.iter().copied().collect::<Vec<u8>>(), b"hello!".to_vec());
    assert!(b.take_frame().is_none());
}

#[test]
fn query_strings_and_cookies() {
    let q = serv::request::parse_query_string("a=1&b=two&a=3&flag");
    assert_eq!(q.get("a"), "3");
    assert_eq!(q.get("b"), "two");
    assert_eq!(q.get("flag"), "");
    match &q {
        Value::Table(t) => assert_eq!(t.len(), 3),
        _ => panic!("table"),
    }
    let c = serv::request::parse_cookie("session = abc ; theme=dark");
    assert_eq!(c.get("session"), "abc");
    assert_eq!(c.get("theme"), "dark");
    assert_eq!(serv::request::trim("  x y \t"), "x y");
    assert_eq!(serv::request::trim("   "), "");
}

#[test]
fn sqlite_renderer_uses_placeholders() {
    let inner = Template {
        open: "(".to_string(),
        close: ")".to_string(),
        elements: vec![TemplateElement::Expression("b".to_string())],
    };
    let t = Template {
        open: "{".to_string(),
        close: "}".to_string(),
        elements: vec![
            TemplateElement::Text("select * from t where a = ".to_string()),
            TemplateElement::Expression("a".to_string()),
            TemplateElement::Text(" and b in ".to_string()),
            TemplateElement::Template(inner),
        ],
    };
    let mut r = SqliteRenderer(Vec::new());
    let mut q = String::new();
    r.render(&t, &mut q);
    assert_eq!(q, "select * from t where a = ? and b in (?)");
    assert_eq!(r.0, vec!["a".to_string(), "b".to_string()]);
}

#[test]
fn serv_strings_hold_text_or_bytes() {
    let t = ServString::from_bytes("héllo".as_bytes().to_vec());
    assert!(matches!(t.data, Data::Text(ref s) if s == "héllo"));
    assert_eq!(t.as_str().ok(), Some("héllo"));
    let b = ServString::from_bytes(vec![0xff, 0x41]);
    assert!(matches!(b.data, Data::Bytes(ref v) if v == &vec![0xff, 0x41]));
    match b.as_str() {
        Err(e) => assert!(e.to_string().starts_with("Utf8(Utf8Error")),
        Ok(_) => panic!("invalid bytes"),
    }
    assert_eq!(ServString::from_text("x".to_string()).as_str().ok(), Some("x"));
}

#[test]
fn bodies_as_sent() {
    assert_eq!(Body::from_str("ok").into_response_bytes(), b"ok".to_vec());
    let e = Body::Error(HttpError { code: 404, message: Some("gone".to_string()) });
    assert_eq!(e.into_response_bytes(), b"404: gone".to_vec());
}

#[test]
fn json_layout() {
    let v = JsonData::List(vec![
        JsonData::Int(1),
        JsonData::Bool(true),
        JsonData::Text(ServString::from_text("a".to_string())),
    ]);
    let mut s = serializer();
    let mut out = String::new();
    s.write(&v, &mut out);
    assert_eq!(out, "[\n  1,\n  true,\n  \"a\"\n]");
    let t = JsonData::Table(vec![
        ("k".to_string(), JsonData::List(vec![])),
        ("n".to_string(), JsonData::Nil),
        ("m".to_string(), JsonData::Module),
        ("r".to_string(), JsonData::Text(ServString::from_bytes(vec![0xff]))),
    ]);
    let mut out = String::new();
    s.write(&t, &mut out);
    assert_eq!(out, "{\n  \"k\": [\n    \n  ],\n  \"n\": 0,\n  \"m\": module,\n  \"r\": \"RAW\"\n}");
    assert_eq!(s.indent, 0);
}

#[test]
fn json_text_reads_into_a_tree() {
    let node = try_parse_json("{\"a\": [1.5, \"x\", []], b: -2, \"a\": 3}").unwrap();
    match node {
        JsonNode::Table(entries) => {
            assert_eq!(entries.len(), 2);
            assert_eq!(entries[0].0, "a");
            assert!(matches!(&entries[0].1, JsonNode::Number(n) if n == "3"));
            assert_eq!(entries[1].0, "b");
            assert!(matches!(&entries[1].1, JsonNode::Number(n) if n == "-2"));
        },
        _ => panic!("expected an object"),
    }
    match parse_json_from_str("[1.5, \"x\", []] trailing") {
        JsonNode::List(items) => {
            assert_eq!(items.len(), 3);
            assert!(matches!(&items[0], JsonNode::Number(n) if n == "1.5"));
            assert!(matches!(&items[1], JsonNode::Text(t) if t == "x"));
            assert!(matches!(&items[2], JsonNode::List(v) if v.is_empty()));
        },
        _ => panic!("expected a list"),
    }
}

#[test]
fn json_errors_are_told_apart() {
    assert!(matches!(try_parse_json("[1, 2"), Err(JsonError::Unfinished)));
    assert!(matches!(try_parse_json("{\"a\": 1"), Err(JsonError::Unfinished)));
    assert!(matches!(try_parse_json("}"), Err(JsonError::Invalid)));
    assert!(matches!(try_parse_json(""), Err(JsonError::Invalid)));
    assert!(matches!(try_parse_json("{1 2}"), Err(JsonError::Invalid)));
    assert!(matches!(try_parse_json("[:]"), Err(JsonError::Invalid)));
    assert!(matches!(try_parse_json("\"open"), Err(JsonError::Unreadable)));
    assert!(matches!(try_parse_json("[?]"), Err(JsonError::Unreadable)));
}

#[test]
fn default_renderer_fills_in_expressions() {
    let inner = Template {
        open: "[".to_string(),
        close: "]".to_string(),
        elements: vec![TemplateElement::Expression("y".to_string()), TemplateElement::Text("!".to_string())],
    };
    let t = Template {
        open: "{".to_string(),
        close: "}".to_string(),
        elements: vec![
            TemplateElement::Text("a ".to_string()),
            TemplateElement::Expression("x".to_string()),
            TemplateElement::Template(inner),
        ],
    };
    let mut r = DefaultRenderer::new();
    let mut out = String::new();
    r.render(&t, &vec!["1".to_string(), "2".to_string()], &mut out);
    assert_eq!(out, "a 1[2!]");

    let mut literal = DefaultRenderer { include_brackets: true, resolve_expressions: false };
    let mut out2 = String::from(">");
    literal.render(&t, &vec![], &mut out2);
    assert_eq!(out2, ">{a $(x)[$(y)!]}");
    assert_eq!(LiteralRenderer::new(true).to_text(&t), "{a $(x)[$(y)!]}");
    assert_eq!(t.to_string(), "{a $(x)[$(y)!]}");
    assert_eq!(t.render(&vec!["one".to_string(), "two".to_string()]), "a one[two!]");
}

#[test]
fn modules_store_values_at_addresses() {
    let mut m: ServModule<i64> = ServModule::empty();
    assert!(m.insert(&Address::from_text("server.port"), 443).is_ok());
    assert!(m.insert(&Address::from_text("server.host"), 1).is_ok());
    assert!(m.insert(&Address::from_text("server.port"), 80).is_ok());
    assert_eq!(m.values.len(), 1);
    match &m.values[0] {
        (Label::Name(n), Member::Module(server)) => {
            assert_eq!(n, "server");
            assert_eq!(server.values.len(), 2);
            assert!(matches!(&server.values[0], (Label::Name(k), Member::Value(80)) if k == "port"));
            assert!(matches!(&server.values[1], (Label::Name(k), Member::Value(1)) if k == "host"));
        },
        _ => panic!("expected a module"),
    }
    match m.insert(&Address::from_text("server.port.deeper"), 5) {
        Err(e) => assert_eq!(e.to_string(), "err 500: tried to insert into something that was not a module"),
        Ok(()) => panic!("a value is not a module"),
    }
    m.insert_declaration(None, 7);
    m.insert_declaration(Some(&Address::from_label(Label::Route("/".to_string()))), 9);
    assert_eq!(m.statements, vec![7]);
    let routes = m.routes();
    assert_eq!(routes.len(), 1);
    assert_eq!(routes[0].0, "/");
    assert!(matches!(routes[0].1, Member::Value(9)));
}

#[test]
fn count_makes_the_numbers_below() {
    assert_eq!(count(5), vec![0, 1, 2, 3, 4]);
    assert_eq!(count(0), Vec::<i64>::new());
    assert_eq!(count(-3), Vec::<i64>::new());
}

#[test]
fn sum_adds_numbers_and_joins_texts() {
    assert!(matches!(sum(&[Item::Nil, Item::Int(2), Item::Int(3), Item::Nil]), Ok(Item::Int(5))));
    match sum(&[Item::Text("a".to_string()), Item::Nil, Item::Int(-4), Item::Other("x".to_string())]) {
        Ok(Item::Text(t)) => assert_eq!(t, "a-4x"),
        _ => panic!("expected text"),
    }
    match sum(&[Item::Nil]) {
        Err(e) => assert_eq!(e.to_string(), "err 500: tried to sum an empty list"),
        _ => panic!("expected an error"),
    }
    match sum(&[Item::Other("1.5".to_string())]) {
        Err(e) => assert_eq!(e.to_string(), "err 500: please don't try to sum that"),
        _ => panic!("expected an error"),
    }
}

#[test]
fn choice_picks_an_expression() {
    assert_eq!(choose_index(&Selector::Nil, 3), 0);
    assert_eq!(choose_index(&Selector::Bool(true), 3), 0);
    assert_eq!(choose_index(&Selector::Bool(false), 3), 1);
    assert_eq!(choose_index(&Selector::Int(2), 3), 2);
    assert_eq!(choose_index(&Selector::Int(9), 3), 2);
    assert_eq!(choose_index(&Selector::Int(-4), 3), 0);
}

#[test]
fn json_documents_are_read_by_the_json_crate() {
    assert_eq!(parse_json("-2"), Some(JsonDoc::Number(false, 2, 0)));
    assert_eq!(parse_json("\"hi\""), Some(JsonDoc::Text("hi".to_string())));
    assert_eq!(
        parse_json("{\"b\": false, \"a\": {}}"),
        Some(JsonDoc::Object(vec![
            ("b".to_string(), JsonDoc::Boolean(false)),
            ("a".to_string(), JsonDoc::Object(vec![])),
        ]))
    );
    assert_eq!(parse_json("[1,"), None);
    assert_eq!(parse_json(""), None);
}
