use markup_vdom::html_parse::{parse_html, HtmlToken, HtmlTokenStream, LexError, RawToken};

fn ident(s: &str) -> RawToken {
    RawToken::Ident(String::from(s))
}

fn literal(s: &str) -> RawToken {
    RawToken::Literal(String::from(s))
}

fn start(s: &str) -> HtmlToken {
    HtmlToken::ElementStart { ident: String::from(s) }
}

fn end(s: &str) -> HtmlToken {
    HtmlToken::ElementEnd { ident: Some(String::from(s)) }
}

fn lex(input: Vec<RawToken>) -> HtmlTokenStream {
    parse_html(&input).expect("lexes")
}

#[test]
fn test_parse_html_element_start() {
    let html = lex(vec![RawToken::LessThan, ident("div"), RawToken::GreaterThan]);

    assert_eq!(
        *html.tokens(),
        vec![HtmlToken::LessThan, start("div"), HtmlToken::GreaterThan, HtmlToken::EOF]
    );
}

#[test]
fn test_parse_html_element_end() {
    {
        let html = lex(vec![
            RawToken::LessThan,
            ident("div"),
            RawToken::GreaterThan,
            RawToken::LessThan,
            RawToken::Slash,
            ident("div"),
            RawToken::GreaterThan,
        ]);

        assert_eq!(
            *html.tokens(),
            vec![
                HtmlToken::LessThan,
                start("div"),
                HtmlToken::GreaterThan,
                HtmlToken::LessThan,
                HtmlToken::Slash,
                end("div"),
                HtmlToken::GreaterThan,
                HtmlToken::EOF,
            ]
        );
    }

    {
        let html = lex(vec![
            RawToken::LessThan,
            ident("div"),
            RawToken::Slash,
            RawToken::GreaterThan,
        ]);

        assert_eq!(
            *html.tokens(),
            vec![
                HtmlToken::LessThan,
                start("div"),
                HtmlToken::Slash,
                HtmlToken::ElementEnd { ident: None },
                HtmlToken::GreaterThan,
                HtmlToken::EOF,
            ]
        );
    }
}

#[test]
fn test_parse_html_element_attributes() {
    let html = lex(vec![
        RawToken::LessThan,
        ident("div"),
        ident("id"),
        RawToken::Eq,
        literal("myElement"),
        ident("class"),
        RawToken::Eq,
        literal("foobar"),
        RawToken::GreaterThan,
    ]);

    assert_eq!(
        *html.tokens(),
        vec![
            HtmlToken::LessThan,
            start("div"),
            HtmlToken::AttributeName { ident: String::from("id") },
            HtmlToken::Eq,
            HtmlToken::AttributeValue { literal: String::from("myElement") },
            HtmlToken::AttributeName { ident: String::from("class") },
            HtmlToken::Eq,
            HtmlToken::AttributeValue { literal: String::from("foobar") },
            HtmlToken::GreaterThan,
            HtmlToken::EOF,
        ]
    );
}

#[test]
fn test_parse_html_element_text() {
    let html = lex(vec![
        RawToken::LessThan,
        ident("p"),
        RawToken::GreaterThan,
        literal("Hello World"),
        RawToken::LessThan,
        RawToken::Slash,
        ident("p"),
        RawToken::GreaterThan,
    ]);

    assert_eq!(
        *html.tokens(),
        vec![
            HtmlToken::LessThan,
            start("p"),
            HtmlToken::GreaterThan,
            HtmlToken::Text { literal: String::from("Hello World") },
            HtmlToken::LessThan,
            HtmlToken::Slash,
            end("p"),
            HtmlToken::GreaterThan,
            HtmlToken::EOF,
        ]
    );
}

#[test]
fn test_parse_nested_html_elements() {
    let html = lex(vec![
        RawToken::LessThan,
        ident("div"),
        RawToken::GreaterThan,
        RawToken::LessThan,
        ident("p"),
        RawToken::GreaterThan,
        literal("Hello World"),
        RawToken::LessThan,
        RawToken::Slash,
        ident("p"),
        RawToken::GreaterThan,
        RawToken::LessThan,
        ident("a"),
        RawToken::GreaterThan,
        RawToken::LessThan,
        ident("b"),
        RawToken::Slash,
        RawToken::GreaterThan,
        RawToken::LessThan,
        RawToken::Slash,
        ident("a"),
        RawToken::GreaterThan,
        RawToken::LessThan,
        RawToken::Slash,
        ident("div"),
        RawToken::GreaterThan,
    ]);

    assert_eq!(
        *html.tokens(),
        vec![
            HtmlToken::LessThan,
            start("div"),
            HtmlToken::GreaterThan,
            HtmlToken::LessThan,
            start("p"),
            HtmlToken::GreaterThan,
            HtmlToken::Text { literal: String::from("Hello World") },
            HtmlToken::LessThan,
            HtmlToken::Slash,
            end("p"),
            HtmlToken::GreaterThan,
            HtmlToken::LessThan,
            start("a"),
            HtmlToken::GreaterThan,
            HtmlToken::LessThan,
            start("b"),
            HtmlToken::Slash,
            HtmlToken::ElementEnd { ident: None },
            HtmlToken::GreaterThan,
            HtmlToken::LessThan,
            HtmlToken::Slash,
            end("a"),
            HtmlToken::GreaterThan,
            HtmlToken::LessThan,
            HtmlToken::Slash,
            end("div"),
            HtmlToken::GreaterThan,
            HtmlToken::EOF,
        ]
    );
}

#[test]
fn test_lex_invalid_closing_character() {
    let r = parse_html(&vec![RawToken::GreaterThan]);
    match r {
        Err(LexError::InvalidClosing { token }) => {
            assert_eq!(token, RawToken::GreaterThan);
        }
        other => panic!("expected an invalid-closing failure, got {:?}", other),
    }
    let e = parse_html(&vec![RawToken::GreaterThan]).unwrap_err();
    assert_eq!(e.message(), "Invalid closing character '>'!");
}

#[test]
fn test_lex_no_element_start() {
    let r = parse_html(&vec![ident("div")]);
    match r {
        Err(LexError::NoElementStart { token }) => {
            assert_eq!(token, ident("div"));
        }
        other => panic!("expected a no-element-start failure, got {:?}", other),
    }
    let e = parse_html(&vec![ident("div")]).unwrap_err();
    assert_eq!(e.message(), "No element start token '<' found!");
}

#[test]
fn test_lex_no_attribute_assignment() {
    let r = parse_html(&vec![RawToken::LessThan, ident("div"), literal("x")]);
    match r {
        Err(LexError::NoAttributeAssignment { token }) => {
            assert_eq!(token, literal("x"));
        }
        other => panic!("expected a no-attribute-assignment failure, got {:?}", other),
    }
    let e = parse_html(&vec![RawToken::LessThan, ident("div"), literal("x")]).unwrap_err();
    assert_eq!(e.message(), "No attribute assignment token '=' found!");
}

#[test]
fn test_lex_empty_input_is_just_eof() {
    let html = lex(Vec::new());
    assert_eq!(*html.tokens(), vec![HtmlToken::EOF]);
}

#[test]
fn test_lex_exactly_one_eof() {
    let html = lex(vec![
        RawToken::LessThan,
        ident("div"),
        RawToken::Slash,
        RawToken::GreaterThan,
    ]);
    let eofs = html
        .tokens()
        .iter()
        .filter(|t| matches!(t, HtmlToken::EOF))
        .count();
    assert_eq!(eofs, 1);
    assert_eq!(*html.tokens().last().unwrap(), HtmlToken::EOF);
}
