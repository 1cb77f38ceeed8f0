use markup_vdom::html::{Html, HtmlAttribute, HtmlElement};
use markup_vdom::html_analyse::{analyse_html, AnalyseError, ErrorKind};
use markup_vdom::html_parse::{HtmlToken, HtmlTokenStream};

fn start(s: &str) -> HtmlToken {
    HtmlToken::ElementStart { ident: String::from(s) }
}

fn end(s: &str) -> HtmlToken {
    HtmlToken::ElementEnd { ident: Some(String::from(s)) }
}

#[test]
fn test_analyse_element() {
    let input = HtmlTokenStream::new(vec![
        HtmlToken::LessThan,
        start("div"),
        HtmlToken::GreaterThan,
        HtmlToken::LessThan,
        HtmlToken::Slash,
        end("div"),
        HtmlToken::GreaterThan,
        HtmlToken::EOF,
    ]);

    let html: Result<Html, AnalyseError> = analyse_html(input);

    assert!(html.is_ok());
    assert_eq!(
        *html.ok().unwrap().root(),
        HtmlElement::new(String::from("div"), Vec::new(), Vec::new(), None)
    );
}

#[test]
fn test_analyse_element_with_attributes() {
    let input = HtmlTokenStream::new(vec![
        HtmlToken::LessThan,
        start("div"),
        HtmlToken::AttributeName { ident: String::from("id") },
        HtmlToken::Eq,
        HtmlToken::AttributeValue { literal: String::from("container") },
        HtmlToken::GreaterThan,
        HtmlToken::LessThan,
        HtmlToken::Slash,
        end("div"),
        HtmlToken::GreaterThan,
        HtmlToken::EOF,
    ]);

    let html: Result<Html, AnalyseError> = analyse_html(input);

    assert!(html.is_ok());
    assert_eq!(
        *html.ok().unwrap().root(),
        HtmlElement::new(
            String::from("div"),
            vec![HtmlAttribute::new(
                String::from("id"),
                Some(String::from("container"))
            )],
            Vec::new(),
            None,
        )
    );
}

#[test]
fn test_analyse_void_element() {
    let input = HtmlTokenStream::new(vec![
        HtmlToken::LessThan,
        start("img"),
        HtmlToken::Slash,
        HtmlToken::ElementEnd { ident: None },
        HtmlToken::GreaterThan,
        HtmlToken::EOF,
    ]);

    let html: Result<Html, AnalyseError> = analyse_html(input);

    assert!(html.is_ok());
    assert_eq!(
        *html.ok().unwrap().root(),
        HtmlElement::new(String::from("img"), Vec::new(), Vec::new(), None)
    );
}

#[test]
fn test_analyse_element_with_children() {
    let input = HtmlTokenStream::new(vec![
        HtmlToken::LessThan,
        start("div"),
        HtmlToken::GreaterThan,
        HtmlToken::LessThan,
        start("p"),
        HtmlToken::GreaterThan,
        HtmlToken::LessThan,
        HtmlToken::Slash,
        end("p"),
        HtmlToken::GreaterThan,
        HtmlToken::LessThan,
        HtmlToken::Slash,
        end("div"),
        HtmlToken::GreaterThan,
        HtmlToken::EOF,
    ]);

    let html: Result<Html, AnalyseError> = analyse_html(input);

    assert!(html.is_ok());
    assert_eq!(
        *html.ok().unwrap().root(),
        HtmlElement::new(
            String::from("div"),
            Vec::new(),
            vec![HtmlElement::new(
                String::from("p"),
                Vec::new(),
                Vec::new(),
                None
            )],
            None,
        )
    );
}

#[test]
fn test_analyse_element_with_text_content() {
    let input = HtmlTokenStream::new(vec![
        HtmlToken::LessThan,
        start("div"),
        HtmlToken::GreaterThan,
        HtmlToken::Text { literal: String::from("hello world") },
        HtmlToken::LessThan,
        HtmlToken::Slash,
        end("div"),
        HtmlToken::GreaterThan,
        HtmlToken::EOF,
    ]);

    let html: Result<Html, AnalyseError> = analyse_html(input);

    assert!(html.is_ok());
    assert_eq!(
        *html.ok().unwrap().root(),
        HtmlElement::new(
            String::from("div"),
            Vec::new(),
            Vec::new(),
            Some(String::from("hello world")),
        )
    );
}

#[test]
fn test_set_text_last_write_wins() {
    // a second text write replaces the first: last write wins
    let mut element = HtmlElement::new(String::from("div"), Vec::new(), Vec::new(), None);
    element.set_text(Some(String::from("first")));
    element.set_text(Some(String::from("second")));
    assert_eq!(*element.get_text(), Some(String::from("second")));
}

#[test]
fn test_analyse_mismatched_closing_tag() {
    let input = HtmlTokenStream::new(vec![
        HtmlToken::LessThan,
        start("div"),
        HtmlToken::GreaterThan,
        HtmlToken::LessThan,
        HtmlToken::Slash,
        end("p"),
        HtmlToken::GreaterThan,
        HtmlToken::EOF,
    ]);

    let err = analyse_html(input).unwrap_err();
    assert_eq!(err.kind(), ErrorKind::StructuralError);
    match err {
        AnalyseError::MismatchedTag { expected, found } => {
            assert_eq!(expected, String::from("div"));
            assert_eq!(found, String::from("p"));
        }
        other => panic!("expected a mismatched closing tag, got {:?}", other),
    }
}

#[test]
fn test_analyse_invalid_token_is_syntax_error() {
    let input = HtmlTokenStream::new(vec![HtmlToken::GreaterThan, HtmlToken::EOF]);

    let err = analyse_html(input).unwrap_err();
    assert_eq!(err.kind(), ErrorKind::SyntaxError);
    match err {
        AnalyseError::UnexpectedToken { message, token } => {
            assert_eq!(message, "Unexpected >");
            assert_eq!(token, HtmlToken::GreaterThan);
        }
        other => panic!("expected an unexpected-token failure, got {:?}", other),
    }
}

#[test]
fn test_analyse_closing_with_nothing_open() {
    let input = HtmlTokenStream::new(vec![
        HtmlToken::LessThan,
        HtmlToken::Slash,
        end("div"),
        HtmlToken::GreaterThan,
        HtmlToken::EOF,
    ]);

    let err = analyse_html(input).unwrap_err();
    assert_eq!(err.kind(), ErrorKind::StructuralError);
    match err {
        AnalyseError::Failure { message } => {
            assert_eq!(message, "No element");
        }
        other => panic!("expected a structural failure, got {:?}", other),
    }
}

#[test]
fn test_analyse_stream_without_eof() {
    let input = HtmlTokenStream::new(vec![HtmlToken::LessThan]);

    let err = analyse_html(input).unwrap_err();
    assert_eq!(err.kind(), ErrorKind::StructuralError);
    assert_eq!(err, AnalyseError::UnexpectedEnd);
}
