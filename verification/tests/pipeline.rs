use markup_vdom::html::Html;
use markup_vdom::html_analyse::{AnalyseError, ErrorKind};
use markup_vdom::html_build::{compile_html, CompileError};
use markup_vdom::html_parse::{ParseError, RawToken};
use markup_vdom::vdom::{VItem, VNode, VRef, VTree};

fn ident(s: &str) -> RawToken {
    RawToken::Ident(String::from(s))
}

fn literal(s: &str) -> RawToken {
    RawToken::Literal(String::from(s))
}

fn open_tag(name: &str) -> Vec<RawToken> {
    vec![RawToken::LessThan, ident(name), RawToken::GreaterThan]
}

fn close_tag(name: &str) -> Vec<RawToken> {
    vec![
        RawToken::LessThan,
        RawToken::Slash,
        ident(name),
        RawToken::GreaterThan,
    ]
}

fn root_node(tree: &VTree) -> VNode {
    let root = tree.get_root().expect("a root");
    tree.get_node(&root).expect("the root node")
}

fn element_parts(node: &VNode) -> (String, Vec<(String, Option<String>)>, Option<String>) {
    match &node.item {
        Some(VItem::Element { name, attributes, text }) => {
            (name.clone(), attributes.clone(), text.clone())
        }
        other => panic!("expected element content, got {:?}", other),
    }
}

#[test]
fn test_parse() {
    let mut input = vec![
        RawToken::LessThan,
        ident("div"),
        ident("class"),
        RawToken::Eq,
        literal("container"),
        RawToken::GreaterThan,
    ];
    input.extend(open_tag("p"));
    input.extend(close_tag("p"));
    input.extend(close_tag("div"));

    let parsed_tree: VTree = compile_html(&input).expect("compiles");

    let parsed_root = parsed_tree.get_root();

    assert_eq!(parsed_tree.nodes().len(), 2);
    assert!(parsed_tree.nodes().iter().any(|node| match &node.item {
        Some(VItem::Element { name, .. }) => name == "div",
        _ => false,
    }));
    assert!(parsed_tree.nodes().iter().any(|node| match &node.item {
        Some(VItem::Element { name, .. }) => name == "p",
        _ => false,
    }));
    assert!(parsed_root.is_some());
    assert_eq!(
        parsed_tree
            .get_node(&parsed_root.unwrap())
            .unwrap()
            .item,
        Some(VItem::Element {
            name: String::from("div"),
            attributes: vec![(String::from("class"), Some(String::from("container")))],
            text: None,
        })
    );
    assert!(parsed_tree
        .children(&parsed_root.unwrap())
        .iter()
        .any(|node| match &node.item {
            Some(VItem::Element { name, .. }) => name == "p",
            _ => false,
        }));
}

#[test]
fn test_compile_single_element() {
    let mut input = open_tag("div");
    input.extend(close_tag("div"));

    let tree = compile_html(&input).expect("compiles");

    assert_eq!(tree.nodes().len(), 1);
    let root = root_node(&tree);
    let (name, attributes, text) = element_parts(&root);
    assert_eq!(name, "div");
    assert!(attributes.is_empty());
    assert!(text.is_none());
    assert!(tree.children(&tree.get_root().unwrap()).is_empty());
}

#[test]
fn test_compile_attribute_order_preserved() {
    let mut input = vec![
        RawToken::LessThan,
        ident("div"),
        ident("id"),
        RawToken::Eq,
        literal("x"),
        ident("class"),
        RawToken::Eq,
        literal("wide"),
        ident("title"),
        RawToken::Eq,
        literal("t"),
        RawToken::GreaterThan,
    ];
    input.extend(close_tag("div"));

    let tree = compile_html(&input).expect("compiles");
    let (_, attributes, _) = element_parts(&root_node(&tree));
    assert_eq!(
        attributes,
        vec![
            (String::from("id"), Some(String::from("x"))),
            (String::from("class"), Some(String::from("wide"))),
            (String::from("title"), Some(String::from("t"))),
        ]
    );
}

#[test]
fn test_compile_void_element_equivalent_to_explicit_close() {
    let void = vec![
        RawToken::LessThan,
        ident("img"),
        RawToken::Slash,
        RawToken::GreaterThan,
    ];
    let mut explicit = open_tag("img");
    explicit.extend(close_tag("img"));

    let tree_void = compile_html(&void).expect("compiles");
    let tree_explicit = compile_html(&explicit).expect("compiles");

    assert_eq!(tree_void.nodes().len(), 1);
    assert_eq!(tree_explicit.nodes().len(), 1);
    let root_void = root_node(&tree_void);
    let root_explicit = root_node(&tree_explicit);
    assert_eq!(root_void.item, root_explicit.item);
    assert!(tree_void.children(&tree_void.get_root().unwrap()).is_empty());
    let (name, attributes, text) = element_parts(&root_void);
    assert_eq!(name, "img");
    assert!(attributes.is_empty());
    assert!(text.is_none());
}

#[test]
fn test_compile_nested_child() {
    let mut input = open_tag("div");
    input.extend(open_tag("p"));
    input.extend(close_tag("p"));
    input.extend(close_tag("div"));

    let tree = compile_html(&input).expect("compiles");

    let root = tree.get_root().unwrap();
    let children = tree.children(&root);
    assert_eq!(children.len(), 1);
    let p = children[0];
    let (p_name, _, _) = element_parts(p);
    assert_eq!(p_name, "p");
    let p_id = p.id;
    assert_eq!(tree.parent(&p_id), Some(&root));
}

#[test]
fn test_compile_text_content() {
    let mut input = open_tag("div");
    input.push(literal("hello"));
    input.extend(close_tag("div"));

    let tree = compile_html(&input).expect("compiles");
    let (name, _, text) = element_parts(&root_node(&tree));
    assert_eq!(name, "div");
    assert_eq!(text, Some(String::from("hello")));
    assert!(tree.children(&tree.get_root().unwrap()).is_empty());
}

#[test]
fn test_compile_attribute_without_value_is_dropped() {
    // a pending attribute that never receives a value is never attached
    let mut input = vec![
        RawToken::LessThan,
        ident("div"),
        ident("id"),
        RawToken::GreaterThan,
    ];
    input.extend(close_tag("div"));

    let tree = compile_html(&input).expect("compiles");
    let (_, attributes, _) = element_parts(&root_node(&tree));
    assert!(attributes.is_empty());
}

#[test]
fn test_compile_mismatched_tags_fail_structurally() {
    let mut input = open_tag("div");
    input.extend(close_tag("p"));

    let err = compile_html(&input).unwrap_err();
    assert_eq!(err.kind(), ErrorKind::StructuralError);
    match err {
        CompileError::Analyse(AnalyseError::MismatchedTag { expected, found }) => {
            assert_eq!(expected, String::from("div"));
            assert_eq!(found, String::from("p"));
        }
        other => panic!("expected a mismatched closing tag, got {:?}", other),
    }
}

#[test]
fn test_compile_lex_failure_kind() {
    let err = compile_html(&vec![RawToken::GreaterThan]).unwrap_err();
    assert_eq!(err.kind(), ErrorKind::LexError);
    assert!(matches!(err, CompileError::Lex(_)));
}

#[test]
fn test_compile_syntax_failure_kind() {
    // a lone `<=` lexes but `=` is invalid in the analyzer's opening state
    let input = vec![RawToken::LessThan, RawToken::Eq];
    let err = compile_html(&input).unwrap_err();
    assert_eq!(err.kind(), ErrorKind::SyntaxError);
}

#[test]
fn test_direct_parse_builds_tree() {
    let mut input = open_tag("div");
    input.extend(open_tag("p"));
    input.extend(close_tag("p"));
    input.extend(close_tag("div"));

    let tree = Html::parse(&input).expect("parses");

    assert_eq!(tree.nodes().len(), 2);
    let root = tree.get_root().expect("a root");
    let (name, _, _) = element_parts(&tree.get_node(&root).unwrap());
    assert_eq!(name, "div");
    let children = tree.children(&root);
    assert_eq!(children.len(), 1);
    let (child_name, _, _) = element_parts(children[0]);
    assert_eq!(child_name, "p");
}

#[test]
fn test_direct_parse_mismatched_closing_tag() {
    let mut input = open_tag("div");
    input.extend(close_tag("p"));

    let err = Html::parse(&input).unwrap_err();
    assert_eq!(
        err,
        ParseError::MismatchedClosingTag {
            expected: String::from("div"),
            found: String::from("p"),
        }
    );
}

#[test]
fn test_direct_parse_second_root_rejected() {
    let mut input = open_tag("div");
    input.extend(close_tag("div"));
    input.extend(open_tag("span"));

    let err = Html::parse(&input).unwrap_err();
    assert_eq!(err, ParseError::RootAlreadySet);
}

#[test]
fn test_direct_parse_closing_with_nothing_open() {
    let input = close_tag("div");
    let err = Html::parse(&input).unwrap_err();
    assert_eq!(
        err,
        ParseError::NoOpenElement { name: String::from("div") }
    );
}

#[test]
fn test_direct_parse_unknown_token() {
    let input = vec![RawToken::Eq];
    let err = Html::parse(&input).unwrap_err();
    assert_eq!(err, ParseError::UnknownToken { token: RawToken::Eq });
}

#[test]
fn test_compile_root_has_no_parent() {
    let mut input = open_tag("div");
    input.extend(close_tag("div"));

    let tree = compile_html(&input).expect("compiles");
    let root = tree.get_root().unwrap();
    assert!(tree.parent(&root).is_none());
}

#[test]
fn test_roundtrip_random_identity_unused_by_compile() {
    // compiled trees use dense tree-scoped identities; random identities
    // from the store API coexist with them
    let mut input = open_tag("div");
    input.extend(close_tag("div"));
    let mut tree = compile_html(&input).expect("compiles");
    let extra = tree.create_random_node();
    assert!(tree.get_node(&extra).is_some());
    let root = tree.get_root().unwrap();
    tree.append_child(&root, &extra);
    assert_eq!(tree.children(&root).len(), 1);
    assert_eq!(tree.parent(&extra), Some(&root));
    let _ = VRef::random();
}
