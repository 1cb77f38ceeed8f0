//! The token-stream lexer: classifies each primitive lexical token into
//! exactly one (or, for a self-closing tag's `>`, two) typed markup tokens,
//! using the previously emitted markup token as disambiguating context.
//! It also holds the direct tree-building parser, which drives the store
//! straight from the primitive tokens.

use vstd::prelude::*;
use crate::vdom::{VItem, VItemView};

verus! {

/// Model of a primitive lexical token.
pub enum RawTokenView {
    LessThan,
    GreaterThan,
    Slash,
    Eq,
    Ident(Seq<char>),
    Literal(Seq<char>),
}

/// A primitive lexical token, as the host language's own tokenizer hands it
/// in: punctuation, a bare identifier, or a quoted string literal's value.
#[derive(PartialEq, Debug, Clone)]
pub enum RawToken {
    LessThan,
    GreaterThan,
    Slash,
    Eq,
    Ident(String),
    Literal(String),
}

impl RawToken {
    /// Copies a primitive token, preserving its model.
    pub fn duplicate(&self) -> (r: RawToken)
        ensures
            r@ == self@,
    {
        match self {
            RawToken::LessThan => RawToken::LessThan,
            RawToken::GreaterThan => RawToken::GreaterThan,
            RawToken::Slash => RawToken::Slash,
            RawToken::Eq => RawToken::Eq,
            RawToken::Ident(s) => RawToken::Ident(s.clone()),
            RawToken::Literal(s) => RawToken::Literal(s.clone()),
        }
    }
}

impl View for RawToken {
    type V = RawTokenView;

    open spec fn view(&self) -> RawTokenView {
        match self {
            RawToken::LessThan => RawTokenView::LessThan,
            RawToken::GreaterThan => RawTokenView::GreaterThan,
            RawToken::Slash => RawTokenView::Slash,
            RawToken::Eq => RawTokenView::Eq,
            RawToken::Ident(s) => RawTokenView::Ident(s@),
            RawToken::Literal(s) => RawTokenView::Literal(s@),
        }
    }
}

/// Model of a typed markup token.
pub enum HtmlTokenView {
    LessThan,
    GreaterThan,
    Slash,
    Eq,
    ElementStart { ident: Seq<char> },
    ElementEnd { ident: Option<Seq<char>> },
    AttributeName { ident: Seq<char> },
    AttributeValue { literal: Seq<char> },
    Text { literal: Seq<char> },
    EOF,
}

/// A typed markup token. A void tag's synthesized end token carries no name;
/// the stream always finishes with exactly one `EOF`.
#[derive(Debug, Clone)]
pub enum HtmlToken {
    LessThan,
    GreaterThan,
    Slash,
    Eq,
    ElementStart { ident: String },
    ElementEnd { ident: Option<String> },
    AttributeName { ident: String },
    AttributeValue { literal: String },
    Text { literal: String },
    EOF,
}

impl View for HtmlToken {
    type V = HtmlTokenView;

    open spec fn view(&self) -> HtmlTokenView {
        match self {
            HtmlToken::LessThan => HtmlTokenView::LessThan,
            HtmlToken::GreaterThan => HtmlTokenView::GreaterThan,
            HtmlToken::Slash => HtmlTokenView::Slash,
            HtmlToken::Eq => HtmlTokenView::Eq,
            HtmlToken::ElementStart { ident } => HtmlTokenView::ElementStart { ident: ident@ },
            HtmlToken::ElementEnd { ident } => HtmlTokenView::ElementEnd {
                ident: match ident {
                    Some(s) => Some(s@),
                    None => None,
                },
            },
            HtmlToken::AttributeName { ident } => HtmlTokenView::AttributeName { ident: ident@ },
            HtmlToken::AttributeValue { literal } => HtmlTokenView::AttributeValue {
                literal: literal@,
            },
            HtmlToken::Text { literal } => HtmlTokenView::Text { literal: literal@ },
            HtmlToken::EOF => HtmlTokenView::EOF,
        }
    }
}

impl HtmlToken {
    /// Copies a markup token, preserving its model.
    pub fn duplicate(&self) -> (r: HtmlToken)
        ensures
            r@ == self@,
    {
        match self {
            HtmlToken::LessThan => HtmlToken::LessThan,
            HtmlToken::GreaterThan => HtmlToken::GreaterThan,
            HtmlToken::Slash => HtmlToken::Slash,
            HtmlToken::Eq => HtmlToken::Eq,
            HtmlToken::ElementStart { ident } => HtmlToken::ElementStart { ident: ident.clone() },
            HtmlToken::ElementEnd { ident } => HtmlToken::ElementEnd {
                ident: match ident {
                    Some(s) => Some(s.clone()),
                    None => None,
                },
            },
            HtmlToken::AttributeName { ident } => HtmlToken::AttributeName {
                ident: ident.clone(),
            },
            HtmlToken::AttributeValue { literal } => HtmlToken::AttributeValue {
                literal: literal.clone(),
            },
            HtmlToken::Text { literal } => HtmlToken::Text { literal: literal.clone() },
            HtmlToken::EOF => HtmlToken::EOF,
        }
    }
}

impl PartialEq for HtmlToken {
    /// Tokens are equal when they carry the same classification and the same
    /// characters, as the models compare.
    fn eq(&self, other: &Self) -> (r: bool) {
        match (self, other) {
            (HtmlToken::LessThan, HtmlToken::LessThan) => true,
            (HtmlToken::GreaterThan, HtmlToken::GreaterThan) => true,
            (HtmlToken::Eq, HtmlToken::Eq) => true,
            (HtmlToken::Slash, HtmlToken::Slash) => true,
            (HtmlToken::ElementStart { ident: a }, HtmlToken::ElementStart { ident: b }) => *a
                == *b,
            (HtmlToken::ElementEnd { ident: a }, HtmlToken::ElementEnd { ident: b }) => match (
                a,
                b,
            ) {
                (Some(x), Some(y)) => *x == *y,
                (None, None) => true,
                _ => false,
            },
            (HtmlToken::AttributeName { ident: a }, HtmlToken::AttributeName { ident: b }) => *a
                == *b,
            (HtmlToken::AttributeValue { literal: a }, HtmlToken::AttributeValue {
                literal: b,
            }) => *a == *b,
            (HtmlToken::Text { literal: a }, HtmlToken::Text { literal: b }) => *a == *b,
            (HtmlToken::EOF, HtmlToken::EOF) => true,
            _ => false,
        }
    }
}

impl vstd::std_specs::cmp::PartialEqSpecImpl for HtmlToken {
    open spec fn obeys_eq_spec() -> bool {
        true
    }

    open spec fn eq_spec(&self, other: &Self) -> bool {
        self@ == other@
    }
}

/// A lex failure: the primitive token cannot be classified given the token
/// emitted just before it.
#[derive(PartialEq, Debug, Clone)]
pub enum LexError {
    /// A `>` whose predecessor allows no closing bracket.
    InvalidClosing { token: RawToken },
    /// An identifier with no element start, slash or attribute context.
    NoElementStart { token: RawToken },
    /// A string literal with no preceding `=` or `>`.
    NoAttributeAssignment { token: RawToken },
}

/// Model of a lex failure.
pub enum LexErrorView {
    InvalidClosing { token: RawTokenView },
    NoElementStart { token: RawTokenView },
    NoAttributeAssignment { token: RawTokenView },
}

impl View for LexError {
    type V = LexErrorView;

    open spec fn view(&self) -> LexErrorView {
        match self {
            LexError::InvalidClosing { token } => LexErrorView::InvalidClosing { token: token@ },
            LexError::NoElementStart { token } => LexErrorView::NoElementStart { token: token@ },
            LexError::NoAttributeAssignment { token } => LexErrorView::NoAttributeAssignment {
                token: token@,
            },
        }
    }
}

impl LexError {
    /// The diagnostic text for this failure.
    pub fn message(&self) -> &'static str {
        match self {
            LexError::InvalidClosing { .. } => "Invalid closing character '>'!",
            LexError::NoElementStart { .. } => "No element start token '<' found!",
            LexError::NoAttributeAssignment { .. } => "No attribute assignment token '=' found!",
        }
    }
}

/// What classifying one primitive token does: emit one or two markup tokens,
/// or fail.
pub enum LexStep {
    Emit(Seq<HtmlTokenView>),
    Fail(LexErrorView),
}

/// The classification rules, applied to one primitive token given the
/// previously emitted markup token (`None` at the very start).
pub open spec fn spec_classify(prev: Option<HtmlTokenView>, t: RawTokenView) -> LexStep {
    match t {
        RawTokenView::LessThan => LexStep::Emit(seq![HtmlTokenView::LessThan]),
        RawTokenView::GreaterThan => match prev {
            Some(HtmlTokenView::Slash) => LexStep::Emit(
                seq![HtmlTokenView::ElementEnd { ident: None }, HtmlTokenView::GreaterThan],
            ),
            Some(HtmlTokenView::ElementStart { .. }) | Some(HtmlTokenView::ElementEnd { .. })
                | Some(HtmlTokenView::AttributeName { .. }) | Some(
                HtmlTokenView::AttributeValue { .. },
            ) => LexStep::Emit(seq![HtmlTokenView::GreaterThan]),
            _ => LexStep::Fail(LexErrorView::InvalidClosing { token: t }),
        },
        RawTokenView::Slash => LexStep::Emit(seq![HtmlTokenView::Slash]),
        RawTokenView::Eq => LexStep::Emit(seq![HtmlTokenView::Eq]),
        RawTokenView::Ident(name) => match prev {
            Some(HtmlTokenView::LessThan) => LexStep::Emit(
                seq![HtmlTokenView::ElementStart { ident: name }],
            ),
            Some(HtmlTokenView::Slash) => LexStep::Emit(
                seq![HtmlTokenView::ElementEnd { ident: Some(name) }],
            ),
            Some(HtmlTokenView::ElementStart { .. }) | Some(
                HtmlTokenView::AttributeValue { .. },
            ) => LexStep::Emit(seq![HtmlTokenView::AttributeName { ident: name }]),
            _ => LexStep::Fail(LexErrorView::NoElementStart { token: t }),
        },
        RawTokenView::Literal(lit) => match prev {
            Some(HtmlTokenView::Eq) => LexStep::Emit(
                seq![HtmlTokenView::AttributeValue { literal: lit }],
            ),
            Some(HtmlTokenView::GreaterThan) => LexStep::Emit(
                seq![HtmlTokenView::Text { literal: lit }],
            ),
            _ => LexStep::Fail(LexErrorView::NoAttributeAssignment { token: t }),
        },
    }
}

/// The models of a sequence of markup tokens.
pub open spec fn token_views(s: Seq<HtmlToken>) -> Seq<HtmlTokenView> {
    s.map_values(|t: HtmlToken| t@)
}

/// The models of a sequence of primitive tokens.
pub open spec fn raw_views(s: Seq<RawToken>) -> Seq<RawTokenView> {
    s.map_values(|t: RawToken| t@)
}

/// Classifies the input from position `i` on, given the tokens emitted so
/// far, and returns all tokens emitted, or the first failure.
pub open spec fn spec_lex_from(
    acc: Seq<HtmlTokenView>,
    input: Seq<RawTokenView>,
    i: int,
) -> Result<Seq<HtmlTokenView>, LexErrorView>
    decreases input.len() - i,
{
    if i < 0 || i >= input.len() {
        Ok(acc)
    } else {
        let prev = if acc.len() == 0 {
            None
        } else {
            Some(acc.last())
        };
        match spec_classify(prev, input[i]) {
            LexStep::Emit(ts) => spec_lex_from(acc + ts, input, i + 1),
            LexStep::Fail(e) => Err(e),
        }
    }
}

/// The whole lexer: classify every primitive token in order, then append the
/// one `EOF`. The first unclassifiable token fails the whole input.
pub open spec fn spec_lex(input: Seq<RawTokenView>) -> Result<Seq<HtmlTokenView>, LexErrorView> {
    match spec_lex_from(Seq::empty(), input, 0) {
        Ok(ts) => Ok(ts.push(HtmlTokenView::EOF)),
        Err(e) => Err(e),
    }
}

impl HtmlToken {
    /// Classifies one primitive token against the last already-emitted
    /// markup token, yielding the one or two tokens it stands for.
    pub fn parse(input: &RawToken, tokens: &Vec<HtmlToken>) -> (r: Result<Vec<HtmlToken>, LexError>)
        ensures
            ({
                let prev = if tokens@.len() == 0 {
                    None
                } else {
                    Some(tokens@.last()@)
                };
                match spec_classify(prev, input@) {
                    LexStep::Emit(ts) => r matches Ok(v) && token_views(v@) == ts,
                    LexStep::Fail(e) => r matches Err(er) && er@ == e,
                }
            }),
    {
        let last: Option<&HtmlToken> = if tokens.len() == 0 {
            None
        } else {
            Some(&tokens[tokens.len() - 1])
        };
        let r: Result<Vec<HtmlToken>, LexError> = match input {
            RawToken::LessThan => Ok(vec![HtmlToken::LessThan]),
            RawToken::GreaterThan => match last {
                Some(HtmlToken::Slash) => Ok(
                    vec![HtmlToken::ElementEnd { ident: None }, HtmlToken::GreaterThan],
                ),
                Some(HtmlToken::ElementStart { .. }) | Some(HtmlToken::ElementEnd { .. })
                    | Some(HtmlToken::AttributeName { .. }) | Some(
                    HtmlToken::AttributeValue { .. },
                ) => Ok(vec![HtmlToken::GreaterThan]),
                _ => Err(LexError::InvalidClosing { token: input.duplicate() }),
            },
            RawToken::Slash => Ok(vec![HtmlToken::Slash]),
            RawToken::Eq => Ok(vec![HtmlToken::Eq]),
            RawToken::Ident(name) => match last {
                Some(HtmlToken::LessThan) => Ok(
                    vec![HtmlToken::ElementStart { ident: name.clone() }],
                ),
                Some(HtmlToken::Slash) => Ok(
                    vec![HtmlToken::ElementEnd { ident: Some(name.clone()) }],
                ),
                Some(HtmlToken::ElementStart { .. }) | Some(HtmlToken::AttributeValue { .. }) => Ok(
                    vec![HtmlToken::AttributeName { ident: name.clone() }],
                ),
                _ => Err(LexError::NoElementStart { token: input.duplicate() }),
            },
            RawToken::Literal(lit) => match last {
                Some(HtmlToken::Eq) => Ok(
                    vec![HtmlToken::AttributeValue { literal: lit.clone() }],
                ),
                Some(HtmlToken::GreaterThan) => Ok(
                    vec![HtmlToken::Text { literal: lit.clone() }],
                ),
                _ => Err(LexError::NoAttributeAssignment { token: input.duplicate() }),
            },
        };
        proof {
            let prev = if tokens@.len() == 0 {
                None
            } else {
                Some(tokens@.last()@)
            };
            match spec_classify(prev, input@) {
                LexStep::Emit(ts) => {
                    assert(token_views(r.unwrap()@) =~= ts);
                },
                LexStep::Fail(e) => {},
            }
        }
        r
    }
}

/// The typed token stream a markup literal lexes to.
#[derive(Debug)]
pub struct HtmlTokenStream {
    tokens: Vec<HtmlToken>,
}

impl View for HtmlTokenStream {
    type V = Seq<HtmlTokenView>;

    closed spec fn view(&self) -> Seq<HtmlTokenView> {
        token_views(self.tokens@)
    }
}

impl HtmlTokenStream {
    /// Wraps an already-classified token sequence.
    pub fn new(tokens: Vec<HtmlToken>) -> (r: HtmlTokenStream)
        ensures
            r@ == token_views(tokens@),
    {
        HtmlTokenStream { tokens }
    }

    /// The classified tokens, in order.
    pub fn tokens(&self) -> (r: &Vec<HtmlToken>)
        ensures
            token_views(r@) == self@,
    {
        &self.tokens
    }

    /// How many tokens the stream holds.
    pub fn len(&self) -> (n: usize)
        ensures
            n == self@.len(),
    {
        self.tokens.len()
    }

    /// The token at a position, or absent past the end.
    pub fn get(&self, position: usize) -> (r: Option<&HtmlToken>)
        ensures
            match r {
                Some(t) => position < self@.len() && t@ == self@[position as int],
                None => position >= self@.len(),
            },
    {
        if position < self.tokens.len() {
            Some(&self.tokens[position])
        } else {
            None
        }
    }

    /// Lexes a whole primitive token sequence: every token classified in
    /// order, one `EOF` appended; the first unclassifiable token fails the
    /// whole input instead.
    pub fn parse(input: &Vec<RawToken>) -> (r: Result<HtmlTokenStream, LexError>)
        ensures
            match spec_lex(raw_views(input@)) {
                Ok(ts) => r matches Ok(s) && s@ == ts,
                Err(e) => r matches Err(er) && er@ == e,
            },
    {
        let ghost raws = raw_views(input@);
        let mut tokens: Vec<HtmlToken> = Vec::new();
        let mut i: usize = 0;
        proof {
            assert(token_views(tokens@) =~= Seq::<HtmlTokenView>::empty());
        }
        while i < input.len()
            invariant
                0 <= i <= input.len(),
                raws == raw_views(input@),
                raws.len() == input@.len(),
                forall|j: int| 0 <= j < input@.len() ==> raws[j] == input@[j]@,
                spec_lex_from(Seq::empty(), raws, 0) == spec_lex_from(
                    token_views(tokens@),
                    raws,
                    i as int,
                ),
            decreases input.len() - i,
        {
            let step = HtmlToken::parse(&input[i], &tokens);
            match step {
                Ok(mut emitted) => {
                    let ghost pre = token_views(tokens@);
                    let ghost ts = token_views(emitted@);
                    tokens.append(&mut emitted);
                    proof {
                        assert(token_views(tokens@) =~= pre + ts);
                        if pre.len() > 0 {
                            assert(pre.last() == tokens@[pre.len() - 1]@);
                        }
                    }
                },
                Err(e) => {
                    return Err(e);
                },
            }
            i += 1;
        }
        tokens.push(HtmlToken::EOF);
        proof {
            assert(token_views(tokens@) =~= token_views(tokens@.drop_last()).push(
                HtmlTokenView::EOF,
            ));
        }
        Ok(HtmlTokenStream { tokens })
    }
}

/// Lexes a markup literal's primitive tokens into a typed token stream, or
/// reports the first lex failure.
pub fn parse_html(input: &Vec<RawToken>) -> (r: Result<HtmlTokenStream, LexError>)
    ensures
        match spec_lex(raw_views(input@)) {
            Ok(ts) => r matches Ok(s) && s@ == ts,
            Err(e) => r matches Err(er) && er@ == e,
        },
{
    HtmlTokenStream::parse(input)
}

/// A failure of the direct tree-building parser.
#[derive(PartialEq, Debug)]
pub enum ParseError {
    /// A closing tag with no element open.
    NoOpenElement { name: String },
    /// A closing tag whose name does not match the open element.
    MismatchedClosingTag { expected: String, found: String },
    /// A closing tag for an element that never received a name.
    UnnamedElement { found: String },
    /// A second root element.
    RootAlreadySet,
    /// A primitive token with no place in the grammar.
    UnknownToken { token: RawToken },
    /// The input ran out inside a closing tag.
    UnexpectedEnd,
}

/// Model of a failure of the direct tree-building parser.
pub enum ParseErrorView {
    NoOpenElement { name: Seq<char> },
    MismatchedClosingTag { expected: Seq<char>, found: Seq<char> },
    UnnamedElement { found: Seq<char> },
    RootAlreadySet,
    UnknownToken { token: RawTokenView },
    UnexpectedEnd,
}

impl View for ParseError {
    type V = ParseErrorView;

    open spec fn view(&self) -> ParseErrorView {
        match self {
            ParseError::NoOpenElement { name } => ParseErrorView::NoOpenElement { name: name@ },
            ParseError::MismatchedClosingTag { expected, found } => (
            ParseErrorView::MismatchedClosingTag { expected: expected@, found: found@ }),
            ParseError::UnnamedElement { found } => ParseErrorView::UnnamedElement {
                found: found@,
            },
            ParseError::RootAlreadySet => ParseErrorView::RootAlreadySet,
            ParseError::UnknownToken { token } => ParseErrorView::UnknownToken { token: token@ },
            ParseError::UnexpectedEnd => ParseErrorView::UnexpectedEnd,
        }
    }
}

/// Model of the direct parser's progress: the stack of open node
/// identities, the node table size (identities are dense, so the size is
/// the next fresh identity), and the tree built so far.
pub struct ParseView {
    pub stack: Seq<u128>,
    pub count: int,
    pub root: Option<u128>,
    pub parents: Map<u128, u128>,
    pub children: Map<u128, Seq<u128>>,
    pub items: Map<u128, Option<crate::vdom::VItemView>>,
}

/// The direct parser's transition for one opening `<`: create a dense-id
/// node; the first one becomes the root, later ones are appended under the
/// open element; the new node is pushed open.
pub open spec fn spec_parse_open(m: ParseView) -> Result<ParseView, ParseErrorView> {
    let id = m.count as u128;
    let created = ParseView {
        count: m.count + 1,
        items: m.items.insert(id, None),
        ..m
    };
    if m.stack.len() == 0 {
        if m.root is Some {
            Err(ParseErrorView::RootAlreadySet)
        } else {
            Ok(
                ParseView {
                    stack: created.stack.push(id),
                    root: Some(id),
                    ..created
                },
            )
        }
    } else {
        let parent = m.stack.last();
        let base = if created.children.contains_key(parent) {
            created.children[parent]
        } else {
            Seq::<u128>::empty()
        };
        Ok(
            ParseView {
                stack: created.stack.push(id),
                parents: created.parents.insert(id, parent),
                children: created.children.insert(parent, base.push(id)),
                ..created
            },
        )
    }
}

/// The direct parser's check of one closing tag: the open element is
/// popped, and the name it was given must match the closing name.
pub open spec fn spec_parse_close(m: ParseView, name: Seq<char>) -> Result<
    ParseView,
    ParseErrorView,
> {
    if m.stack.len() == 0 {
        Err(ParseErrorView::NoOpenElement { name })
    } else {
        let id = m.stack.last();
        match m.items[id] {
            Some(crate::vdom::VItemView::Element { name: given, .. }) => {
                if given == name {
                    Ok(ParseView { stack: m.stack.drop_last(), ..m })
                } else {
                    Err(ParseErrorView::MismatchedClosingTag { expected: given, found: name })
                }
            },
            _ => Err(ParseErrorView::UnnamedElement { found: name }),
        }
    }
}

/// The direct parser's fold over the primitive tokens from position `i`:
/// `<` `/` name `>` closes the open element, a bare `<` opens a node, an
/// identifier names the open element (and is dropped when none is open),
/// `>` is consumed silently, and anything else is unknown. Input ending
/// with elements still open is accepted as-is.
pub open spec fn spec_parse_at(toks: Seq<RawTokenView>, i: int, m: ParseView) -> Result<
    ParseView,
    ParseErrorView,
>
    decreases toks.len() - i,
{
    if i < 0 || i >= toks.len() {
        Ok(m)
    } else {
        match toks[i] {
            RawTokenView::LessThan => {
                if i + 1 < toks.len() && toks[i + 1] is Slash {
                    if i + 2 >= toks.len() {
                        Err(ParseErrorView::UnexpectedEnd)
                    } else {
                        match toks[i + 2] {
                            RawTokenView::Ident(name) => {
                                if i + 3 >= toks.len() {
                                    Err(ParseErrorView::UnexpectedEnd)
                                } else if !(toks[i + 3] is GreaterThan) {
                                    Err(ParseErrorView::UnknownToken { token: toks[i + 3] })
                                } else {
                                    match spec_parse_close(m, name) {
                                        Ok(m2) => spec_parse_at(toks, i + 4, m2),
                                        Err(e) => Err(e),
                                    }
                                }
                            },
                            _ => Err(ParseErrorView::UnknownToken { token: toks[i + 2] }),
                        }
                    }
                } else {
                    match spec_parse_open(m) {
                        Ok(m2) => spec_parse_at(toks, i + 1, m2),
                        Err(e) => Err(e),
                    }
                }
            },
            RawTokenView::Ident(name) => {
                if m.stack.len() > 0 {
                    let id = m.stack.last();
                    let named = ParseView {
                        items: m.items.insert(
                            id,
                            Some(
                                crate::vdom::VItemView::Element {
                                    name,
                                    attributes: Seq::empty(),
                                    text: None,
                                },
                            ),
                        ),
                        ..m
                    };
                    spec_parse_at(toks, i + 1, named)
                } else {
                    spec_parse_at(toks, i + 1, m)
                }
            },
            RawTokenView::GreaterThan => spec_parse_at(toks, i + 1, m),
            _ => Err(ParseErrorView::UnknownToken { token: toks[i] }),
        }
    }
}

/// The direct parser's whole fold, from an empty tree.
pub open spec fn spec_parse(toks: Seq<RawTokenView>) -> Result<ParseView, ParseErrorView> {
    spec_parse_at(
        toks,
        0,
        ParseView {
            stack: Seq::empty(),
            count: 0,
            root: None,
            parents: Map::empty(),
            children: Map::empty(),
            items: Map::empty(),
        },
    )
}

/// How a finished store realizes a parse model: the node table holds the
/// dense identities below the model's count, each node's content is the
/// model's, and the indices and root slot are the model's.
pub open spec fn tree_matches(t: &crate::vdom::VTree, m: ParseView) -> bool {
    &&& t.wf()
    &&& t.spec_order().len() == m.count
    &&& forall|k: u128| #[trigger] t.spec_nodes().contains_key(k) <==> (k as int) < m.count
    &&& forall|k: u128| #[trigger] t.spec_nodes().contains_key(k) ==> m.items.contains_key(k)
        && t.spec_nodes()[k]@.item == m.items[k]
    &&& t.spec_parents() == m.parents
    &&& t.spec_children() == m.children
    &&& t.spec_root() == m.root
}

/// The model the store and the open-element stack stand for.
spec fn parse_model(t: &crate::vdom::VTree, stack: Seq<crate::vdom::VRef>) -> ParseView {
    ParseView {
        stack: crate::vdom::ref_ids(stack),
        count: t.spec_order().len() as int,
        root: t.spec_root(),
        parents: t.spec_parents(),
        children: t.spec_children(),
        items: Map::new(
            |k: u128| t.spec_nodes().contains_key(k),
            |k: u128| t.spec_nodes()[k]@.item,
        ),
    }
}

impl crate::html::Html {
    /// The direct tree-building parser: drives the store straight from the
    /// primitive tokens, one dense-identity node per opening tag, following
    /// `spec_parse` exactly. Input ending with elements still open is
    /// accepted as far as it got.
    pub fn parse(input: &Vec<RawToken>) -> (r: Result<crate::vdom::VTree, ParseError>)
        ensures
            match spec_parse(raw_views(input@)) {
                Ok(m) => r matches Ok(t) && tree_matches(&t, m),
                Err(e) => r matches Err(er) && er@ == e,
            },
    {
        let ghost raws = raw_views(input@);
        let mut parse_stack: Vec<crate::vdom::VRef> = Vec::new();
        let mut tree = crate::vdom::VTree::new();
        let mut i: usize = 0;
        proof {
            assert(crate::vdom::ref_ids(parse_stack@) =~= Seq::<u128>::empty());
            assert(parse_model(&tree, parse_stack@).items =~= Map::<u128, Option<VItemView>>::empty());
            assert(parse_model(&tree, parse_stack@) == (ParseView {
                stack: Seq::empty(),
                count: 0,
                root: None,
                parents: Map::empty(),
                children: Map::empty(),
                items: Map::empty(),
            }));
        }
        loop
            invariant
                i <= input@.len(),
                raws == raw_views(input@),
                raws.len() == input@.len(),
                forall|j: int| 0 <= j < input@.len() ==> raws[j] == input@[j]@,
                tree.wf(),
                forall|k: u128| #[trigger] tree.spec_nodes().contains_key(k) <==> (k as int)
                    < tree.spec_order().len(),
                forall|j: int|
                    0 <= j < parse_stack@.len() ==> (#[trigger] parse_stack@[j]@ as int)
                        < tree.spec_order().len(),
                spec_parse(raws) == spec_parse_at(
                    raws,
                    i as int,
                    parse_model(&tree, parse_stack@),
                ),
            decreases input@.len() - i,
        {
            if i >= input.len() {
                proof {
                    assert(spec_parse(raws) == Ok::<ParseView, ParseErrorView>(
                        parse_model(&tree, parse_stack@),
                    ));
                }
                return Ok(tree);
            }
            let ghost m = parse_model(&tree, parse_stack@);
            match &input[i] {
                RawToken::LessThan => {
                    let closing = i + 1 < input.len() && match &input[i + 1] {
                        RawToken::Slash => true,
                        _ => false,
                    };
                    if closing {
                        if i + 2 >= input.len() {
                            return Err(ParseError::UnexpectedEnd);
                        }
                        let name = match &input[i + 2] {
                            RawToken::Ident(n) => n,
                            t => {
                                return Err(ParseError::UnknownToken { token: t.duplicate() });
                            },
                        };
                        if i + 3 >= input.len() {
                            return Err(ParseError::UnexpectedEnd);
                        }
                        match &input[i + 3] {
                            RawToken::GreaterThan => {},
                            t => {
                                return Err(ParseError::UnknownToken { token: t.duplicate() });
                            },
                        }
                        match parse_stack.pop() {
                            None => {
                                return Err(ParseError::NoOpenElement { name: name.clone() });
                            },
                            Some(node) => {
                                proof {
                                    assert(node@ == m.stack.last());
                                    assert(tree.spec_nodes().contains_key(node@));
                                }
                                match tree.get_node(&node) {
                                    None => {
                                        proof {
                                            assert(false);
                                        }
                                        return Err(ParseError::UnnamedElement {
                                            found: name.clone(),
                                        });
                                    },
                                    Some(vnode) => {
                                        match &vnode.item {
                                            Some(VItem::Element { name: kind, .. }) => {
                                                if *kind == *name {
                                                    proof {
                                                        assert(crate::vdom::ref_ids(parse_stack@)
                                                            =~= m.stack.drop_last());
                                                        assert(parse_model(&tree, parse_stack@)
                                                            == (ParseView {
                                                            stack: m.stack.drop_last(),
                                                            ..m
                                                        }));
                                                    }
                                                } else {
                                                    return Err(ParseError::MismatchedClosingTag {
                                                        expected: kind.clone(),
                                                        found: name.clone(),
                                                    });
                                                }
                                            },
                                            _ => {
                                                return Err(ParseError::UnnamedElement {
                                                    found: name.clone(),
                                                });
                                            },
                                        }
                                    },
                                }
                            },
                        }
                        i = i + 4;
                    } else {
                        let idx = tree.node_count();
                        let node = crate::vdom::vref_of(idx as u128);
                        proof {
                            assert(!tree.spec_nodes().contains_key(node@));
                            assert(!tree.spec_parents().contains_key(node@));
                        }
                        tree.create_node(&node);
                        let ghost created = ParseView {
                            count: m.count + 1,
                            items: m.items.insert(node@, None),
                            ..m
                        };
                        proof {
                            assert(parse_model(&tree, parse_stack@).items =~= created.items);
                            assert(parse_model(&tree, parse_stack@) == created);
                        }
                        if parse_stack.len() == 0 {
                            if tree.has_root() {
                                return Err(ParseError::RootAlreadySet);
                            }
                            tree.set_root(&node);
                            proof {
                                assert(parse_model(&tree, parse_stack@).items =~= created.items);
                            }
                        } else {
                            let parent = parse_stack[parse_stack.len() - 1];
                            proof {
                                assert(parent@ == m.stack.last());
                                assert(tree.spec_nodes().contains_key(parent@));
                            }
                            tree.append_child(&parent, &node);
                            proof {
                                assert(parse_model(&tree, parse_stack@).items =~= created.items);
                            }
                        }
                        parse_stack.push(node);
                        proof {
                            assert(crate::vdom::ref_ids(parse_stack@) =~= m.stack.push(node@));
                            match spec_parse_open(m) {
                                Ok(m2) => {
                                    assert(parse_model(&tree, parse_stack@) == m2);
                                },
                                Err(_) => {
                                    assert(false);
                                },
                            }
                        }
                        i = i + 1;
                    }
                },
                RawToken::Ident(name) => {
                    if parse_stack.len() > 0 {
                        let node = parse_stack[parse_stack.len() - 1];
                        proof {
                            assert(node@ == m.stack.last());
                            assert(tree.spec_nodes().contains_key(node@));
                        }
                        let attrs: Vec<(String, Option<String>)> = Vec::new();
                        proof {
                            assert(attrs@.map_values(
                                |p: (String, Option<String>)| crate::vdom::pair_view(p),
                            ) =~= Seq::<(Seq<char>, Option<Seq<char>>)>::empty());
                        }
                        let item = VItem::Element {
                            name: name.clone(),
                            attributes: attrs,
                            text: None,
                        };
                        proof {
                            assert(item@ == (VItemView::Element {
                                name: name@,
                                attributes: Seq::empty(),
                                text: None,
                            }));
                        }
                        tree.update_node(&node, crate::vdom::VPatch::SetItem(item));
                        proof {
                            assert(parse_model(&tree, parse_stack@).items =~= m.items.insert(
                                node@,
                                Some(
                                    VItemView::Element {
                                        name: name@,
                                        attributes: Seq::empty(),
                                        text: None,
                                    },
                                ),
                            ));
                            assert(parse_model(&tree, parse_stack@) == (ParseView {
                                items: m.items.insert(
                                    node@,
                                    Some(
                                        VItemView::Element {
                                            name: name@,
                                            attributes: Seq::empty(),
                                            text: None,
                                        },
                                    ),
                                ),
                                ..m
                            }));
                        }
                    }
                    i = i + 1;
                },
                RawToken::GreaterThan => {
                    i = i + 1;
                },
                t => {
                    return Err(ParseError::UnknownToken { token: t.duplicate() });
                },
            }
        }
    }
}

/// Law: the classifier itself never emits `EOF`, so all tokens the run from
/// `i` adds to an `EOF`-free prefix leave the result `EOF`-free.
proof fn lemma_lex_from_no_eof(acc: Seq<HtmlTokenView>, input: Seq<RawTokenView>, i: int)
    requires
        forall|j: int| 0 <= j < acc.len() ==> acc[j] != HtmlTokenView::EOF,
    ensures
        spec_lex_from(acc, input, i) matches Ok(ts) ==> forall|j: int|
            0 <= j < ts.len() ==> ts[j] != HtmlTokenView::EOF,
    decreases input.len() - i,
{
    if 0 <= i < input.len() {
        let prev = if acc.len() == 0 {
            None
        } else {
            Some(acc.last())
        };
        match spec_classify(prev, input[i]) {
            LexStep::Emit(ts) => {
                assert(forall|j: int|
                    0 <= j < (acc + ts).len() ==> (acc + ts)[j] != HtmlTokenView::EOF);
                lemma_lex_from_no_eof(acc + ts, input, i + 1);
            },
            LexStep::Fail(_) => {},
        }
    }
}

/// Law: a successful lex always terminates the stream with exactly one
/// `EOF`: it stands at the end and nowhere else.
pub proof fn lemma_lex_single_eof(input: Seq<RawTokenView>)
    ensures
        spec_lex(input) matches Ok(ts) ==> {
            &&& ts.len() >= 1
            &&& ts.last() == HtmlTokenView::EOF
            &&& forall|j: int| 0 <= j < ts.len() - 1 ==> ts[j] != HtmlTokenView::EOF
        },
{
    lemma_lex_from_no_eof(Seq::empty(), input, 0);
}

} // verus!
