//! The tag analyzer: a finite-state machine that consumes the typed token
//! stream and builds the element tree, enforcing nesting and closing-tag
//! correctness. A single invalid token fails the whole compile unit.

use vstd::prelude::*;
use crate::html::{AttributeView, ElementView, Html, HtmlAttribute, HtmlElement};
use crate::html::{attrs_view, elems_view};
use crate::html_parse::{HtmlToken, HtmlTokenStream, HtmlTokenView};

verus! {

/// The result of one analysis: the compiled literal, or the first failure.
pub type AnalyseResult = Result<Html, AnalyseError>;

/// The error taxonomy of a compile: a token the lexer could not classify, a
/// classified token invalid in the analyzer's current state, or a violated
/// structural rule.
#[derive(PartialEq, Eq, Structural, Copy, Clone, Debug)]
pub enum ErrorKind {
    LexError,
    SyntaxError,
    StructuralError,
}

/// An analysis failure.
#[derive(PartialEq, Debug)]
pub enum AnalyseError {
    /// A structural rule was violated (an element stack popped empty, a
    /// missing result, text with nothing open).
    Failure { message: &'static str },
    /// A classified token that is not valid in the current state.
    UnexpectedToken { message: &'static str, token: HtmlToken },
    /// A closing tag whose name does not match the open element.
    MismatchedTag { expected: String, found: String },
    /// The token stream ran out without the terminating `EOF`.
    UnexpectedEnd,
}

/// Model of an analysis failure.
pub enum AnalyseErrorView {
    Failure { message: Seq<char> },
    UnexpectedToken { message: Seq<char>, token: HtmlTokenView },
    MismatchedTag { expected: Seq<char>, found: Seq<char> },
    UnexpectedEnd,
}

impl View for AnalyseError {
    type V = AnalyseErrorView;

    open spec fn view(&self) -> AnalyseErrorView {
        match self {
            AnalyseError::Failure { message } => AnalyseErrorView::Failure { message: message@ },
            AnalyseError::UnexpectedToken { message, token } => AnalyseErrorView::UnexpectedToken {
                message: message@,
                token: token@,
            },
            AnalyseError::MismatchedTag { expected, found } => AnalyseErrorView::MismatchedTag {
                expected: expected@,
                found: found@,
            },
            AnalyseError::UnexpectedEnd => AnalyseErrorView::UnexpectedEnd,
        }
    }
}

/// The kind an analysis failure belongs to: an invalid-in-state token is a
/// syntax error; everything else the analyzer reports is structural.
pub open spec fn spec_kind(e: AnalyseErrorView) -> ErrorKind {
    match e {
        AnalyseErrorView::UnexpectedToken { .. } => ErrorKind::SyntaxError,
        _ => ErrorKind::StructuralError,
    }
}

impl AnalyseError {
    /// The kind of this failure.
    pub fn kind(&self) -> (r: ErrorKind)
        ensures
            r == spec_kind(self@),
    {
        match self {
            AnalyseError::UnexpectedToken { .. } => ErrorKind::SyntaxError,
            _ => ErrorKind::StructuralError,
        }
    }
}

/// The analyzer's states.
#[derive(PartialEq, Eq, Structural, Copy, Clone, Debug)]
pub enum AnalyseState {
    /// Expecting the `<` that opens an element.
    Initial,
    /// Just saw `<`: expecting the element name, or `/` of a closing tag.
    ElementStart,
    /// Inside an open tag, name already consumed.
    ElementAttributes,
    /// At a tag boundary: closing sequence, nested child, or text run.
    ElementEnd,
    /// The root is complete; only `EOF` remains.
    End,
}

/// Model of the analyzer's threaded context: the stack of in-progress
/// elements (top last) and the pending attribute slot.
pub struct CtxView {
    pub stack: Seq<ElementView>,
    pub attribute: Option<AttributeView>,
}

/// What one transition does: move on with a new state and context, accept
/// with the finished root element, or reject with a failure.
pub enum StepResult {
    Next { state: AnalyseState, ctx: CtxView },
    Accept { html: ElementView },
    Reject { error: AnalyseErrorView },
}

/// The transition table: one cell per state and token. Every cell not listed
/// as valid rejects. Closing-tag names are checked against the open element;
/// a void element's synthesized nameless end token is exempt.
pub open spec fn spec_step(state: AnalyseState, ctx: CtxView, t: HtmlTokenView) -> StepResult {
    match state {
        AnalyseState::Initial => match t {
            HtmlTokenView::LessThan => StepResult::Next {
                state: AnalyseState::ElementStart,
                ctx,
            },
            HtmlTokenView::GreaterThan => reject_syntax("Unexpected >"@, t),
            HtmlTokenView::Slash => reject_syntax("Unexpected /"@, t),
            HtmlTokenView::Eq => reject_syntax("Unexpected ="@, t),
            HtmlTokenView::ElementStart { .. } => reject_syntax("Unexpected element start"@, t),
            HtmlTokenView::ElementEnd { .. } => reject_syntax("Unexpected end of element"@, t),
            HtmlTokenView::AttributeName { .. } => reject_syntax("Unexpected attribute name"@, t),
            HtmlTokenView::AttributeValue { .. } => reject_syntax("Unexpected attribute value"@, t),
            HtmlTokenView::Text { .. } => reject_syntax("Unexpected text"@, t),
            HtmlTokenView::EOF => reject_syntax("Got unexpected token in initial behavior!"@, t),
        },
        AnalyseState::ElementStart => match t {
            HtmlTokenView::ElementStart { ident } => StepResult::Next {
                state: AnalyseState::ElementAttributes,
                ctx: CtxView {
                    stack: ctx.stack.push(
                        ElementView {
                            name: ident,
                            attributes: Seq::empty(),
                            children: Seq::empty(),
                            text: None,
                        },
                    ),
                    ..ctx
                },
            },
            HtmlTokenView::Slash => StepResult::Next { state: AnalyseState::ElementEnd, ctx },
            HtmlTokenView::LessThan => reject_syntax("Unexpected <"@, t),
            HtmlTokenView::GreaterThan => reject_syntax("Unexpected >"@, t),
            HtmlTokenView::Eq => reject_syntax("Unexpected ="@, t),
            HtmlTokenView::ElementEnd { .. } => reject_syntax("Unexpected <"@, t),
            HtmlTokenView::AttributeName { .. } => reject_syntax("Unexpected attribute name"@, t),
            HtmlTokenView::AttributeValue { .. } => reject_syntax("Unexpected attribute value"@, t),
            HtmlTokenView::Text { .. } => reject_syntax("Unexpected text"@, t),
            HtmlTokenView::EOF => reject_syntax(
                "Got unexpected token while analysing the start of an element!"@,
                t,
            ),
        },
        AnalyseState::ElementAttributes => match t {
            HtmlTokenView::AttributeName { ident } => StepResult::Next {
                state: AnalyseState::ElementAttributes,
                ctx: CtxView {
                    attribute: Some(AttributeView { name: ident, value: None }),
                    ..ctx
                },
            },
            HtmlTokenView::AttributeValue { literal } => match ctx.attribute {
                None => reject_structural("No attribute"@),
                Some(attr) => {
                    if ctx.stack.len() == 0 {
                        reject_structural("No element"@)
                    } else {
                        let top = ctx.stack.last();
                        let attached = ElementView {
                            attributes: top.attributes.push(
                                AttributeView { name: attr.name, value: Some(literal) },
                            ),
                            ..top
                        };
                        StepResult::Next {
                            state: AnalyseState::ElementAttributes,
                            ctx: CtxView {
                                stack: ctx.stack.update(ctx.stack.len() - 1, attached),
                                attribute: None,
                            },
                        }
                    }
                },
            },
            HtmlTokenView::Eq => StepResult::Next {
                state: AnalyseState::ElementAttributes,
                ctx,
            },
            HtmlTokenView::GreaterThan => StepResult::Next {
                state: AnalyseState::ElementEnd,
                ctx,
            },
            HtmlTokenView::Slash => StepResult::Next { state: AnalyseState::ElementEnd, ctx },
            HtmlTokenView::LessThan => reject_syntax("Unexpected <"@, t),
            HtmlTokenView::ElementStart { .. } => reject_syntax("Unexpected element start"@, t),
            HtmlTokenView::ElementEnd { .. } => reject_syntax("Unexpected <"@, t),
            HtmlTokenView::Text { .. } => reject_syntax("Unexpected text"@, t),
            HtmlTokenView::EOF => reject_syntax(
                "Got unexpected token while analysing the attributes of an element!"@,
                t,
            ),
        },
        AnalyseState::ElementEnd => match t {
            HtmlTokenView::LessThan => StepResult::Next {
                state: AnalyseState::ElementStart,
                ctx,
            },
            HtmlTokenView::GreaterThan => {
                if ctx.stack.len() == 0 {
                    reject_structural("No element"@)
                } else {
                    let element = ctx.stack.last();
                    let rest = ctx.stack.drop_last();
                    if rest.len() > 0 {
                        let parent = rest.last();
                        let joined = ElementView {
                            children: parent.children.push(element),
                            ..parent
                        };
                        StepResult::Next {
                            state: AnalyseState::Initial,
                            ctx: CtxView {
                                stack: rest.update(rest.len() - 1, joined),
                                ..ctx
                            },
                        }
                    } else {
                        // the root: it stays on the stack until `EOF`
                        StepResult::Next { state: AnalyseState::End, ctx }
                    }
                }
            },
            HtmlTokenView::Slash => StepResult::Next { state: AnalyseState::ElementEnd, ctx },
            HtmlTokenView::ElementEnd { ident } => match ident {
                None => StepResult::Next { state: AnalyseState::ElementEnd, ctx },
                Some(name) => {
                    if ctx.stack.len() == 0 {
                        reject_structural("No element"@)
                    } else if ctx.stack.last().name != name {
                        StepResult::Reject {
                            error: AnalyseErrorView::MismatchedTag {
                                expected: ctx.stack.last().name,
                                found: name,
                            },
                        }
                    } else {
                        StepResult::Next { state: AnalyseState::ElementEnd, ctx }
                    }
                },
            },
            HtmlTokenView::Text { literal } => {
                if ctx.stack.len() == 0 {
                    reject_structural("Unexpected text"@)
                } else {
                    let top = ctx.stack.last();
                    let texted = ElementView { text: Some(literal), ..top };
                    StepResult::Next {
                        state: AnalyseState::ElementEnd,
                        ctx: CtxView {
                            stack: ctx.stack.update(ctx.stack.len() - 1, texted),
                            ..ctx
                        },
                    }
                }
            },
            HtmlTokenView::Eq => reject_syntax("Unexpected ="@, t),
            HtmlTokenView::ElementStart { .. } => reject_syntax("Unexpected element start"@, t),
            HtmlTokenView::AttributeName { .. } => reject_syntax("Unexpected attribute name"@, t),
            HtmlTokenView::AttributeValue { .. } => reject_syntax("Unexpected attribute value"@, t),
            HtmlTokenView::EOF => reject_syntax(
                "Got unexpected token while analysing the end of an element!"@,
                t,
            ),
        },
        AnalyseState::End => match t {
            HtmlTokenView::EOF => {
                if ctx.stack.len() == 0 {
                    reject_structural("No element left on stack!"@)
                } else {
                    StepResult::Accept { html: ctx.stack.last() }
                }
            },
            HtmlTokenView::LessThan => reject_syntax("Unexpected <"@, t),
            HtmlTokenView::GreaterThan => reject_syntax("Unexpected >"@, t),
            HtmlTokenView::Slash => reject_syntax("Unexpected /"@, t),
            HtmlTokenView::Eq => reject_syntax("Unexpected ="@, t),
            HtmlTokenView::ElementStart { .. } => reject_syntax("Unexpected element start"@, t),
            HtmlTokenView::ElementEnd { .. } => reject_syntax("Unexpected <"@, t),
            HtmlTokenView::AttributeName { .. } => reject_syntax("Unexpected attribute start"@, t),
            HtmlTokenView::AttributeValue { .. } => reject_syntax("Unexpected attribute value"@, t),
            HtmlTokenView::Text { .. } => reject_syntax("Unexpected text"@, t),
        },
    }
}

/// A rejection for a token invalid in the current state.
pub open spec fn reject_syntax(message: Seq<char>, t: HtmlTokenView) -> StepResult {
    StepResult::Reject { error: AnalyseErrorView::UnexpectedToken { message, token: t } }
}

/// A rejection for a violated structural rule.
pub open spec fn reject_structural(message: Seq<char>) -> StepResult {
    StepResult::Reject { error: AnalyseErrorView::Failure { message } }
}

/// Runs the machine over the tokens from position `i` on. Running off the
/// end without accepting or rejecting is itself a structural failure.
pub open spec fn spec_run(
    tokens: Seq<HtmlTokenView>,
    i: int,
    state: AnalyseState,
    ctx: CtxView,
) -> Result<ElementView, AnalyseErrorView>
    decreases tokens.len() - i,
{
    if i < 0 || i >= tokens.len() {
        Err(AnalyseErrorView::UnexpectedEnd)
    } else {
        match spec_step(state, ctx, tokens[i]) {
            StepResult::Next { state: s2, ctx: c2 } => spec_run(tokens, i + 1, s2, c2),
            StepResult::Accept { html } => Ok(html),
            StepResult::Reject { error } => Err(error),
        }
    }
}

/// The whole analysis: run the machine from the initial state with an empty
/// stack and no pending attribute.
pub open spec fn spec_analyse(tokens: Seq<HtmlTokenView>) -> Result<ElementView, AnalyseErrorView> {
    spec_run(
        tokens,
        0,
        AnalyseState::Initial,
        CtxView { stack: Seq::empty(), attribute: None },
    )
}

/// Law: a closing tag is checked against the open element, and a wrong name
/// is never closed silently: in the boundary state, a named end token whose
/// name differs from the element on top of the stack rejects the whole
/// analysis with the mismatch, a structural error.
pub proof fn lemma_mismatched_close_rejected(ctx: CtxView, name: Seq<char>)
    requires
        ctx.stack.len() > 0,
        ctx.stack.last().name != name,
    ensures
        spec_step(
            AnalyseState::ElementEnd,
            ctx,
            HtmlTokenView::ElementEnd { ident: Some(name) },
        ) == (StepResult::Reject {
            error: AnalyseErrorView::MismatchedTag { expected: ctx.stack.last().name, found: name },
        }),
        spec_kind(
            AnalyseErrorView::MismatchedTag { expected: ctx.stack.last().name, found: name },
        ) == ErrorKind::StructuralError,
{
}

/// Law: for any two distinct names `a` and `b`, the stream of
/// `<a></b>` analyses to the mismatched-tag failure naming both, never to a
/// tree.
pub proof fn lemma_mismatched_tags_fail(a: Seq<char>, b: Seq<char>)
    requires
        a != b,
    ensures
        ({
            let toks = seq![
                HtmlTokenView::LessThan,
                HtmlTokenView::ElementStart { ident: a },
                HtmlTokenView::GreaterThan,
                HtmlTokenView::LessThan,
                HtmlTokenView::Slash,
                HtmlTokenView::ElementEnd { ident: Some(b) },
                HtmlTokenView::GreaterThan,
                HtmlTokenView::EOF,
            ];
            spec_analyse(toks) == Err::<ElementView, AnalyseErrorView>(
                AnalyseErrorView::MismatchedTag { expected: a, found: b },
            )
        }),
{
    let toks = seq![
        HtmlTokenView::LessThan,
        HtmlTokenView::ElementStart { ident: a },
        HtmlTokenView::GreaterThan,
        HtmlTokenView::LessThan,
        HtmlTokenView::Slash,
        HtmlTokenView::ElementEnd { ident: Some(b) },
        HtmlTokenView::GreaterThan,
        HtmlTokenView::EOF,
    ];
    let c0 = CtxView { stack: Seq::empty(), attribute: None };
    let opened = ElementView {
        name: a,
        attributes: Seq::empty(),
        children: Seq::empty(),
        text: None,
    };
    let c1 = CtxView { stack: c0.stack.push(opened), attribute: None };
    assert(spec_run(toks, 0, AnalyseState::Initial, c0) == spec_run(
        toks,
        1,
        AnalyseState::ElementStart,
        c0,
    ));
    assert(spec_run(toks, 1, AnalyseState::ElementStart, c0) == spec_run(
        toks,
        2,
        AnalyseState::ElementAttributes,
        c1,
    ));
    assert(spec_run(toks, 2, AnalyseState::ElementAttributes, c1) == spec_run(
        toks,
        3,
        AnalyseState::ElementEnd,
        c1,
    ));
    assert(spec_run(toks, 3, AnalyseState::ElementEnd, c1) == spec_run(
        toks,
        4,
        AnalyseState::ElementStart,
        c1,
    ));
    assert(spec_run(toks, 4, AnalyseState::ElementStart, c1) == spec_run(
        toks,
        5,
        AnalyseState::ElementEnd,
        c1,
    ));
    assert(c1.stack.last().name == a);
    assert(spec_run(toks, 5, AnalyseState::ElementEnd, c1) == Err::<
        ElementView,
        AnalyseErrorView,
    >(AnalyseErrorView::MismatchedTag { expected: a, found: b }));
}

/// The analyzer's threaded context: the stack of in-progress elements, the
/// pending attribute slot, and the finished result once accepted.
struct AnalyseContext {
    stack: Vec<HtmlElement>,
    attribute: Option<HtmlAttribute>,
    html: Option<Html>,
}

/// The model of the threaded context (result slot aside).
spec fn ctx_view(c: AnalyseContext) -> CtxView {
    CtxView {
        stack: elems_view(c.stack@),
        attribute: match c.attribute {
            Some(a) => Some(a@),
            None => None,
        },
    }
}

/// The model of the context's result slot.
spec fn ctx_html(c: AnalyseContext) -> Option<ElementView> {
    match c.html {
        Some(h) => Some(h@),
        None => None,
    }
}

/// What the analyzer does next: keep going with a (possibly unchanged)
/// state, finish, or fail.
enum Behavior {
    Custom(AnalyseState),
    Same,
    Done,
    Failure(AnalyseError),
}

/// The state a `Custom` behavior runs.
spec fn behavior_state(b: Behavior) -> AnalyseState {
    match b {
        Behavior::Custom(s) => s,
        _ => arbitrary(),
    }
}

/// How a state handler's outcome must relate to the transition table: the
/// table's move is mirrored by the returned behavior and the new context.
spec fn step_post(
    cur: AnalyseState,
    pre: CtxView,
    post: CtxView,
    pre_html: Option<ElementView>,
    post_html: Option<ElementView>,
    t: HtmlTokenView,
    r: Behavior,
) -> bool {
    match spec_step(cur, pre, t) {
        StepResult::Next { state, ctx } => {
            &&& (r matches Behavior::Custom(s2) && s2 == state) || (r matches Behavior::Same
                && state == cur)
            &&& post == ctx
            &&& post_html == pre_html
        },
        StepResult::Accept { html } => {
            &&& r matches Behavior::Done
            &&& post_html == Some(html)
        },
        StepResult::Reject { error } => r matches Behavior::Failure(e) && e@ == error,
    }
}

impl Behavior {
    fn of(state: AnalyseState) -> (r: Behavior)
        ensures
            r == Behavior::Custom(state),
    {
        Behavior::Custom(state)
    }

    fn same() -> (r: Behavior)
        ensures
            r is Same,
    {
        Behavior::Same
    }

    fn done() -> (r: Behavior)
        ensures
            r is Done,
    {
        Behavior::Done
    }

    fn fail(message: &'static str) -> (r: Behavior)
        ensures
            r matches Behavior::Failure(e) && e@ == (AnalyseErrorView::Failure {
                message: message@,
            }),
    {
        Behavior::Failure(AnalyseError::Failure { message })
    }

    fn unexpected(message: &'static str, token: &HtmlToken) -> (r: Behavior)
        ensures
            r matches Behavior::Failure(e) && e@ == (AnalyseErrorView::UnexpectedToken {
                message: message@,
                token: token@,
            }),
    {
        Behavior::Failure(
            AnalyseError::UnexpectedToken { message, token: token.duplicate() },
        )
    }

    fn mismatched(expected: String, found: String) -> (r: Behavior)
        ensures
            r matches Behavior::Failure(e) && e@ == (AnalyseErrorView::MismatchedTag {
                expected: expected@,
                found: found@,
            }),
    {
        Behavior::Failure(AnalyseError::MismatchedTag { expected, found })
    }

    /// Dispatches the token to the current state's handler and folds the
    /// handler's `Same` back into the current state.
    fn handle(self, context: &mut AnalyseContext, token: &HtmlToken) -> (r: Behavior)
        requires
            self matches Behavior::Custom(_),
        ensures
            step_post(
                behavior_state(self),
                ctx_view(*old(context)),
                ctx_view(*final(context)),
                ctx_html(*old(context)),
                ctx_html(*final(context)),
                token@,
                r,
            ),
            !(r is Same),
    {
        match self {
            Behavior::Custom(state) => {
                let next_behavior = match state {
                    AnalyseState::Initial => initial(context, token),
                    AnalyseState::ElementStart => analyse_element_start(context, token),
                    AnalyseState::ElementAttributes => analyse_element_attributes(context, token),
                    AnalyseState::ElementEnd => analyse_element_end(context, token),
                    AnalyseState::End => analyse_end(context, token),
                };
                match next_behavior {
                    Behavior::Same => Behavior::Custom(state),
                    Behavior::Custom(s2) => Behavior::Custom(s2),
                    Behavior::Done => Behavior::Done,
                    Behavior::Failure(error) => Behavior::Failure(error),
                }
            },
            _ => {
                proof {
                    assert(false);
                }
                Behavior::Done
            },
        }
    }
}

/// `Initial`: only `<` is valid; it opens an element.
fn initial(context: &mut AnalyseContext, token: &HtmlToken) -> (r: Behavior)
    ensures
        *final(context) == *old(context),
        step_post(
            AnalyseState::Initial,
            ctx_view(*old(context)),
            ctx_view(*final(context)),
            ctx_html(*old(context)),
            ctx_html(*final(context)),
            token@,
            r,
        ),
{
    match token {
        HtmlToken::LessThan => Behavior::of(AnalyseState::ElementStart),
        HtmlToken::GreaterThan => Behavior::unexpected("Unexpected >", token),
        HtmlToken::Slash => Behavior::unexpected("Unexpected /", token),
        HtmlToken::Eq => Behavior::unexpected("Unexpected =", token),
        HtmlToken::ElementStart { .. } => Behavior::unexpected("Unexpected element start", token),
        HtmlToken::ElementEnd { .. } => Behavior::unexpected("Unexpected end of element", token),
        HtmlToken::AttributeName { .. } => Behavior::unexpected("Unexpected attribute name", token),
        HtmlToken::AttributeValue { .. } => Behavior::unexpected(
            "Unexpected attribute value",
            token,
        ),
        HtmlToken::Text { .. } => Behavior::unexpected("Unexpected text", token),
        HtmlToken::EOF => Behavior::unexpected("Got unexpected token in initial behavior!", token),
    }
}

/// `ElementStart`: an element name opens a fresh element on the stack; a
/// slash begins a closing tag.
fn analyse_element_start(context: &mut AnalyseContext, token: &HtmlToken) -> (r: Behavior)
    ensures
        step_post(
            AnalyseState::ElementStart,
            ctx_view(*old(context)),
            ctx_view(*final(context)),
            ctx_html(*old(context)),
            ctx_html(*final(context)),
            token@,
            r,
        ),
{
    match token {
        HtmlToken::ElementStart { ident } => {
            let element = HtmlElement::new(ident.clone(), Vec::new(), Vec::new(), None);
            context.stack.push(element);
            proof {
                assert(attrs_view(Seq::<HtmlAttribute>::empty()) =~= Seq::<
                    AttributeView,
                >::empty());
                assert(elems_view(Seq::<HtmlElement>::empty()) =~= Seq::<ElementView>::empty());
                assert(elems_view(context.stack@) =~= elems_view(old(context).stack@).push(
                    ElementView {
                        name: ident@,
                        attributes: Seq::empty(),
                        children: Seq::empty(),
                        text: None,
                    },
                ));
            }
            Behavior::of(AnalyseState::ElementAttributes)
        },
        HtmlToken::Slash => Behavior::of(AnalyseState::ElementEnd),
        HtmlToken::LessThan => Behavior::unexpected("Unexpected <", token),
        HtmlToken::GreaterThan => Behavior::unexpected("Unexpected >", token),
        HtmlToken::Eq => Behavior::unexpected("Unexpected =", token),
        HtmlToken::ElementEnd { .. } => Behavior::unexpected("Unexpected <", token),
        HtmlToken::AttributeName { .. } => Behavior::unexpected("Unexpected attribute name", token),
        HtmlToken::AttributeValue { .. } => Behavior::unexpected(
            "Unexpected attribute value",
            token,
        ),
        HtmlToken::Text { .. } => Behavior::unexpected("Unexpected text", token),
        HtmlToken::EOF => Behavior::unexpected(
            "Got unexpected token while analysing the start of an element!",
            token,
        ),
    }
}

/// `ElementAttributes`: attribute names stash a pending attribute, values
/// attach it to the open element; `>` or `/` moves to the boundary state.
fn analyse_element_attributes(context: &mut AnalyseContext, token: &HtmlToken) -> (r: Behavior)
    ensures
        step_post(
            AnalyseState::ElementAttributes,
            ctx_view(*old(context)),
            ctx_view(*final(context)),
            ctx_html(*old(context)),
            ctx_html(*final(context)),
            token@,
            r,
        ),
{
    match token {
        HtmlToken::AttributeName { ident } => {
            context.attribute = Some(HtmlAttribute::new(ident.clone(), None));
            Behavior::same()
        },
        HtmlToken::AttributeValue { literal } => {
            match (context.stack.len() > 0, context.attribute.take()) {
                (true, Some(mut attribute)) => {
                    attribute.value = Some(literal.clone());
                    if let Some(mut element) = context.stack.pop() {
                        element.add_attribute(attribute);
                        context.stack.push(element);
                        proof {
                            let pre = elems_view(old(context).stack@);
                            assert(elems_view(context.stack@) =~= pre.update(
                                pre.len() - 1,
                                elems_view(context.stack@).last(),
                            ));
                        }
                        Behavior::same()
                    } else {
                        proof {
                            assert(false);
                        }
                        Behavior::fail("No element")
                    }
                },
                (_, None) => Behavior::fail("No attribute"),
                (false, _) => Behavior::fail("No element"),
            }
        },
        HtmlToken::Eq => Behavior::same(),
        HtmlToken::GreaterThan => Behavior::of(AnalyseState::ElementEnd),
        HtmlToken::Slash => Behavior::of(AnalyseState::ElementEnd),
        HtmlToken::LessThan => Behavior::unexpected("Unexpected <", token),
        HtmlToken::ElementStart { .. } => Behavior::unexpected("Unexpected element start", token),
        HtmlToken::ElementEnd { .. } => Behavior::unexpected("Unexpected <", token),
        HtmlToken::Text { .. } => Behavior::unexpected("Unexpected text", token),
        HtmlToken::EOF => Behavior::unexpected(
            "Got unexpected token while analysing the attributes of an element!",
            token,
        ),
    }
}

/// `ElementEnd`: the boundary between tags. `>` pops the finished element
/// and attaches it to its parent (or keeps the root and waits for `EOF`);
/// a named closing token is checked against the open element; text becomes
/// the open element's inline text.
fn analyse_element_end(context: &mut AnalyseContext, token: &HtmlToken) -> (r: Behavior)
    ensures
        step_post(
            AnalyseState::ElementEnd,
            ctx_view(*old(context)),
            ctx_view(*final(context)),
            ctx_html(*old(context)),
            ctx_html(*final(context)),
            token@,
            r,
        ),
{
    match token {
        HtmlToken::LessThan => Behavior::of(AnalyseState::ElementStart),
        HtmlToken::GreaterThan => {
            match context.stack.pop() {
                None => Behavior::fail("No element"),
                Some(element) => {
                    if let Some(mut parent) = context.stack.pop() {
                        parent.add_child(element);
                        context.stack.push(parent);
                        proof {
                            let pre = elems_view(old(context).stack@);
                            let rest = pre.drop_last();
                            assert(elems_view(context.stack@) =~= rest.update(
                                rest.len() - 1,
                                elems_view(context.stack@).last(),
                            ));
                        }
                        Behavior::of(AnalyseState::Initial)
                    } else {
                        // no parent: this was the root; it stays on the stack
                        context.stack.push(element);
                        proof {
                            assert(elems_view(context.stack@) =~= elems_view(
                                old(context).stack@,
                            ));
                        }
                        Behavior::of(AnalyseState::End)
                    }
                },
            }
        },
        HtmlToken::Slash => Behavior::same(),
        HtmlToken::ElementEnd { ident } => match ident {
            None => Behavior::same(),
            Some(name) => {
                if context.stack.len() == 0 {
                    Behavior::fail("No element")
                } else {
                    let top = &context.stack[context.stack.len() - 1];
                    proof {
                        assert(top@ == elems_view(context.stack@).last());
                    }
                    if *top.get_name() == *name {
                        Behavior::same()
                    } else {
                        Behavior::mismatched(top.get_name().clone(), name.clone())
                    }
                }
            },
        },
        HtmlToken::Text { literal } => {
            match context.stack.pop() {
                None => Behavior::fail("Unexpected text"),
                Some(mut element) => {
                    element.set_text(Some(literal.clone()));
                    context.stack.push(element);
                    proof {
                        let pre = elems_view(old(context).stack@);
                        assert(elems_view(context.stack@) =~= pre.update(
                            pre.len() - 1,
                            elems_view(context.stack@).last(),
                        ));
                    }
                    Behavior::same()
                },
            }
        },
        HtmlToken::Eq => Behavior::unexpected("Unexpected =", token),
        HtmlToken::ElementStart { .. } => Behavior::unexpected("Unexpected element start", token),
        HtmlToken::AttributeName { .. } => Behavior::unexpected("Unexpected attribute name", token),
        HtmlToken::AttributeValue { .. } => Behavior::unexpected(
            "Unexpected attribute value",
            token,
        ),
        HtmlToken::EOF => Behavior::unexpected(
            "Got unexpected token while analysing the end of an element!",
            token,
        ),
    }
}

/// `End`: only `EOF` is valid; it takes the finished root off the stack.
fn analyse_end(context: &mut AnalyseContext, token: &HtmlToken) -> (r: Behavior)
    ensures
        step_post(
            AnalyseState::End,
            ctx_view(*old(context)),
            ctx_view(*final(context)),
            ctx_html(*old(context)),
            ctx_html(*final(context)),
            token@,
            r,
        ),
{
    match token {
        HtmlToken::EOF => {
            match context.stack.pop() {
                None => Behavior::fail("No element left on stack!"),
                Some(element) => {
                    proof {
                        assert(element@ == elems_view(old(context).stack@).last());
                    }
                    context.html = Some(Html::new(element));
                    Behavior::done()
                },
            }
        },
        HtmlToken::LessThan => Behavior::unexpected("Unexpected <", token),
        HtmlToken::GreaterThan => Behavior::unexpected("Unexpected >", token),
        HtmlToken::Slash => Behavior::unexpected("Unexpected /", token),
        HtmlToken::Eq => Behavior::unexpected("Unexpected =", token),
        HtmlToken::ElementStart { .. } => Behavior::unexpected("Unexpected element start", token),
        HtmlToken::ElementEnd { .. } => Behavior::unexpected("Unexpected <", token),
        HtmlToken::AttributeName { .. } => Behavior::unexpected(
            "Unexpected attribute start",
            token,
        ),
        HtmlToken::AttributeValue { .. } => Behavior::unexpected(
            "Unexpected attribute value",
            token,
        ),
        HtmlToken::Text { .. } => Behavior::unexpected("Unexpected text", token),
    }
}

/// Analyses a typed token stream into the compiled literal, or reports the
/// first failure; the transition table `spec_step` is followed exactly.
pub fn analyse_html(input: HtmlTokenStream) -> (r: AnalyseResult)
    ensures
        match spec_analyse(input@) {
            Ok(ev) => r matches Ok(h) && h@ == ev,
            Err(e) => r matches Err(er) && er@ == e,
        },
{
    let mut context = AnalyseContext { stack: Vec::new(), attribute: None, html: None };
    let mut behavior: Behavior = Behavior::of(AnalyseState::Initial);
    let mut position: usize = 0;
    let n = input.len();
    proof {
        assert(elems_view(context.stack@) =~= Seq::<ElementView>::empty());
    }
    loop
        invariant
            n == input@.len(),
            position <= input@.len(),
            behavior matches Behavior::Custom(_),
            context.html is None,
            spec_run(input@, position as int, behavior_state(behavior), ctx_view(context))
                == spec_analyse(input@),
        decreases input@.len() - position,
    {
        match input.get(position) {
            Some(token) => {
                let next_behavior = behavior.handle(&mut context, token);
                match next_behavior {
                    Behavior::Custom(s2) => {
                        behavior = Behavior::Custom(s2);
                    },
                    Behavior::Same => {
                        proof {
                            assert(false);
                        }
                        behavior = Behavior::Same;
                    },
                    Behavior::Done => {
                        match context.html.take() {
                            None => {
                                proof {
                                    assert(false);
                                }
                                return Err(AnalyseError::Failure { message: "No result" });
                            },
                            Some(html) => {
                                return Ok(html);
                            },
                        }
                    },
                    Behavior::Failure(error) => {
                        return Err(error);
                    },
                }
            },
            None => {
                return Err(AnalyseError::UnexpectedEnd);
            },
        }
        position += 1;
    }
}

} // verus!
