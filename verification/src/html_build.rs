//! Loading a compiled element tree into the runtime store, and the whole
//! compile pipeline: primitive tokens through the lexer and the analyzer to
//! a populated tree, or exactly one diagnostic for the first error.

use vstd::prelude::*;
use crate::html::{lemma_elem_view_parts, AttributeView, ElementView, Html, HtmlElement};
use crate::html::elems_view;
use crate::html_analyse::{analyse_html, spec_analyse, spec_kind, AnalyseError, AnalyseErrorView};
use crate::html_analyse::ErrorKind;
use crate::html_parse::{parse_html, raw_views, spec_lex, LexError, LexErrorView, RawToken};
use crate::vdom::{pair_view, vref_of, VItem, VItemView, VPatch, VRef, VTree};

verus! {

/// The node content a parsed element carries: its name, its attributes in
/// declaration order, its optional text.
pub open spec fn item_of_elem(ev: ElementView) -> VItemView {
    VItemView::Element {
        name: ev.name,
        attributes: ev.attributes.map_values(|a: AttributeView| (a.name, a.value)),
        text: ev.text,
    }
}

/// Builds the node content for one element.
fn item_of(e: &HtmlElement) -> (r: VItem)
    ensures
        r@ == item_of_elem(e@),
{
    let mut pairs: Vec<(String, Option<String>)> = Vec::new();
    let mut i: usize = 0;
    proof {
        lemma_elem_view_parts(*e);
    }
    while i < e.attributes.len()
        invariant
            0 <= i <= e.attributes.len(),
            pairs@.len() == i,
            forall|j: int|
                0 <= j < i ==> pair_view(#[trigger] pairs@[j]) == (
                    e.attributes@[j]@.name,
                    e.attributes@[j]@.value,
                ),
        decreases e.attributes.len() - i,
    {
        let a = &e.attributes[i];
        let value = match &a.value {
            Some(v) => Some(v.clone()),
            None => None,
        };
        pairs.push((a.name.clone(), value));
        i += 1;
    }
    let text = match &e.text {
        Some(t) => Some(t.clone()),
        None => None,
    };
    let r = VItem::Element { name: e.name.clone(), attributes: pairs, text };
    proof {
        assert(pairs@.map_values(|p: (String, Option<String>)| pair_view(p)) =~= e@
            .attributes.map_values(|a: AttributeView| (a.name, a.value)));
    }
    r
}

/// How many elements an element subtree holds, itself included.
pub open spec fn elem_count(ev: ElementView) -> nat
    decreases ev,
{
    1 + elems_count(ev.children)
}

/// How many elements a forest holds.
pub open spec fn elems_count(s: Seq<ElementView>) -> nat
    decreases s,
{
    if s.len() == 0 {
        0
    } else {
        elems_count(s.drop_last()) + elem_count(s.last())
    }
}

/// Identities are dense: every identity in the table is below the table's
/// size, so the size itself is always a fresh identity.
pub open spec fn ids_bounded(t: VTree) -> bool {
    forall|k: u128| #[trigger] t.spec_nodes().contains_key(k) ==> (k as int) < t.spec_order().len()
}

/// The element `ev` is laid out in `t` under `id`, with every identity of
/// the subtree inside `[lo, hi)`: the node's content is the element's, and
/// its children list mirrors the element's children in order, recursively.
pub open spec fn represents_within(t: VTree, id: u128, ev: ElementView, lo: int, hi: int) -> bool
    decreases ev,
{
    &&& lo <= id as int
    &&& (id as int) < hi
    &&& t.spec_nodes().contains_key(id)
    &&& t.spec_nodes()[id]@.item == Some(item_of_elem(ev))
    &&& if ev.children.len() == 0 {
        !t.spec_children().contains_key(id)
    } else {
        &&& t.spec_children().contains_key(id)
        &&& t.spec_children()[id].len() == ev.children.len()
        &&& forall|i: int|
            0 <= i < ev.children.len() ==> represents_within(
                t,
                t.spec_children()[id][i],
                #[trigger] ev.children[i],
                lo,
                hi,
            )
    }
}

/// Widening the identity window keeps a subtree represented.
proof fn lemma_represents_widen(
    t: VTree,
    id: u128,
    ev: ElementView,
    lo: int,
    hi: int,
    lo2: int,
    hi2: int,
)
    requires
        represents_within(t, id, ev, lo, hi),
        lo2 <= lo,
        hi <= hi2,
    ensures
        represents_within(t, id, ev, lo2, hi2),
    decreases ev,
{
    if ev.children.len() > 0 {
        assert forall|i: int| 0 <= i < ev.children.len() implies represents_within(
            t,
            t.spec_children()[id][i],
            #[trigger] ev.children[i],
            lo2,
            hi2,
        ) by {
            lemma_represents_widen(t, t.spec_children()[id][i], ev.children[i], lo, hi, lo2, hi2);
        }
    }
}

/// The two trees hold the same node and children entries for every identity
/// inside the window.
spec fn agrees_on(t1: VTree, t2: VTree, lo: int, hi: int) -> bool {
    &&& forall|k: u128|
        lo <= k as int && (k as int) < hi ==> (#[trigger] t2.spec_nodes().contains_key(k))
            == t1.spec_nodes().contains_key(k) && (t1.spec_nodes().contains_key(k)
            ==> t2.spec_nodes()[k] == t1.spec_nodes()[k])
    &&& forall|k: u128|
        lo <= k as int && (k as int) < hi ==> (#[trigger] t2.spec_children().contains_key(k))
            == t1.spec_children().contains_key(k) && (t1.spec_children().contains_key(k)
            ==> t2.spec_children()[k] == t1.spec_children()[k])
}

/// A tree that agrees with another on every identity inside the window
/// keeps the subtrees represented there.
proof fn lemma_represents_frame(t1: VTree, t2: VTree, id: u128, ev: ElementView, lo: int, hi: int)
    requires
        represents_within(t1, id, ev, lo, hi),
        agrees_on(t1, t2, lo, hi),
    ensures
        represents_within(t2, id, ev, lo, hi),
    decreases ev,
{
    assert(t2.spec_nodes().contains_key(id) == t1.spec_nodes().contains_key(id));
    assert(t2.spec_nodes()[id] == t1.spec_nodes()[id]);
    assert(t2.spec_children().contains_key(id) == t1.spec_children().contains_key(id));
    if ev.children.len() > 0 {
        assert(t2.spec_children()[id] == t1.spec_children()[id]);
        assert forall|i: int| 0 <= i < ev.children.len() implies represents_within(
            t2,
            t2.spec_children()[id][i],
            #[trigger] ev.children[i],
            lo,
            hi,
        ) by {
            lemma_represents_frame(t1, t2, t1.spec_children()[id][i], ev.children[i], lo, hi);
        }
    }
}

/// The parent index entries agree for every identity inside the window.
spec fn parents_agree_on(t1: VTree, t2: VTree, lo: int, hi: int) -> bool {
    forall|k: u128|
        lo <= k as int && (k as int) < hi ==> (#[trigger] t2.spec_parents().contains_key(k))
            == t1.spec_parents().contains_key(k) && (t1.spec_parents().contains_key(k)
            ==> t2.spec_parents()[k] == t1.spec_parents()[k])
}

/// Agreement on a window covers every window inside it.
proof fn lemma_agrees_narrow(t1: VTree, t2: VTree, lo: int, hi: int, lo2: int, hi2: int)
    requires
        agrees_on(t1, t2, lo, hi),
        lo <= lo2,
        hi2 <= hi,
    ensures
        agrees_on(t1, t2, lo2, hi2),
{
}

/// Agreement composes across an intermediate tree.
proof fn lemma_agrees_trans(t1: VTree, t2: VTree, t3: VTree, lo: int, hi: int)
    requires
        agrees_on(t1, t2, lo, hi),
        agrees_on(t2, t3, lo, hi),
    ensures
        agrees_on(t1, t3, lo, hi),
{
}

/// Parent-index agreement on a window covers every window inside it.
proof fn lemma_parents_narrow(t1: VTree, t2: VTree, lo: int, hi: int, lo2: int, hi2: int)
    requires
        parents_agree_on(t1, t2, lo, hi),
        lo <= lo2,
        hi2 <= hi,
    ensures
        parents_agree_on(t1, t2, lo2, hi2),
{
}

/// Parent-index agreement composes across an intermediate tree.
proof fn lemma_parents_trans(t1: VTree, t2: VTree, t3: VTree, lo: int, hi: int)
    requires
        parents_agree_on(t1, t2, lo, hi),
        parents_agree_on(t2, t3, lo, hi),
    ensures
        parents_agree_on(t1, t3, lo, hi),
{
}

/// Loads one element and its whole subtree into the store under fresh dense
/// identities, starting at the table's current size; returns the subtree
/// root's identity. Everything already in the store is left untouched.
#[verifier::rlimit(60)]
fn load_elem(tree: &mut VTree, e: &HtmlElement) -> (r: VRef)
    requires
        old(tree).wf(),
        ids_bounded(*old(tree)),
    ensures
        final(tree).wf(),
        ids_bounded(*final(tree)),
        r@ as int == old(tree).spec_order().len(),
        final(tree).spec_order().len() == old(tree).spec_order().len() + elem_count(e@),
        agrees_on(*old(tree), *final(tree), 0, old(tree).spec_order().len() as int),
        parents_agree_on(*old(tree), *final(tree), 0, old(tree).spec_order().len() as int),
        represents_within(
            *final(tree),
            r@,
            e@,
            old(tree).spec_order().len() as int,
            final(tree).spec_order().len() as int,
        ),
        !final(tree).spec_parents().contains_key(r@),
        final(tree).spec_root() == old(tree).spec_root(),
    decreases *e,
{
    proof {
        lemma_elem_view_parts(*e);
    }
    let ghost base = old(tree).spec_order().len() as int;
    let id_index = tree.node_count();
    let id = vref_of(id_index as u128);
    proof {
        assert(!tree.spec_nodes().contains_key(id@));
    }
    tree.create_node(&id);
    tree.update_node(&id, VPatch::SetItem(item_of(e)));
    proof {
        // the fresh node sits above everything already present
        assert forall|k: u128| 0 <= k as int && (k as int) < base implies ((
        #[trigger] tree.spec_nodes().contains_key(k)) == old(tree).spec_nodes().contains_key(k)
            && (old(tree).spec_nodes().contains_key(k) ==> tree.spec_nodes()[k] == old(
            tree,
        ).spec_nodes()[k])) by {
            assert(k != id@);
        }
        assert(agrees_on(*old(tree), *tree, 0, base));
        assert(parents_agree_on(*old(tree), *tree, 0, base));
    }
    let ghost evc = elems_view(e.children@);
    let ghost mut cids: Seq<u128> = Seq::empty();
    let ghost mut bounds: Seq<int> = seq![base + 1];
    let mut i: usize = 0;
    proof {
        assert(elems_count(evc.take(0)) == 0) by {
            assert(evc.take(0).len() == 0);
        }
    }
    while i < e.children.len()
        invariant
            0 <= i <= e.children.len(),
            evc == elems_view(e.children@),
            evc.len() == e.children@.len(),
            tree.wf(),
            ids_bounded(*tree),
            id@ as int == base,
            base == old(tree).spec_order().len() as int,
            tree.spec_order().len() == base + 1 + elems_count(evc.take(i as int)),
            tree.spec_order().len() > base,
            tree.spec_nodes().contains_key(id@),
            tree.spec_nodes()[id@]@.item == Some(item_of_elem(e@)),
            !tree.spec_parents().contains_key(id@),
            tree.spec_root() == old(tree).spec_root(),
            agrees_on(*old(tree), *tree, 0, base),
            parents_agree_on(*old(tree), *tree, 0, base),
            cids.len() == i,
            bounds.len() == i + 1,
            bounds[0] == base + 1,
            forall|j: int, j2: int| 0 <= j < j2 < bounds.len() ==> bounds[j] < bounds[j2],
            bounds[i as int] == tree.spec_order().len() as int,
            i == 0 ==> !tree.spec_children().contains_key(id@),
            i > 0 ==> tree.spec_children().contains_key(id@) && tree.spec_children()[id@] == cids,
            forall|j: int|
                0 <= j < i ==> represents_within(
                    *tree,
                    cids[j],
                    #[trigger] evc[j],
                    bounds[j],
                    bounds[j + 1],
                ),
        decreases e.children.len() - i,
    {
        proof {
            assert(decreases_to!(*e => e.children));
        }
        let child = &e.children[i];
        let ghost pre = *tree;
        let cid = load_elem(tree, child);
        let ghost mid = *tree;
        proof {
            let pre_len = pre.spec_order().len() as int;
            assert(agrees_on(pre, mid, 0, pre_len));
            assert(parents_agree_on(pre, mid, 0, pre_len));
            // the node under construction sits below the call's window
            assert((id@ as int) < pre_len);
            assert(tree.spec_nodes().contains_key(id@) == pre.spec_nodes().contains_key(id@));
            assert(tree.spec_nodes().contains_key(id@) && tree.spec_nodes()[id@]
                == pre.spec_nodes()[id@]);
            assert(tree.spec_children().contains_key(id@) == pre.spec_children().contains_key(
                id@,
            ));
            assert(tree.spec_children().contains_key(id@) ==> tree.spec_children()[id@]
                == pre.spec_children()[id@]);
            assert(tree.spec_parents().contains_key(id@) == pre.spec_parents().contains_key(id@));
            assert(mid == *tree);
            // so do the earlier subtrees, whose windows lie below it too
            assert forall|j: int| 0 <= j < i implies represents_within(
                mid,
                cids[j],
                #[trigger] evc[j],
                bounds[j],
                bounds[j + 1],
            ) by {
                assert(j == 0 || bounds[0] < bounds[j]);
                assert(bounds[j + 1] <= bounds[i as int]);
                lemma_agrees_narrow(pre, mid, 0, pre_len, bounds[j], bounds[j + 1]);
                lemma_represents_frame(pre, mid, cids[j], evc[j], bounds[j], bounds[j + 1]);
            }
            // the caller's window survives too
            lemma_agrees_narrow(pre, mid, 0, pre_len, 0, base);
            lemma_agrees_trans(*old(tree), pre, mid, 0, base);
            lemma_parents_narrow(pre, mid, 0, pre_len, 0, base);
            lemma_parents_trans(*old(tree), pre, mid, 0, base);
        }
        tree.append_child(&id, &cid);
        proof {
            let pre_len = pre.spec_order().len() as int;
            let mid_len = mid.spec_order().len() as int;
            assert(elem_count(evc[i as int]) >= 1);
            assert(evc[i as int] == child@);
            assert(mid_len == pre_len + elem_count(evc[i as int]));
            // the child had no parent yet, so the append detaches nothing:
            // it only extends the children entry of the node under
            // construction and records that node as the child's parent
            assert(!mid.spec_parents().contains_key(cid@));
            assert(tree.spec_nodes() == mid.spec_nodes());
            assert(tree.spec_order() == mid.spec_order());
            assert forall|k: u128|
                k != id@ implies ((#[trigger] tree.spec_children().contains_key(k))
                == mid.spec_children().contains_key(k) && (mid.spec_children().contains_key(k)
                ==> tree.spec_children()[k] == mid.spec_children()[k])) by {}
            assert forall|k: u128|
                k != cid@ implies ((#[trigger] tree.spec_parents().contains_key(k))
                == mid.spec_parents().contains_key(k) && (mid.spec_parents().contains_key(k)
                ==> tree.spec_parents()[k] == mid.spec_parents()[k])) by {}
            assert(agrees_on(mid, *tree, base + 1, mid_len)) by {
                assert forall|k: u128|
                    base + 1 <= k as int && (k as int) < mid_len implies ((
                #[trigger] tree.spec_children().contains_key(k)) == mid.spec_children(
                ).contains_key(k) && (mid.spec_children().contains_key(k)
                    ==> tree.spec_children()[k] == mid.spec_children()[k])) by {
                    assert(k != id@);
                }
            }
            assert forall|j: int| 0 <= j < i implies represents_within(
                *tree,
                cids[j],
                #[trigger] evc[j],
                bounds[j],
                bounds[j + 1],
            ) by {
                assert(j == 0 || bounds[0] < bounds[j]);
                assert(bounds[j + 1] <= bounds[i as int]);
                lemma_agrees_narrow(mid, *tree, base + 1, mid_len, bounds[j], bounds[j + 1]);
                lemma_represents_frame(mid, *tree, cids[j], evc[j], bounds[j], bounds[j + 1]);
            }
            assert(represents_within(*tree, cid@, evc[i as int], bounds[i as int], mid_len)) by {
                assert(bounds[i as int] == pre_len);
                lemma_agrees_narrow(mid, *tree, base + 1, mid_len, pre_len, mid_len);
                lemma_represents_frame(mid, *tree, cid@, evc[i as int], pre_len, mid_len);
            }
            // the caller's window survives the append as well
            assert(agrees_on(mid, *tree, 0, base)) by {
                assert forall|k: u128|
                    0 <= k as int && (k as int) < base implies ((
                #[trigger] tree.spec_children().contains_key(k)) == mid.spec_children(
                ).contains_key(k) && (mid.spec_children().contains_key(k)
                    ==> tree.spec_children()[k] == mid.spec_children()[k])) by {
                    assert(k != id@);
                }
            }
            lemma_agrees_trans(*old(tree), mid, *tree, 0, base);
            assert(parents_agree_on(mid, *tree, 0, base)) by {
                assert forall|k: u128|
                    0 <= k as int && (k as int) < base implies ((
                #[trigger] tree.spec_parents().contains_key(k)) == mid.spec_parents(
                ).contains_key(k) && (mid.spec_parents().contains_key(k)
                    ==> tree.spec_parents()[k] == mid.spec_parents()[k])) by {
                    assert(k != cid@);
                }
            }
            lemma_parents_trans(*old(tree), mid, *tree, 0, base);
            assert(elems_count(evc.take(i as int + 1)) == elems_count(evc.take(i as int))
                + elem_count(evc[i as int])) by {
                assert(evc.take(i as int + 1).drop_last() =~= evc.take(i as int));
                assert(evc.take(i as int + 1).last() == evc[i as int]);
            }
            cids = cids.push(cid@);
            bounds = bounds.push(mid_len);
            assert forall|j: int, j2: int| 0 <= j < j2 < bounds.len() implies bounds[j]
                < bounds[j2] by {
                if j2 == bounds.len() - 1 {
                    assert(bounds[j] <= bounds[bounds.len() - 2]);
                }
            }
            assert(tree.spec_children()[id@] =~= cids);
            assert(tree.spec_nodes()[id@] == mid.spec_nodes()[id@]);
            assert(!tree.spec_parents().contains_key(id@)) by {
                assert(cid@ != id@);
            }
        }
        i += 1;
    }
    proof {
        assert(e@.children == evc);
        assert(evc.take(evc.len() as int) =~= evc);
        if evc.len() == 0 {
            assert(!tree.spec_children().contains_key(id@));
        } else {
            assert(tree.spec_children()[id@] == cids);
            assert forall|j: int| 0 <= j < evc.len() implies represents_within(
                *tree,
                tree.spec_children()[id@][j],
                #[trigger] e@.children[j],
                base,
                tree.spec_order().len() as int,
            ) by {
                assert(tree.spec_children()[id@][j] == cids[j]);
                assert(j == 0 || bounds[0] < bounds[j]);
                assert(bounds[j + 1] <= bounds[bounds.len() - 1]);
                lemma_represents_widen(
                    *tree,
                    cids[j],
                    evc[j],
                    bounds[j],
                    bounds[j + 1],
                    base,
                    tree.spec_order().len() as int,
                );
            }
        }
        assert(represents_within(*tree, id@, e@, base, tree.spec_order().len() as int));
        assert(elem_count(e@) == 1 + elems_count(evc));
    }
    id
}

/// Loads a compiled literal into a fresh store: the root element becomes
/// node `0`, its subtree follows under dense identities, and the root slot
/// points at it.
pub fn build_tree(html: &Html) -> (t: VTree)
    ensures
        t.wf(),
        ids_bounded(t),
        t.spec_root() == Some(0u128),
        !t.spec_parents().contains_key(0u128),
        t.spec_order().len() == elem_count(html@),
        represents_within(t, 0u128, html@, 0, t.spec_order().len() as int),
{
    let mut tree = VTree::new();
    let rid = load_elem(&mut tree, html.root());
    let ghost loaded = tree;
    tree.set_root(&rid);
    proof {
        assert(rid@ == 0u128);
        lemma_represents_frame(
            loaded,
            tree,
            0u128,
            html@,
            0,
            tree.spec_order().len() as int,
        );
    }
    tree
}

/// A compile failure: the stage it came from, and its diagnostic.
#[derive(PartialEq, Debug)]
pub enum CompileError {
    /// The lexer could not classify a primitive token.
    Lex(LexError),
    /// The analyzer rejected the token stream.
    Analyse(AnalyseError),
}

/// Model of a compile failure.
pub enum CompileErrorView {
    Lex(LexErrorView),
    Analyse(AnalyseErrorView),
}

impl View for CompileError {
    type V = CompileErrorView;

    open spec fn view(&self) -> CompileErrorView {
        match self {
            CompileError::Lex(e) => CompileErrorView::Lex(e@),
            CompileError::Analyse(e) => CompileErrorView::Analyse(e@),
        }
    }
}

/// The kind a compile failure belongs to.
pub open spec fn spec_compile_kind(e: CompileErrorView) -> ErrorKind {
    match e {
        CompileErrorView::Lex(_) => ErrorKind::LexError,
        CompileErrorView::Analyse(a) => spec_kind(a),
    }
}

impl CompileError {
    /// The kind of this failure.
    pub fn kind(&self) -> (r: ErrorKind)
        ensures
            r == spec_compile_kind(self@),
    {
        match self {
            CompileError::Lex(_) => ErrorKind::LexError,
            CompileError::Analyse(e) => e.kind(),
        }
    }
}

/// Compiles a markup literal's primitive tokens all the way to a populated
/// tree: lexing, analysis, and loading; the first failure of either stage
/// is the one diagnostic, and no partial tree is ever surfaced.
pub fn compile_html(input: &Vec<RawToken>) -> (r: Result<VTree, CompileError>)
    ensures
        match spec_lex(raw_views(input@)) {
            Err(e) => r matches Err(er) && er@ == CompileErrorView::Lex(e),
            Ok(ts) => match spec_analyse(ts) {
                Err(e) => r matches Err(er) && er@ == CompileErrorView::Analyse(e),
                Ok(ev) => r matches Ok(t) && {
                    &&& t.wf()
                    &&& ids_bounded(t)
                    &&& t.spec_root() == Some(0u128)
                    &&& !t.spec_parents().contains_key(0u128)
                    &&& t.spec_order().len() == elem_count(ev)
                    &&& represents_within(t, 0u128, ev, 0, t.spec_order().len() as int)
                },
            },
        },
{
    let stream = match parse_html(input) {
        Ok(s) => s,
        Err(e) => {
            return Err(CompileError::Lex(e));
        },
    };
    let html = match analyse_html(stream) {
        Ok(h) => h,
        Err(e) => {
            return Err(CompileError::Analyse(e));
        },
    };
    Ok(build_tree(&html))
}

} // verus!
