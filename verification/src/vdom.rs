//! The identity-keyed tree store: a node table with parent and children
//! indices, a root slot, and the mutation API that keeps the referential
//! invariants intact under arbitrary re-parenting.

use vstd::prelude::*;
use std::collections::HashMap;

verus! {

broadcast use vstd::std_specs::hash::group_hash_axioms;

/// Failure value for identity parsing and for tree-store linkage errors.
#[derive(Debug)]
pub struct Error;

/// An opaque unique identity token naming a node, independent of its content.
#[derive(PartialEq, Eq, Structural, Hash, Copy, Clone, Debug)]
pub struct VRef {
    id: u128,
}

/// Names the result of `uuid::Uuid::parse_str` on a character sequence:
/// `Some` of the 128-bit value exactly when the input is a valid textual UUID.
pub uninterp spec fn spec_uuid_of_str(s: Seq<char>) -> Option<u128>;

/// Names the textual form that `uuid::Uuid`'s `Display` gives a 128-bit value.
pub uninterp spec fn spec_uuid_str(id: u128) -> Seq<char>;

/// Relies on uuid::Uuid::new_v4: a freshly drawn random identifier. Nothing
/// can be promised of a random value, so this has no contract.
#[verifier::external_body]
fn uuid_new_v4() -> u128 {
    uuid::Uuid::new_v4().as_u128()
}

/// Relies on uuid::Uuid::parse_str, which accepts hexadecimal digit strings
/// with optional hyphens; the result is a function of the characters alone.
#[verifier::external_body]
fn uuid_parse(s: &str) -> (r: Option<u128>)
    ensures
        r == spec_uuid_of_str(s@),
{
    match uuid::Uuid::parse_str(s) {
        Ok(u) => Some(u.as_u128()),
        Err(_) => None,
    }
}

/// Relies on the Display impl of uuid::Uuid (lowercase hyphenated form),
/// a function of the 128-bit value alone.
#[verifier::external_body]
fn uuid_format(id: u128) -> (r: String)
    ensures
        r@ == spec_uuid_str(id),
{
    uuid::Uuid::from_u128(id).to_string()
}

impl View for VRef {
    type V = u128;

    closed spec fn view(&self) -> u128 {
        self.id
    }
}

/// Two identities are the same value exactly when their 128-bit views agree.
pub broadcast proof fn lemma_vref_view_injective(a: VRef, b: VRef)
    ensures
        (#[trigger] a@ == #[trigger] b@) <==> a == b,
{
}

impl VRef {
    /// A fresh random identity.
    pub fn random() -> VRef {
        VRef { id: uuid_new_v4() }
    }

    /// Parses a textual UUID into an identity; rejects anything
    /// `uuid::Uuid::parse_str` rejects.
    pub fn from_string(uuid: String) -> (r: Result<VRef, Error>)
        ensures
            match r {
                Ok(v) => spec_uuid_of_str(uuid@) == Some(v@),
                Err(_) => spec_uuid_of_str(uuid@) is None,
            },
    {
        match uuid_parse(uuid.as_str()) {
            Some(id) => Ok(VRef { id }),
            None => Err(Error),
        }
    }

    /// The hyphenated textual form of this identity.
    pub fn to_uuid_string(&self) -> (r: String)
        ensures
            r@ == spec_uuid_str(self@),
    {
        uuid_format(self.id)
    }
}

/// Builds the identity with a chosen 128-bit value; the compile pipeline uses
/// this to hand out dense tree-scoped identities.
pub(crate) fn vref_of(id: u128) -> (r: VRef)
    ensures
        r@ == id,
{
    VRef { id }
}

/// Mathematical model of a node's content.
pub enum VItemView {
    Element {
        name: Seq<char>,
        attributes: Seq<(Seq<char>, Option<Seq<char>>)>,
        text: Option<Seq<char>>,
    },
    Text { value: Seq<char> },
}

/// A node's content: either an element (name, ordered attributes, optional
/// text) or a plain text run.
#[derive(PartialEq, Debug, Clone)]
pub enum VItem {
    Element {
        name: String,
        attributes: Vec<(String, Option<String>)>,
        text: Option<String>,
    },
    Text { value: String },
}

/// The model of one attribute pair.
pub open spec fn pair_view(p: (String, Option<String>)) -> (Seq<char>, Option<Seq<char>>) {
    (
        p.0@,
        match p.1 {
            Some(v) => Some(v@),
            None => None,
        },
    )
}

impl View for VItem {
    type V = VItemView;

    open spec fn view(&self) -> VItemView {
        match self {
            VItem::Element { name, attributes, text } => VItemView::Element {
                name: name@,
                attributes: attributes@.map_values(|p: (String, Option<String>)| pair_view(p)),
                text: match text {
                    Some(t) => Some(t@),
                    None => None,
                },
            },
            VItem::Text { value } => VItemView::Text { value: value@ },
        }
    }
}

/// Mathematical model of a node record.
pub struct VNodeView {
    pub id: u128,
    pub parent: Option<u128>,
    pub children: Seq<u128>,
    pub item: Option<VItemView>,
}

/// A stored node: its identity and its (possibly still absent) content.
#[derive(PartialEq, Debug, Clone)]
pub struct VNode {
    pub id: VRef,
    pub parent: Option<VRef>,
    pub children: Vec<VRef>,
    pub item: Option<VItem>,
}

/// The identities carried by a sequence of refs.
pub open spec fn ref_ids(s: Seq<VRef>) -> Seq<u128> {
    s.map_values(|r: VRef| r@)
}

impl View for VNode {
    type V = VNodeView;

    open spec fn view(&self) -> VNodeView {
        VNodeView {
            id: self.id@,
            parent: match self.parent {
                Some(r) => Some(r@),
                None => None,
            },
            children: ref_ids(self.children@),
            item: match &self.item {
                Some(i) => Some(i@),
                None => None,
            },
        }
    }
}

impl VNode {
    /// A freshly created node: no links, no content yet.
    pub fn new(id: VRef) -> (r: VNode)
        ensures
            r@.id == id@,
            r@.parent is None,
            r@.children == Seq::<u128>::empty(),
            r@.item is None,
    {
        let r = VNode { id, parent: None, children: Vec::new(), item: None };
        proof {
            assert(r@.children =~= Seq::<u128>::empty());
        }
        r
    }
}

impl<'a> From<&'a VNode> for VRef {
    /// A node converts to its identity.
    fn from(node: &'a VNode) -> (r: VRef) {
        node.id
    }
}

impl<'a> vstd::std_specs::convert::FromSpecImpl<&'a VNode> for VRef {
    open spec fn obeys_from_spec() -> bool {
        true
    }

    open spec fn from_spec(node: &'a VNode) -> VRef {
        node.id
    }
}

/// A described mutation that the store applies to a node in place.
pub enum VPatch {
    /// Replace the node's content.
    SetItem(VItem),
}

/// The content a patch writes.
pub open spec fn patch_item(p: VPatch) -> VItem {
    match p {
        VPatch::SetItem(it) => it,
    }
}

/// The identity-keyed node graph: node table, parent index, children index,
/// root pointer. `order` records first insertion order so that snapshots can
/// walk the table; callers may not rely on that order.
#[derive(Debug)]
pub struct VTree {
    nodes: HashMap<u128, VNode>,
    parents: HashMap<u128, VRef>,
    children: HashMap<u128, Vec<VRef>>,
    root: Option<VRef>,
    order: Vec<VRef>,
}

impl VTree {
    /// The node table: identity to stored node record.
    pub closed spec fn spec_nodes(&self) -> Map<u128, VNode> {
        self.nodes@
    }

    /// The parent index: child identity to parent identity.
    pub closed spec fn spec_parents(&self) -> Map<u128, u128> {
        Map::new(|c: u128| self.parents@.contains_key(c), |c: u128| self.parents@[c]@)
    }

    /// The children index: parent identity to its ordered child identities.
    pub closed spec fn spec_children(&self) -> Map<u128, Seq<u128>> {
        Map::new(|p: u128| self.children@.contains_key(p), |p: u128| ref_ids(self.children@[p]@))
    }

    /// The root slot.
    pub closed spec fn spec_root(&self) -> Option<u128> {
        match self.root {
            Some(r) => Some(r@),
            None => None,
        }
    }

    /// Insertion order of the node table, backing `nodes()` snapshots.
    pub closed spec fn spec_order(&self) -> Seq<u128> {
        ref_ids(self.order@)
    }

    /// The referential invariants of the store. Every identity the indices
    /// mention exists in the node table; the parent and children indices are
    /// two views of the same relation (a child is listed under exactly its
    /// recorded parent, once); children lists are never left empty; the
    /// stored record under each identity carries that identity.
    pub open spec fn wf(&self) -> bool {
        &&& forall|id: u128| #[trigger] self.spec_nodes().contains_key(id)
            ==> self.spec_nodes()[id].id@ == id
        &&& forall|c: u128| #[trigger] self.spec_parents().contains_key(c) ==> {
            &&& self.spec_nodes().contains_key(c)
            &&& self.spec_nodes().contains_key(self.spec_parents()[c])
            &&& self.spec_children().contains_key(self.spec_parents()[c])
            &&& self.spec_children()[self.spec_parents()[c]].contains(c)
        }
        &&& forall|p: u128| #[trigger] self.spec_children().contains_key(p) ==> {
            &&& self.spec_nodes().contains_key(p)
            &&& self.spec_children()[p].len() > 0
            &&& forall|i: int| 0 <= i < self.spec_children()[p].len() ==> {
                &&& self.spec_nodes().contains_key(#[trigger] self.spec_children()[p][i])
                &&& self.spec_parents().contains_key(self.spec_children()[p][i])
                &&& self.spec_parents()[self.spec_children()[p][i]] == p
            }
            &&& forall|i: int, j: int|
                0 <= i < self.spec_children()[p].len() && 0 <= j
                    < self.spec_children()[p].len() && i != j ==> #[trigger] self.spec_children(
                )[p][i] != #[trigger] self.spec_children()[p][j]
        }
        &&& self.spec_order().no_duplicates()
        &&& forall|i: int| 0 <= i < self.spec_order().len()
            ==> self.spec_nodes().contains_key(#[trigger] self.spec_order()[i])
        &&& forall|id: u128| #[trigger] self.spec_nodes().contains_key(id)
            ==> self.spec_order().contains(id)
    }

    /// An empty store: no nodes, no links, no root.
    pub fn new() -> (r: VTree)
        ensures
            r.wf(),
            r.spec_nodes() == Map::<u128, VNode>::empty(),
            r.spec_parents() == Map::<u128, u128>::empty(),
            r.spec_children() == Map::<u128, Seq<u128>>::empty(),
            r.spec_root() is None,
            r.spec_order() == Seq::<u128>::empty(),
    {
        let r = VTree {
            nodes: HashMap::new(),
            parents: HashMap::new(),
            children: HashMap::new(),
            root: None,
            order: Vec::new(),
        };
        proof {
            assert(r.spec_parents() =~= Map::<u128, u128>::empty());
            assert(r.spec_children() =~= Map::<u128, Seq<u128>>::empty());
            assert(r.spec_order() =~= Seq::<u128>::empty());
        }
        r
    }

    /// Inserts an empty node record under the given identity. An identity
    /// already present has its record replaced by a fresh empty one; its
    /// links are untouched.
    pub fn create_node(&mut self, node_ref: &VRef) -> (r: VRef)
        requires
            old(self).wf(),
        ensures
            r == *node_ref,
            final(self).wf(),
            final(self).spec_nodes().dom() == old(self).spec_nodes().dom().insert(node_ref@),
            final(self).spec_nodes()[node_ref@]@ == (VNodeView {
                id: node_ref@,
                parent: None,
                children: Seq::<u128>::empty(),
                item: None,
            }),
            forall|k: u128|
                k != node_ref@ && old(self).spec_nodes().contains_key(k)
                    ==> final(self).spec_nodes()[k] == old(self).spec_nodes()[k],
            final(self).spec_parents() == old(self).spec_parents(),
            final(self).spec_children() == old(self).spec_children(),
            final(self).spec_root() == old(self).spec_root(),
            final(self).spec_order() == (if old(self).spec_nodes().contains_key(node_ref@) {
                old(self).spec_order()
            } else {
                old(self).spec_order().push(node_ref@)
            }),
    {
        let node = VNode::new(*node_ref);
        let prev = self.nodes.insert(node_ref.id, node);
        if prev.is_none() {
            self.order.push(*node_ref);
            proof {
                assert(self.spec_order() =~= old(self).spec_order().push(node_ref@));
                assert forall|i: int| 0 <= i < self.spec_order().len() implies self
                    .spec_nodes()
                    .contains_key(self.spec_order()[i]) by {
                    if i < old(self).spec_order().len() {
                        assert(old(self).spec_nodes().contains_key(old(self).spec_order()[i]));
                    }
                }
                assert forall|id: u128| self.spec_nodes().contains_key(id) implies self
                    .spec_order()
                    .contains(id) by {
                    if id == node_ref@ {
                        assert(self.spec_order()[self.spec_order().len() - 1] == id);
                    } else {
                        let i = choose|i: int|
                            0 <= i < old(self).spec_order().len() && old(self).spec_order()[i]
                                == id;
                        assert(self.spec_order()[i] == id);
                    }
                }
                assert(!old(self).spec_order().contains(node_ref@));
                assert forall|i: int, j: int|
                    0 <= i < self.spec_order().len() && 0 <= j < self.spec_order().len() && i
                        != j implies self.spec_order()[i] != self.spec_order()[j] by {
                    let n = old(self).spec_order().len() as int;
                    if i < n && j < n {
                        assert(old(self).spec_order()[i] != old(self).spec_order()[j]);
                    } else if i == n {
                        assert(old(self).spec_order()[j] != node_ref@);
                    } else {
                        assert(old(self).spec_order()[i] != node_ref@);
                    }
                }
            }
        }
        proof {
            assert(final(self).spec_parents() =~= old(self).spec_parents());
            assert(final(self).spec_children() =~= old(self).spec_children());
            assert(final(self).spec_nodes().dom() =~= old(self).spec_nodes().dom().insert(
                node_ref@,
            ));
            if prev is Some {
                assert(final(self).spec_order() =~= old(self).spec_order());
            }
            assert(final(self).spec_nodes()[node_ref@]@.children =~= Seq::<u128>::empty());
        }
        *node_ref
    }

    /// Creates a node under a freshly drawn random identity and returns it.
    /// The identity is random: if it happened to exist already, that record
    /// was replaced, exactly as `create_node` describes.
    pub fn create_random_node(&mut self) -> (r: VRef)
        requires
            old(self).wf(),
        ensures
            final(self).wf(),
            final(self).spec_nodes().dom() == old(self).spec_nodes().dom().insert(r@),
            final(self).spec_nodes()[r@]@ == (VNodeView {
                id: r@,
                parent: None,
                children: Seq::<u128>::empty(),
                item: None,
            }),
            forall|k: u128|
                k != r@ && old(self).spec_nodes().contains_key(k) ==> final(self).spec_nodes()[k]
                    == old(self).spec_nodes()[k],
            final(self).spec_parents() == old(self).spec_parents(),
            final(self).spec_children() == old(self).spec_children(),
            final(self).spec_root() == old(self).spec_root(),
    {
        let node_ref = VRef::random();
        self.create_node(&node_ref)
    }

    /// Sets the root slot; the identity is not validated against the table.
    pub fn set_root(&mut self, node: &VRef)
        ensures
            final(self).spec_root() == Some(node@),
            final(self).spec_nodes() == old(self).spec_nodes(),
            final(self).spec_parents() == old(self).spec_parents(),
            final(self).spec_children() == old(self).spec_children(),
            final(self).spec_order() == old(self).spec_order(),
            old(self).wf() ==> final(self).wf(),
    {
        self.root = Some(*node);
        proof {
            assert(final(self).spec_parents() =~= old(self).spec_parents());
            assert(final(self).spec_children() =~= old(self).spec_children());
        }
    }

    /// The root identity, if one has been set.
    pub fn get_root(&self) -> (r: Option<VRef>)
        ensures
            match r {
                Some(v) => self.spec_root() == Some(v@),
                None => self.spec_root() is None,
            },
    {
        self.root
    }

    /// Whether a root has been set.
    pub fn has_root(&self) -> (r: bool)
        ensures
            r == (self.spec_root() is Some),
    {
        self.root.is_some()
    }
}

/// The children index after the one occurrence of `c` leaves `p`'s list;
/// an emptied list leaves the index entirely, never lingering empty.
pub open spec fn children_detach(m: Map<u128, Seq<u128>>, p: u128, c: u128) -> Map<
    u128,
    Seq<u128>,
> {
    if m.contains_key(p) {
        let l = m[p].remove_value(c);
        if l.len() == 0 {
            m.remove(p)
        } else {
            m.insert(p, l)
        }
    } else {
        m
    }
}

/// The children index after `c` is appended at the end of `p`'s list.
pub open spec fn children_append(m: Map<u128, Seq<u128>>, p: u128, c: u128) -> Map<
    u128,
    Seq<u128>,
> {
    let base = if m.contains_key(p) {
        m[p]
    } else {
        Seq::<u128>::empty()
    };
    m.insert(p, base.push(c))
}

/// How `remove_value` behaves on a duplicate-free sequence: the value is gone
/// entirely, everything else survives, and no duplicate appears.
proof fn lemma_remove_value_nodup(l: Seq<u128>, c: u128)
    requires
        l.no_duplicates(),
    ensures
        l.remove_value(c).no_duplicates(),
        !l.remove_value(c).contains(c),
        forall|x: u128| x != c ==> (l.remove_value(c).contains(x) <==> l.contains(x)),
        forall|x: u128| l.remove_value(c).contains(x) ==> l.contains(x),
        l.contains(c) ==> l.remove_value(c).len() == l.len() - 1,
        !l.contains(c) ==> l.remove_value(c) == l,
{
    l.index_of_first_ensures(c);
    if l.contains(c) {
        let i = l.index_of_first(c).unwrap();
        let r = l.remove(i);
        l.remove_ensures(i);
        assert forall|x: u128| r.contains(x) implies l.contains(x) by {
            let k = choose|k: int| 0 <= k < r.len() && r[k] == x;
            if k < i {
                assert(l[k] == x);
            } else {
                assert(l[k + 1] == x);
            }
        }
        assert forall|x: u128| x != c && l.contains(x) implies r.contains(x) by {
            let k = choose|k: int| 0 <= k < l.len() && l[k] == x;
            if k < i {
                assert(r[k] == x);
            } else {
                assert(k != i);
                assert(r[k - 1] == x);
            }
        }
        assert(!r.contains(c)) by {
            if r.contains(c) {
                let k = choose|k: int| 0 <= k < r.len() && r[k] == c;
                if k < i {
                    assert(l[k] == c && l[i] == c && k != i);
                } else {
                    assert(l[k + 1] == c && l[i] == c && k + 1 != i);
                }
            }
        }
        assert forall|a: int, b: int| 0 <= a < r.len() && 0 <= b < r.len() && a != b implies r[a]
            != r[b] by {
            let a2 = if a < i {
                a
            } else {
                a + 1
            };
            let b2 = if b < i {
                b
            } else {
                b + 1
            };
            assert(r[a] == l[a2] && r[b] == l[b2] && a2 != b2);
        }
    }
}

impl VTree {
    /// Copies `l` without its first occurrence of `c`.
    fn list_without(l: &Vec<VRef>, c: &VRef) -> (r: Vec<VRef>)
        ensures
            ref_ids(r@) == ref_ids(l@).remove_value(c@),
    {
        let ghost lv = ref_ids(l@);
        let mut out: Vec<VRef> = Vec::new();
        let mut found = false;
        let ghost mut fi: int = 0;
        let mut i: usize = 0;
        while i < l.len()
            invariant
                0 <= i <= l.len(),
                lv == ref_ids(l@),
                lv.len() == l@.len(),
                forall|j: int| 0 <= j < l@.len() ==> lv[j] == l@[j]@,
                !found ==> ref_ids(out@) =~= lv.take(i as int),
                !found ==> forall|j: int| 0 <= j < i ==> lv[j] != c@,
                found ==> 0 <= fi < i,
                found ==> lv[fi] == c@,
                found ==> forall|j: int| 0 <= j < fi ==> lv[j] != c@,
                found ==> ref_ids(out@) =~= lv.take(fi) + lv.subrange(fi + 1, i as int),
            decreases l.len() - i,
        {
            let x = l[i];
            if !found && x.id == c.id {
                found = true;
                proof {
                    fi = i as int;
                }
            } else {
                out.push(x);
                proof {
                    assert(ref_ids(out@) =~= ref_ids(out@.drop_last()).push(x@));
                    assert(x@ == lv[i as int]);
                    if found {
                        assert(lv.take(fi) + lv.subrange(fi + 1, i as int + 1) =~= (lv.take(fi)
                            + lv.subrange(fi + 1, i as int)).push(lv[i as int]));
                    } else {
                        assert(lv.take(i as int + 1) =~= lv.take(i as int).push(lv[i as int]));
                    }
                }
            }
            i += 1;
        }
        proof {
            lv.index_of_first_ensures(c@);
            if found {
                match lv.index_of_first(c@) {
                    Some(idx) => {
                        assert(lv.contains(c@));
                        assert(idx == fi) by {
                            if idx < fi {
                                assert(lv[idx] == c@);
                            } else if idx > fi {
                                assert(lv[fi] == c@);
                            }
                        }
                        assert(ref_ids(out@) =~= lv.remove(fi));
                    },
                    None => {
                        assert(lv[fi] == c@);
                    },
                }
            } else {
                assert(!lv.contains(c@));
                assert(ref_ids(out@) =~= lv);
            }
        }
        out
    }

    /// Copies `l` with `c` appended at the end.
    fn list_plus(l: &Vec<VRef>, c: &VRef) -> (r: Vec<VRef>)
        ensures
            ref_ids(r@) == ref_ids(l@).push(c@),
    {
        let mut out: Vec<VRef> = Vec::new();
        let mut i: usize = 0;
        while i < l.len()
            invariant
                0 <= i <= l.len(),
                out@ =~= l@.take(i as int),
            decreases l.len() - i,
        {
            out.push(l[i]);
            i += 1;
        }
        out.push(*c);
        proof {
            assert(out@.drop_last() =~= l@);
            assert(ref_ids(out@) =~= ref_ids(l@).push(c@));
        }
        out
    }

    /// Moves `child` under `parent`, appending it at the end of `parent`'s
    /// children; a child that already had a parent atomically leaves the old
    /// parent's list first. Both identities must exist in the table.
    pub fn append_child(&mut self, parent: &VRef, child: &VRef)
        requires
            old(self).wf(),
            old(self).spec_nodes().contains_key(parent@),
            old(self).spec_nodes().contains_key(child@),
        ensures
            final(self).wf(),
            final(self).spec_parents() == old(self).spec_parents().insert(child@, parent@),
            final(self).spec_children() == ({
                let detached = if old(self).spec_parents().contains_key(child@) {
                    children_detach(
                        old(self).spec_children(),
                        old(self).spec_parents()[child@],
                        child@,
                    )
                } else {
                    old(self).spec_children()
                };
                children_append(detached, parent@, child@)
            }),
            final(self).spec_nodes() == old(self).spec_nodes(),
            final(self).spec_root() == old(self).spec_root(),
            final(self).spec_order() == old(self).spec_order(),
    {
        let prev = self.parents.remove(&child.id);
        if let Some(previous_parent) = prev {
            proof {
                assert(old(self).spec_parents().contains_key(child@));
                assert(old(self).spec_parents()[child@] == previous_parent@);
                assert(old(self).spec_children().contains_key(previous_parent@));
            }
            let nl = match self.children.get(&previous_parent.id) {
                Some(l) => Self::list_without(l, child),
                None => {
                    proof {
                        assert(false);
                    }
                    Vec::new()
                },
            };
            proof {
                let l0 = old(self).spec_children()[previous_parent@];
                assert(l0.no_duplicates()) by {
                    assert forall|i: int, j: int|
                        0 <= i < l0.len() && 0 <= j < l0.len() && i != j implies l0[i] != l0[j] by {
                        assert(old(self).spec_children()[previous_parent@][i] != old(
                            self,
                        ).spec_children()[previous_parent@][j]);
                    }
                }
                lemma_remove_value_nodup(l0, child@);
            }
            if nl.len() == 0 {
                self.children.remove(&previous_parent.id);
            } else {
                self.children.insert(previous_parent.id, nl);
            }
            proof {
                assert(self.spec_children() =~= children_detach(
                    old(self).spec_children(),
                    previous_parent@,
                    child@,
                ));
            }
        }
        let ghost mid_children = self.spec_children();
        self.parents.insert(child.id, *parent);
        proof {
            assert(self.spec_children() =~= mid_children);
            assert(self.spec_parents() =~= old(self).spec_parents().insert(child@, parent@));
        }
        let nl2 = match self.children.get(&parent.id) {
            Some(l) => Self::list_plus(l, child),
            None => {
                let mut v: Vec<VRef> = Vec::new();
                v.push(*child);
                proof {
                    assert(ref_ids(v@) =~= Seq::<u128>::empty().push(child@));
                }
                v
            },
        };
        self.children.insert(parent.id, nl2);
        proof {
            assert(self.spec_children() =~= children_append(mid_children, parent@, child@));
            assert(self.spec_nodes() =~= old(self).spec_nodes());
            self.lemma_append_wf(*old(self), *parent, *child, mid_children);
        }
    }

    /// Removes the parent/child linkage between the two identities. The
    /// linkage must exist exactly as given; anything else is reported as a
    /// corrupt mapping and leaves the store untouched.
    pub fn remove_child(&mut self, parent: &VRef, child: &VRef) -> (r: Result<(), Error>)
        requires
            old(self).wf(),
        ensures
            final(self).wf(),
            r is Ok <==> (old(self).spec_parents().contains_key(child@) && old(
                self,
            ).spec_parents()[child@] == parent@),
            r is Ok ==> {
                &&& final(self).spec_parents() == old(self).spec_parents().remove(child@)
                &&& final(self).spec_children() == children_detach(
                    old(self).spec_children(),
                    parent@,
                    child@,
                )
            },
            r is Err ==> *final(self) == *old(self),
            final(self).spec_nodes() == old(self).spec_nodes(),
            final(self).spec_root() == old(self).spec_root(),
            final(self).spec_order() == old(self).spec_order(),
    {
        let linked = match self.parents.get(&child.id) {
            Some(p0) => p0.id == parent.id,
            None => false,
        };
        if !linked {
            return Err(Error);
        }
        proof {
            assert(old(self).spec_parents().contains_key(child@));
            assert(old(self).spec_parents()[child@] == parent@);
            assert(old(self).spec_children().contains_key(parent@));
            assert(old(self).spec_children()[parent@].contains(child@));
        }
        self.parents.remove(&child.id);
        let nl = match self.children.get(&parent.id) {
            Some(l) => Self::list_without(l, child),
            None => {
                proof {
                    assert(false);
                }
                Vec::new()
            },
        };
        proof {
            let l0 = old(self).spec_children()[parent@];
            assert(l0.no_duplicates()) by {
                assert forall|i: int, j: int|
                    0 <= i < l0.len() && 0 <= j < l0.len() && i != j implies l0[i] != l0[j] by {
                    assert(old(self).spec_children()[parent@][i] != old(self).spec_children(
                    )[parent@][j]);
                }
            }
            lemma_remove_value_nodup(l0, child@);
        }
        if nl.len() == 0 {
            self.children.remove(&parent.id);
        } else {
            self.children.insert(parent.id, nl);
        }
        proof {
            assert(self.spec_parents() =~= old(self).spec_parents().remove(child@));
            assert(self.spec_children() =~= children_detach(
                old(self).spec_children(),
                parent@,
                child@,
            ));
            assert(self.spec_nodes() =~= old(self).spec_nodes());
            self.lemma_detach_wf(*old(self), parent@, child@);
        }
        Ok(())
    }

    /// Re-establishes `wf` after `remove_child` detaches a linkage.
    proof fn lemma_detach_wf(&self, pre: VTree, parent: u128, child: u128)
        requires
            pre.wf(),
            pre.spec_parents().contains_key(child),
            pre.spec_parents()[child] == parent,
            self.spec_parents() == pre.spec_parents().remove(child),
            self.spec_children() == children_detach(pre.spec_children(), parent, child),
            self.spec_nodes() == pre.spec_nodes(),
            self.spec_order() == pre.spec_order(),
        ensures
            self.wf(),
    {
        let l0 = pre.spec_children()[parent];
        assert(pre.spec_children().contains_key(parent));
        assert(l0.no_duplicates()) by {
            assert forall|i: int, j: int|
                0 <= i < l0.len() && 0 <= j < l0.len() && i != j implies l0[i] != l0[j] by {
                assert(pre.spec_children()[parent][i] != pre.spec_children()[parent][j]);
            }
        }
        lemma_remove_value_nodup(l0, child);
        assert forall|c: u128| #[trigger] self.spec_parents().contains_key(c) implies {
            &&& self.spec_nodes().contains_key(c)
            &&& self.spec_nodes().contains_key(self.spec_parents()[c])
            &&& self.spec_children().contains_key(self.spec_parents()[c])
            &&& self.spec_children()[self.spec_parents()[c]].contains(c)
        } by {
            let p = pre.spec_parents()[c];
            assert(c != child);
            assert(pre.spec_children()[p].contains(c));
            if p == parent {
                let lr = l0.remove_value(child);
                assert(lr.contains(c));
                assert(lr.len() > 0);
                assert(self.spec_children().contains_key(parent) && self.spec_children()[parent]
                    == lr);
            } else {
                assert(self.spec_children().contains_key(p) && self.spec_children()[p]
                    == pre.spec_children()[p]);
            }
        }
        assert forall|p: u128| #[trigger] self.spec_children().contains_key(p) implies {
            &&& self.spec_nodes().contains_key(p)
            &&& self.spec_children()[p].len() > 0
            &&& forall|i: int| 0 <= i < self.spec_children()[p].len() ==> {
                &&& self.spec_nodes().contains_key(#[trigger] self.spec_children()[p][i])
                &&& self.spec_parents().contains_key(self.spec_children()[p][i])
                &&& self.spec_parents()[self.spec_children()[p][i]] == p
            }
            &&& forall|i: int, j: int|
                0 <= i < self.spec_children()[p].len() && 0 <= j < self.spec_children()[p].len()
                    && i != j ==> #[trigger] self.spec_children()[p][i]
                    != #[trigger] self.spec_children()[p][j]
        } by {
            let l = self.spec_children()[p];
            if p == parent {
                let lr = l0.remove_value(child);
                assert(l == lr);
                assert forall|i: int| 0 <= i < l.len() implies {
                    &&& self.spec_nodes().contains_key(#[trigger] l[i])
                    &&& self.spec_parents().contains_key(l[i])
                    &&& self.spec_parents()[l[i]] == p
                } by {
                    assert(lr.contains(l[i]));
                    assert(l0.contains(l[i]));
                    assert(pre.spec_parents()[l[i]] == parent);
                    assert(l[i] != child);
                }
            } else {
                assert(pre.spec_children().contains_key(p) && pre.spec_children()[p] == l);
                assert forall|i: int| 0 <= i < l.len() implies {
                    &&& self.spec_nodes().contains_key(#[trigger] l[i])
                    &&& self.spec_parents().contains_key(l[i])
                    &&& self.spec_parents()[l[i]] == p
                } by {
                    assert(pre.spec_children()[p][i] == l[i]);
                    assert(pre.spec_children()[p].contains(l[i]));
                    assert(pre.spec_parents()[l[i]] == p);
                    assert(l[i] != child) by {
                        if l[i] == child {
                            assert(pre.spec_parents()[child] == p);
                        }
                    }
                }
            }
        }
    }

    /// Copies a list of identities.
    fn copy_list(l: &Vec<VRef>) -> (r: Vec<VRef>)
        ensures
            r@ == l@,
    {
        let mut out: Vec<VRef> = Vec::new();
        let mut i: usize = 0;
        while i < l.len()
            invariant
                0 <= i <= l.len(),
                out@ =~= l@.take(i as int),
            decreases l.len() - i,
        {
            out.push(l[i]);
            i += 1;
        }
        proof {
            assert(out@ =~= l@);
        }
        out
    }

    /// Copies an optional string, preserving its characters.
    fn copy_opt_string(s: &Option<String>) -> (r: Option<String>)
        ensures
            match s {
                Some(v) => r matches Some(w) && v == w,
                None => r is None,
            },
    {
        match s {
            Some(v) => Some(v.clone()),
            None => None,
        }
    }

    /// Copies a node's content, preserving its model exactly.
    fn copy_item(it: &VItem) -> (r: VItem)
        ensures
            r@ == it@,
    {
        match it {
            VItem::Element { name, attributes, text } => {
                let mut pairs: Vec<(String, Option<String>)> = Vec::new();
                let mut i: usize = 0;
                while i < attributes.len()
                    invariant
                        0 <= i <= attributes.len(),
                        pairs@.len() == i,
                        forall|j: int| 0 <= j < i ==> pairs@[j] == attributes@[j],
                    decreases attributes.len() - i,
                {
                    let p = &attributes[i];
                    pairs.push((p.0.clone(), Self::copy_opt_string(&p.1)));
                    i += 1;
                }
                let r = VItem::Element {
                    name: name.clone(),
                    attributes: pairs,
                    text: Self::copy_opt_string(text),
                };
                proof {
                    assert(pairs@ =~= attributes@);
                }
                r
            },
            VItem::Text { value } => VItem::Text { value: value.clone() },
        }
    }

    /// Copies a node record, preserving its model exactly.
    fn copy_node(n: &VNode) -> (r: VNode)
        ensures
            r@ == n@,
    {
        VNode {
            id: n.id,
            parent: n.parent,
            children: Self::copy_list(&n.children),
            item: match &n.item {
                Some(it) => Some(Self::copy_item(it)),
                None => None,
            },
        }
    }

    /// Whether `r` is what looking up `id` in this store must return:
    /// a copy of the stored record, or absent when the identity is unknown.
    pub open spec fn spec_get_node(&self, id: u128, r: Option<VNode>) -> bool {
        match r {
            Some(n) => self.spec_nodes().contains_key(id) && n@ == self.spec_nodes()[id]@,
            None => !self.spec_nodes().contains_key(id),
        }
    }

    /// A copy of the node stored under the identity, or absent.
    pub fn get_node(&self, node: &VRef) -> (r: Option<VNode>)
        ensures
            self.spec_get_node(node@, r),
    {
        match self.nodes.get(&node.id) {
            Some(n) => Some(Self::copy_node(n)),
            None => None,
        }
    }

    /// Applies the described mutation to the node stored under the identity,
    /// in place; does nothing when the identity is unknown.
    pub fn update_node(&mut self, node: &VRef, patch: VPatch)
        requires
            old(self).wf(),
        ensures
            final(self).wf(),
            !old(self).spec_nodes().contains_key(node@) ==> *final(self) == *old(self),
            old(self).spec_nodes().contains_key(node@) ==> {
                &&& final(self).spec_nodes().dom() == old(self).spec_nodes().dom()
                &&& final(self).spec_nodes()[node@]@ == (VNodeView {
                    item: Some(patch_item(patch)@),
                    ..old(self).spec_nodes()[node@]@
                })
                &&& forall|k: u128|
                    k != node@ && old(self).spec_nodes().contains_key(k)
                        ==> final(self).spec_nodes()[k] == old(self).spec_nodes()[k]
                &&& final(self).spec_parents() == old(self).spec_parents()
                &&& final(self).spec_children() == old(self).spec_children()
                &&& final(self).spec_root() == old(self).spec_root()
                &&& final(self).spec_order() == old(self).spec_order()
            },
    {
        let updated = match self.nodes.get(&node.id) {
            Some(n) => Some(Self::copy_node(n)),
            None => None,
        };
        if let Some(mut n2) = updated {
            match patch {
                VPatch::SetItem(it) => {
                    n2.item = Some(it);
                },
            }
            self.nodes.insert(node.id, n2);
            proof {
                assert(self.spec_nodes().dom() =~= old(self).spec_nodes().dom());
                assert(self.spec_parents() =~= old(self).spec_parents());
                assert(self.spec_children() =~= old(self).spec_children());
            }
        }
    }

    /// The children of the identity, in append order, each resolved to its
    /// stored record; an identity with no children yields the empty list.
    pub fn children(&self, parent: &VRef) -> (r: Vec<&VNode>)
        requires
            self.wf(),
        ensures
            self.spec_children().contains_key(parent@) ==> {
                &&& r@.len() == self.spec_children()[parent@].len()
                &&& forall|i: int|
                    0 <= i < r@.len() ==> *(#[trigger] r@[i]) == self.spec_nodes()[self.spec_children(
                    )[parent@][i]]
                &&& forall|i: int| 0 <= i < r@.len() ==> (#[trigger] r@[i])@.id
                    == self.spec_children()[parent@][i]
            },
            !self.spec_children().contains_key(parent@) ==> r@.len() == 0,
    {
        let mut out: Vec<&VNode> = Vec::new();
        match self.children.get(&parent.id) {
            None => out,
            Some(l) => {
                let ghost lv = self.spec_children()[parent@];
                proof {
                    assert(lv == ref_ids(l@));
                }
                let mut i: usize = 0;
                while i < l.len()
                    invariant
                        0 <= i <= l.len(),
                        self.wf(),
                        self.spec_children().contains_key(parent@),
                        lv == self.spec_children()[parent@],
                        lv == ref_ids(l@),
                        lv.len() == l@.len(),
                        out@.len() == i,
                        forall|j: int|
                            0 <= j < i ==> *(#[trigger] out@[j]) == self.spec_nodes()[lv[j]],
                        forall|j: int| 0 <= j < i ==> (#[trigger] out@[j])@.id == lv[j],
                    decreases l.len() - i,
                {
                    let cref = l[i];
                    proof {
                        assert(cref@ == lv[i as int]);
                        assert(self.spec_nodes().contains_key(lv[i as int]));
                    }
                    match self.nodes.get(&cref.id) {
                        Some(n) => {
                            out.push(n);
                        },
                        None => {
                            proof {
                                assert(false);
                            }
                        },
                    }
                    i += 1;
                }
                out
            },
        }
    }

    /// How many nodes the table holds.
    pub fn node_count(&self) -> (n: usize)
        ensures
            n == self.spec_order().len(),
    {
        self.order.len()
    }

    /// A snapshot of every stored node, in first-insertion order; callers
    /// must not rely on that order staying stable across mutations.
    pub fn nodes(&self) -> (r: Vec<&VNode>)
        requires
            self.wf(),
        ensures
            r@.len() == self.spec_order().len(),
            forall|i: int|
                0 <= i < r@.len() ==> *(#[trigger] r@[i]) == self.spec_nodes()[self.spec_order()[i]],
            forall|id: u128|
                self.spec_nodes().contains_key(id) ==> exists|i: int|
                    0 <= i < r@.len() && (#[trigger] r@[i])@.id == id,
    {
        let mut out: Vec<&VNode> = Vec::new();
        let mut i: usize = 0;
        while i < self.order.len()
            invariant
                0 <= i <= self.order.len(),
                self.wf(),
                out@.len() == i,
                forall|j: int|
                    0 <= j < i ==> *(#[trigger] out@[j]) == self.spec_nodes()[self.spec_order()[j]],
            decreases self.order.len() - i,
        {
            let oref = self.order[i];
            proof {
                assert(oref@ == self.spec_order()[i as int]);
                assert(self.spec_nodes().contains_key(oref@));
            }
            match self.nodes.get(&oref.id) {
                Some(n) => {
                    out.push(n);
                },
                None => {
                    proof {
                        assert(false);
                    }
                },
            }
            i += 1;
        }
        proof {
            assert forall|id: u128| self.spec_nodes().contains_key(id) implies exists|k: int|
                0 <= k < out@.len() && out@[k]@.id == id by {
                let k = choose|k: int|
                    0 <= k < self.spec_order().len() && self.spec_order()[k] == id;
                assert(out@[k]@.id == self.spec_nodes()[self.spec_order()[k]]@.id);
                assert(self.spec_nodes()[id].id@ == id);
            }
        }
        out
    }

    /// The parent identity recorded for a child, if any.
    pub fn parent(&self, child: &VRef) -> (r: Option<&VRef>)
        ensures
            match r {
                Some(p) => self.spec_parents().contains_key(child@) && self.spec_parents()[child@]
                    == p@,
                None => !self.spec_parents().contains_key(child@),
            },
    {
        self.parents.get(&child.id)
    }

    /// Re-establishes `wf` after the two steps of `append_child`.
    proof fn lemma_append_wf(
        &self,
        pre: VTree,
        parent: VRef,
        child: VRef,
        mid_children: Map<u128, Seq<u128>>,
    )
        requires
            pre.wf(),
            pre.spec_nodes().contains_key(parent@),
            pre.spec_nodes().contains_key(child@),
            mid_children == (if pre.spec_parents().contains_key(child@) {
                children_detach(pre.spec_children(), pre.spec_parents()[child@], child@)
            } else {
                pre.spec_children()
            }),
            self.spec_parents() == pre.spec_parents().insert(child@, parent@),
            self.spec_children() == children_append(mid_children, parent@, child@),
            self.spec_nodes() == pre.spec_nodes(),
            self.spec_order() == pre.spec_order(),
        ensures
            self.wf(),
    {
        let p0_linked = pre.spec_parents().contains_key(child@);
        let p0 = pre.spec_parents()[child@];
        if p0_linked {
            lemma_remove_value_nodup(pre.spec_children()[p0], child@);
        }
        // the list `child` is appended to never already contains it
        assert(!(if mid_children.contains_key(parent@) {
            mid_children[parent@]
        } else {
            Seq::<u128>::empty()
        }).contains(child@)) by {
            if mid_children.contains_key(parent@) && mid_children[parent@].contains(child@) {
                if p0_linked && p0 == parent@ {
                } else {
                    assert(pre.spec_children()[parent@].contains(child@));
                    let i = choose|i: int|
                        0 <= i < pre.spec_children()[parent@].len() && pre.spec_children(
                        )[parent@][i] == child@;
                    assert(pre.spec_parents()[child@] == parent@);
                }
            }
        }
        assert forall|c: u128| #[trigger] self.spec_parents().contains_key(c) implies {
            &&& self.spec_nodes().contains_key(c)
            &&& self.spec_nodes().contains_key(self.spec_parents()[c])
            &&& self.spec_children().contains_key(self.spec_parents()[c])
            &&& self.spec_children()[self.spec_parents()[c]].contains(c)
        } by {
            if c == child@ {
                let l = self.spec_children()[parent@];
                assert(l[l.len() - 1] == child@);
            } else {
                let p = pre.spec_parents()[c];
                assert(pre.spec_children()[p].contains(c));
                if p == parent@ {
                    let base = if mid_children.contains_key(parent@) {
                        mid_children[parent@]
                    } else {
                        Seq::<u128>::empty()
                    };
                    assert(base.contains(c)) by {
                        if p0_linked && p0 == parent@ {
                            assert(pre.spec_children()[parent@].remove_value(child@).contains(c));
                        }
                    }
                    let i = choose|i: int| 0 <= i < base.len() && base[i] == c;
                    assert(self.spec_children()[parent@][i] == c);
                } else if p0_linked && p == p0 {
                    // `c` survives the detach of `child` from `p0`'s list
                    let l = pre.spec_children()[p0].remove_value(child@);
                    assert(l.contains(c));
                    assert(l.len() > 0);
                    assert(mid_children.contains_key(p0) && mid_children[p0] == l);
                    assert(self.spec_children()[p0] == l);
                } else {
                    assert(mid_children.contains_key(p) && mid_children[p] == pre.spec_children(
                    )[p]);
                    assert(self.spec_children()[p] == pre.spec_children()[p]);
                }
            }
        }
        assert forall|p: u128| #[trigger] self.spec_children().contains_key(p) implies {
            &&& self.spec_nodes().contains_key(p)
            &&& self.spec_children()[p].len() > 0
            &&& forall|i: int| 0 <= i < self.spec_children()[p].len() ==> {
                &&& self.spec_nodes().contains_key(#[trigger] self.spec_children()[p][i])
                &&& self.spec_parents().contains_key(self.spec_children()[p][i])
                &&& self.spec_parents()[self.spec_children()[p][i]] == p
            }
            &&& forall|i: int, j: int|
                0 <= i < self.spec_children()[p].len() && 0 <= j < self.spec_children()[p].len()
                    && i != j ==> #[trigger] self.spec_children()[p][i]
                    != #[trigger] self.spec_children()[p][j]
        } by {
            let l = self.spec_children()[p];
            if p == parent@ {
                let base = if mid_children.contains_key(parent@) {
                    mid_children[parent@]
                } else {
                    Seq::<u128>::empty()
                };
                assert(l == base.push(child@));
                assert forall|i: int| 0 <= i < l.len() implies {
                    &&& self.spec_nodes().contains_key(#[trigger] l[i])
                    &&& self.spec_parents().contains_key(l[i])
                    &&& self.spec_parents()[l[i]] == p
                } by {
                    if i == l.len() - 1 {
                        assert(l[i] == child@);
                    } else {
                        let c = l[i];
                        assert(base[i] == c);
                        assert(base.contains(c));
                        if p0_linked && p0 == parent@ {
                            assert(pre.spec_children()[parent@].contains(c));
                            assert(pre.spec_parents()[c] == parent@);
                        } else {
                            assert(pre.spec_children()[parent@].contains(c));
                            assert(pre.spec_parents()[c] == parent@);
                        }
                        assert(c != child@);
                    }
                }
                assert forall|i: int, j: int|
                    0 <= i < l.len() && 0 <= j < l.len() && i != j implies l[i] != l[j] by {
                    if i < l.len() - 1 && j < l.len() - 1 {
                        assert(base[i] == l[i] && base[j] == l[j]);
                        if p0_linked && p0 == parent@ {
                        } else {
                            assert(pre.spec_children()[parent@][i] != pre.spec_children(
                            )[parent@][j]);
                        }
                    } else {
                        let k = if i == l.len() - 1 {
                            j
                        } else {
                            i
                        };
                        assert(base[k] == l[k]);
                        assert(base.contains(l[k]));
                        assert(l[k] != child@);
                    }
                }
            } else if p0_linked && p == p0 && pre.spec_children().contains_key(p0)
                && mid_children.contains_key(p0) {
                let lr = pre.spec_children()[p0].remove_value(child@);
                assert(l == lr);
                assert forall|i: int| 0 <= i < l.len() implies {
                    &&& self.spec_nodes().contains_key(#[trigger] l[i])
                    &&& self.spec_parents().contains_key(l[i])
                    &&& self.spec_parents()[l[i]] == p
                } by {
                    assert(lr.contains(l[i]));
                    assert(pre.spec_children()[p0].contains(l[i]));
                    assert(pre.spec_parents()[l[i]] == p0);
                    assert(l[i] != child@);
                }
            } else {
                assert(mid_children.contains_key(p) && mid_children[p] == pre.spec_children()[p]);
                assert(pre.spec_children().contains_key(p));
                assert forall|i: int| 0 <= i < l.len() implies {
                    &&& self.spec_nodes().contains_key(#[trigger] l[i])
                    &&& self.spec_parents().contains_key(l[i])
                    &&& self.spec_parents()[l[i]] == p
                } by {
                    assert(pre.spec_children()[p][i] == l[i]);
                    assert(pre.spec_children()[p].contains(l[i]));
                    assert(pre.spec_parents()[l[i]] == p);
                    assert(l[i] != child@) by {
                        if l[i] == child@ {
                            assert(p0_linked && p0 == p);
                        }
                    }
                }
            }
        }
    }
}

/// Law: in a well-formed store the parent index and the children index are
/// two views of one relation. A child is listed under a parent exactly when
/// the parent index records that parent for it — so every child appears in
/// at most one parent's list. `append_child` and `remove_child` keep `wf`,
/// so this holds after every call.
pub proof fn lemma_parent_children_symmetry(t: &VTree)
    requires
        t.wf(),
    ensures
        forall|p: u128, c: u128|
            (t.spec_children().contains_key(p) && #[trigger] t.spec_children()[p].contains(c))
                <==> (#[trigger] t.spec_parents().contains_key(c) && t.spec_parents()[c] == p),
{
    assert forall|p: u128, c: u128|
        t.spec_children().contains_key(p) && #[trigger] t.spec_children()[p].contains(
            c,
        ) implies #[trigger] t.spec_parents().contains_key(c) && t.spec_parents()[c] == p by {
        let i = choose|i: int|
            0 <= i < t.spec_children()[p].len() && t.spec_children()[p][i] == c;
        assert(t.spec_parents()[t.spec_children()[p][i]] == p);
    }
}

/// Law: re-parenting leaves a child under exactly its latest parent. When a
/// well-formed store records `p2` as the parent of `c` — as it does right
/// after `append_child(p2, c)`, whatever parent `c` had before — then `c`
/// stands in `p2`'s list and in no other parent's list.
pub proof fn lemma_reparent_unique(t: &VTree, p2: u128, c: u128)
    requires
        t.wf(),
        t.spec_parents().contains_key(c),
        t.spec_parents()[c] == p2,
    ensures
        t.spec_children().contains_key(p2),
        t.spec_children()[p2].contains(c),
        forall|q: u128|
            q != p2 && #[trigger] t.spec_children().contains_key(q) ==> !t.spec_children(
            )[q].contains(c),
{
    assert forall|q: u128|
        q != p2 && #[trigger] t.spec_children().contains_key(q) implies !t.spec_children(
    )[q].contains(c) by {
        if t.spec_children()[q].contains(c) {
            let i = choose|i: int|
                0 <= i < t.spec_children()[q].len() && t.spec_children()[q][i] == c;
            assert(t.spec_parents()[t.spec_children()[q][i]] == q);
        }
    }
}

/// Law: looking a node up is idempotent. `spec_get_node` pins the model of
/// the result uniquely, so two `get_node` calls on one identity with no
/// mutation in between return results with equal models.
pub proof fn lemma_get_node_deterministic(
    t: &VTree,
    id: u128,
    r1: Option<VNode>,
    r2: Option<VNode>,
)
    requires
        t.spec_get_node(id, r1),
        t.spec_get_node(id, r2),
    ensures
        r1 is Some <==> r2 is Some,
        r1 is Some && r2 is Some ==> r1.unwrap()@ == r2.unwrap()@,
{
}

/// Law: a successful `remove_child(p, c)` leaves `c` in no parent's list,
/// and the parent index no longer knows `c` — so a second
/// `remove_child(p, c)` on the result must fail, by `remove_child`'s own
/// success condition.
pub proof fn lemma_remove_child_detaches(pre: &VTree, post: &VTree, p: u128, c: u128)
    requires
        pre.wf(),
        pre.spec_parents().contains_key(c),
        pre.spec_parents()[c] == p,
        post.spec_parents() == pre.spec_parents().remove(c),
        post.spec_children() == children_detach(pre.spec_children(), p, c),
    ensures
        !post.spec_parents().contains_key(c),
        forall|q: u128| #[trigger] post.spec_children().contains_key(q) ==> !post.spec_children(
        )[q].contains(c),
{
    let l0 = pre.spec_children()[p];
    assert(pre.spec_children().contains_key(p));
    assert(l0.no_duplicates()) by {
        assert forall|i: int, j: int|
            0 <= i < l0.len() && 0 <= j < l0.len() && i != j implies l0[i] != l0[j] by {
            assert(pre.spec_children()[p][i] != pre.spec_children()[p][j]);
        }
    }
    lemma_remove_value_nodup(l0, c);
    assert forall|q: u128| #[trigger] post.spec_children().contains_key(q) implies !post
        .spec_children()[q].contains(c) by {
        if q == p {
            assert(post.spec_children()[p] == l0.remove_value(c));
        } else {
            assert(post.spec_children()[q] == pre.spec_children()[q]);
            if pre.spec_children()[q].contains(c) {
                let i = choose|i: int|
                    0 <= i < pre.spec_children()[q].len() && pre.spec_children()[q][i] == c;
                assert(pre.spec_parents()[pre.spec_children()[q][i]] == q);
            }
        }
    }
}

} // verus!
