use markup_vdom::vdom::{VItem, VPatch, VRef, VTree};

fn child_ids(tree: &VTree, parent: &VRef) -> Vec<VRef> {
    tree.children(parent).iter().map(|node| node.id).collect()
}

#[test]
fn test_parent_child_relationship() {
    let mut tree = VTree::new();
    let node_a = tree.create_random_node();
    let node_b = tree.create_random_node();
    let node_c = tree.create_random_node();
    let node_d = tree.create_random_node();

    tree.append_child(&node_a, &node_b);

    assert_eq!(tree.nodes().len(), 4);
    assert_eq!(tree.parent(&node_b), Some(&node_a));
    assert_eq!(child_ids(&tree, &node_a), vec![node_b]);

    assert!(tree.remove_child(&node_a, &node_b).is_ok());

    assert_eq!(tree.nodes().len(), 4);
    assert!(tree.parent(&node_b).is_none());
    assert!(child_ids(&tree, &node_a).is_empty());

    tree.append_child(&node_a, &node_b);
    tree.append_child(&node_a, &node_c);
    tree.append_child(&node_b, &node_d);

    assert_eq!(child_ids(&tree, &node_a), vec![node_b, node_c]);
    assert_eq!(child_ids(&tree, &node_b), vec![node_d]);
}

#[test]
fn test_nodes_iter() {
    let mut tree = VTree::new();
    let node_a = tree.create_random_node();
    let node_b = tree.create_random_node();
    let node_c = tree.create_random_node();
    let node_d = tree.create_random_node();

    let expected = vec![node_a, node_b, node_c, node_d];

    assert_eq!(tree.nodes().len(), 4);
    let ids: Vec<VRef> = tree.nodes().iter().map(|node| node.id).collect();
    for vref in &expected {
        assert!(ids.contains(vref));
    }
}

#[test]
fn test_update_node() {
    let mut tree = VTree::new();
    let _node_a = tree.create_random_node();
    let _node_b = tree.create_random_node();
    let node_c = tree.create_random_node();
    let _node_d = tree.create_random_node();

    tree.update_node(
        &node_c,
        VPatch::SetItem(VItem::Text { value: String::from("div") }),
    );

    let item = tree.get_node(&node_c).unwrap().item.unwrap();

    assert_eq!(item, VItem::Text { value: String::from("div") });
}

#[test]
fn test_reparenting_keeps_one_parent() {
    let mut tree = VTree::new();
    let p1 = tree.create_random_node();
    let p2 = tree.create_random_node();
    let c = tree.create_random_node();

    tree.append_child(&p1, &c);
    tree.append_child(&p2, &c);

    assert!(child_ids(&tree, &p1).is_empty());
    assert_eq!(child_ids(&tree, &p2), vec![c]);
    assert_eq!(tree.parent(&c), Some(&p2));
}

#[test]
fn test_get_node_idempotent() {
    let mut tree = VTree::new();
    let node = tree.create_random_node();
    tree.update_node(
        &node,
        VPatch::SetItem(VItem::Element {
            name: String::from("div"),
            attributes: vec![(String::from("id"), Some(String::from("x")))],
            text: None,
        }),
    );

    let first = tree.get_node(&node);
    let second = tree.get_node(&node);
    assert_eq!(first, second);
}

#[test]
fn test_remove_child_twice_fails() {
    let mut tree = VTree::new();
    let parent = tree.create_random_node();
    let child = tree.create_random_node();

    tree.append_child(&parent, &child);
    assert!(tree.remove_child(&parent, &child).is_ok());
    assert!(!child_ids(&tree, &parent).contains(&child));
    assert!(tree.remove_child(&parent, &child).is_err());
}

#[test]
fn test_remove_child_without_linkage_fails() {
    let mut tree = VTree::new();
    let parent = tree.create_random_node();
    let child = tree.create_random_node();
    let other = tree.create_random_node();

    assert!(tree.remove_child(&parent, &child).is_err());

    tree.append_child(&parent, &child);
    assert!(tree.remove_child(&other, &child).is_err());
    assert_eq!(tree.parent(&child), Some(&parent));
}

#[test]
fn test_root_slot() {
    let mut tree = VTree::new();
    assert!(!tree.has_root());
    assert!(tree.get_root().is_none());

    let node = tree.create_random_node();
    tree.set_root(&node);
    assert!(tree.has_root());
    assert_eq!(tree.get_root(), Some(node));
}

#[test]
fn test_update_node_absent_is_noop() {
    let mut other = VTree::new();
    let foreign = other.create_random_node();

    let mut tree = VTree::new();
    tree.update_node(
        &foreign,
        VPatch::SetItem(VItem::Text { value: String::from("x") }),
    );
    assert!(tree.get_node(&foreign).is_none());
    assert_eq!(tree.nodes().len(), 0);
}

#[test]
fn test_uuid_identity_round_trip() {
    let v = VRef::random();
    let s = v.to_uuid_string();
    assert_eq!(s.len(), 36);
    assert_eq!(s.matches('-').count(), 4);
    let parsed = VRef::from_string(s).ok().unwrap();
    assert_eq!(parsed, v);
}

#[test]
fn test_from_string_rejects_garbage() {
    assert!(VRef::from_string(String::from("not a uuid")).is_err());
}

#[test]
fn test_node_identity_from_node() {
    let mut tree = VTree::new();
    let node_ref = tree.create_random_node();
    let node = tree.get_node(&node_ref).unwrap();
    let back: VRef = VRef::from(&node);
    assert_eq!(back, node_ref);
}
