use sprinkles_editor::hierarchy::{EntityTree, TreeNode};

fn node(entity: u64, parent: Option<u64>, children: Vec<u64>) -> TreeNode {
    TreeNode { entity, parent, children }
}

fn chain() -> EntityTree {
    EntityTree {
        nodes: vec![
            node(1, None, vec![2]),
            node(2, Some(1), vec![3]),
            node(3, Some(2), vec![4]),
            node(4, Some(3), vec![]),
        ],
    }
}

#[test]
fn nearest_ancestor_is_self_first() {
    let t = chain();
    assert_eq!(t.nearest_ancestor_in(&vec![1, 3], 3), Some(3));
    assert_eq!(t.nearest_ancestor_in(&vec![1, 3], 4), Some(3));
    assert_eq!(t.nearest_ancestor_in(&vec![1], 4), Some(1));
    assert_eq!(t.nearest_ancestor_in(&vec![], 4), None);
    assert_eq!(t.nearest_ancestor_in(&vec![2], 1), None);
}

#[test]
fn unknown_entity_has_no_parent() {
    let t = chain();
    assert_eq!(t.nearest_ancestor_in(&vec![1], 99), None);
    assert_eq!(t.nearest_ancestor_in(&vec![99], 99), Some(99));
    assert_eq!(t.parent(99), None);
    assert_eq!(t.parent(3), Some(2));
}

#[test]
fn first_listing_wins() {
    let t = EntityTree { nodes: vec![node(5, Some(6), vec![]), node(5, Some(7), vec![])] };
    assert_eq!(t.parent(5), Some(6));
    assert_eq!(t.node(5).map(|n| n.parent), Some(Some(6)));
}

#[test]
fn cycle_stops() {
    let t = EntityTree { nodes: vec![node(1, Some(2), vec![]), node(2, Some(1), vec![])] };
    assert_eq!(t.nearest_ancestor_in(&vec![9], 1), None);
}
