use sprinkles_editor::dialog_visual::{dialog_visual_steps, VisualFlags, VisualStep};
use sprinkles_editor::hierarchy::{EntityTree, TreeNode};

fn node(entity: u64, parent: Option<u64>, children: Vec<u64>) -> TreeNode {
    TreeNode { entity, parent, children }
}

#[test]
fn fade_order_and_roles() {
    // dialog 1 > backdrop 2 > panel 3 > [header 4 > [title 5], footer 6 > [button 7 > [label 8]]]
    // dialog 1 > other child 9 (not a backdrop)
    let tree = EntityTree {
        nodes: vec![
            node(1, None, vec![2, 9]),
            node(2, Some(1), vec![3]),
            node(3, Some(2), vec![4, 6]),
            node(4, Some(3), vec![5]),
            node(5, Some(4), vec![]),
            node(6, Some(3), vec![7]),
            node(7, Some(6), vec![8]),
            node(8, Some(7), vec![]),
            node(9, Some(1), vec![]),
        ],
    };
    let flags = VisualFlags {
        backdrops: vec![2],
        buttons: vec![7],
        with_background: vec![4, 6, 7],
        with_stored_base_alpha: vec![6],
    };
    let steps = dialog_visual_steps(&tree, &flags, 1);
    assert_eq!(
        steps,
        vec![
            VisualStep::Backdrop(2),
            VisualStep::Panel(3),
            VisualStep::Element { entity: 4, record_base_alpha: true },
            VisualStep::Element { entity: 5, record_base_alpha: false },
            VisualStep::Element { entity: 6, record_base_alpha: false },
            VisualStep::Button(7),
            VisualStep::Element { entity: 8, record_base_alpha: false },
        ]
    );
}

#[test]
fn backdrop_without_children() {
    let tree = EntityTree { nodes: vec![node(1, None, vec![2])] };
    let flags = VisualFlags {
        backdrops: vec![2],
        buttons: vec![],
        with_background: vec![],
        with_stored_base_alpha: vec![],
    };
    assert_eq!(dialog_visual_steps(&tree, &flags, 1), vec![VisualStep::Backdrop(2)]);
    assert_eq!(dialog_visual_steps(&tree, &flags, 7), vec![]);
}
