use sprinkles_editor::dialog::{
    backdrop_dismissals, can_open_dialog, children_slot_visible, close_dismissals,
    dialog_button_click, dialog_footer, dialog_header, dialog_layout, dialogs_to_despawn,
    esc_dismissals, ActiveDialog, BackdropInteraction, ButtonVariant, DialogButton, DialogConfig,
    DialogVariant, FooterButton, HeaderText, OpenConfirmationDialogEvent, OpenDialogEvent,
    PanelSection, Scalar, UiRect, Val, SCALAR_24_BITS, SCALAR_448_BITS, SCALAR_ZERO_BITS,
};
use sprinkles_editor::hierarchy::{EntityTree, TreeNode};

fn px(v: f32) -> Val {
    Val::Px(Scalar { bits: v.to_bits() })
}

#[test]
fn scalar_constants_are_the_numbers() {
    assert_eq!(f32::from_bits(SCALAR_24_BITS), 24.0);
    assert_eq!(f32::from_bits(SCALAR_448_BITS), 448.0);
    assert_eq!(f32::from_bits(SCALAR_ZERO_BITS), 0.0);
}

#[test]
fn new_dialog_defaults() {
    let e = OpenDialogEvent::new("Delete", "OK");
    assert_eq!(e.title.as_deref(), Some("Delete"));
    assert_eq!(e.description, None);
    assert_eq!(e.action.as_deref(), Some("OK"));
    assert_eq!(e.cancel.as_deref(), Some("Cancel"));
    assert_eq!(e.variant, DialogVariant::Default);
    assert!(e.has_close_button && e.close_on_click_outside && e.close_on_esc);
    assert_eq!(e.max_width, None);
    assert_eq!(e.content_padding, UiRect::all(px(24.0)));
}

#[test]
fn builders_set_one_field() {
    let e = OpenDialogEvent::new("T", "A")
        .without_cancel()
        .with_variant(DialogVariant::Destructive)
        .with_close_button(false)
        .with_close_on_click_outside(false)
        .with_max_width(px(300.0))
        .without_content_padding();
    assert_eq!(e.cancel, None);
    assert_eq!(e.variant, DialogVariant::Destructive);
    assert!(!e.has_close_button);
    assert!(!e.close_on_click_outside);
    assert!(e.close_on_esc);
    assert_eq!(e.max_width, Some(px(300.0)));
    assert_eq!(e.content_padding, UiRect::zero());
    assert_eq!(e.content_padding, UiRect::all(px(0.0)));
    assert_eq!(e.title.as_deref(), Some("T"));
}

#[test]
fn confirmation_dialog() {
    let c = OpenConfirmationDialogEvent::new("Remove emitter?", "Remove")
        .with_description("This cannot be undone.");
    assert_eq!(c.description.as_deref(), Some("This cannot be undone."));
    let e = OpenDialogEvent::from(&c);
    assert_eq!(e.title.as_deref(), Some("Remove emitter?"));
    assert_eq!(e.description.as_deref(), Some("This cannot be undone."));
    assert_eq!(e.action.as_deref(), Some("Remove"));
    assert_eq!(e.cancel.as_deref(), Some("Cancel"));
    assert_eq!(e.variant, DialogVariant::Destructive);
    assert!(!e.has_close_button);
    assert!(!e.close_on_click_outside);
    assert!(e.close_on_esc);
    let plain = OpenConfirmationDialogEvent::new("T", "A");
    assert_eq!(OpenDialogEvent::from(&plain).description, None);
}

#[test]
fn action_button_variants() {
    assert_eq!(DialogVariant::Default.action_button_variant(), ButtonVariant::Primary);
    assert_eq!(DialogVariant::Destructive.action_button_variant(), ButtonVariant::Destructive);
}

#[test]
fn header_and_footer() {
    let h = dialog_header(&Some("T".to_string()), &Some("D".to_string()));
    assert!(matches!(&h[..], [HeaderText::Title(t), HeaderText::Description(d)] if t == "T" && d == "D"));
    let h = dialog_header(&None, &Some("D".to_string()));
    assert!(matches!(&h[..], [HeaderText::Description(d)] if d == "D"));
    let f = dialog_footer(&Some("C".to_string()), &Some("A".to_string()), DialogVariant::Destructive);
    assert!(matches!(&f[..], [FooterButton::Cancel(c), FooterButton::Action(a, ButtonVariant::Destructive)] if c == "C" && a == "A"));
    let f = dialog_footer(&None, &Some("A".to_string()), DialogVariant::Default);
    assert!(matches!(&f[..], [FooterButton::Action(a, ButtonVariant::Primary)] if a == "A"));
}

#[test]
fn full_layout() {
    let e = OpenDialogEvent::new("T", "A");
    let l = dialog_layout(&e);
    assert_eq!(l.max_width, px(448.0));
    assert_eq!(l.config, DialogConfig { close_on_click_outside: true, close_on_esc: true });
    assert_eq!(l.sections.len(), 4);
    assert!(matches!(l.sections[0], PanelSection::Header(_)));
    assert!(matches!(l.sections[1], PanelSection::ChildrenSlot(p) if p == UiRect::all(px(24.0))));
    assert!(matches!(l.sections[2], PanelSection::Footer(_)));
    assert!(matches!(l.sections[3], PanelSection::CloseButton));
}

#[test]
fn bare_layout() {
    let mut e = OpenDialogEvent::new("T", "A").without_cancel().with_close_button(false).with_max_width(px(10.0));
    e.title = None;
    e.action = None;
    let l = dialog_layout(&e);
    assert_eq!(l.max_width, px(10.0));
    assert_eq!(l.sections.len(), 1);
    assert!(matches!(l.sections[0], PanelSection::ChildrenSlot(_)));
}

#[test]
fn only_one_dialog_at_a_time() {
    assert!(can_open_dialog(0));
    assert!(!can_open_dialog(1));
}

fn cfg(outside: bool, esc: bool) -> DialogConfig {
    DialogConfig { close_on_click_outside: outside, close_on_esc: esc }
}

#[test]
fn backdrop_clicks() {
    let active = vec![
        ActiveDialog { entity: 1, config: cfg(true, true) },
        ActiveDialog { entity: 2, config: cfg(false, true) },
    ];
    let clicks = vec![
        BackdropInteraction { pressed: true, dialog: 1 },
        BackdropInteraction { pressed: false, dialog: 1 },
        BackdropInteraction { pressed: true, dialog: 2 },
        BackdropInteraction { pressed: true, dialog: 3 },
    ];
    assert_eq!(backdrop_dismissals(&clicks, &active, false), vec![1]);
    assert_eq!(backdrop_dismissals(&clicks, &active, true), Vec::<u64>::new());
}

#[test]
fn escape_key() {
    let active = vec![
        ActiveDialog { entity: 1, config: cfg(true, true) },
        ActiveDialog { entity: 2, config: cfg(true, false) },
        ActiveDialog { entity: 3, config: cfg(false, true) },
    ];
    assert_eq!(esc_dismissals(true, &active), vec![1, 3]);
    assert_eq!(esc_dismissals(false, &active), Vec::<u64>::new());
    assert_eq!(close_dismissals(&active), vec![1, 2, 3]);
}

fn node(entity: u64, parent: Option<u64>, children: Vec<u64>) -> TreeNode {
    TreeNode { entity, parent, children }
}

#[test]
fn button_clicks_find_their_dialog() {
    // dialog 10 > backdrop 11 > panel 12 > footer 13 > button 14
    let tree = EntityTree {
        nodes: vec![
            node(10, None, vec![11]),
            node(11, Some(10), vec![12]),
            node(12, Some(11), vec![13]),
            node(13, Some(12), vec![14]),
            node(14, Some(13), vec![]),
        ],
    };
    let out = dialog_button_click(&tree, &vec![10], DialogButton::Action, 13);
    assert_eq!(out.dismiss, Some(10));
    assert_eq!(out.action, Some(10));
    let out = dialog_button_click(&tree, &vec![10], DialogButton::Cancel, 13);
    assert_eq!(out.dismiss, Some(10));
    assert_eq!(out.action, None);
    // a dialog being dismissed is no longer active
    let out = dialog_button_click(&tree, &vec![], DialogButton::Close, 13);
    assert_eq!(out.dismiss, None);
    assert_eq!(out.action, None);
}

#[test]
fn despawn_only_dismissed() {
    assert_eq!(dialogs_to_despawn(&vec![1, 2, 3], &vec![3, 1]), vec![1, 3]);
}

#[test]
fn slot_visibility() {
    assert!(!children_slot_visible(0));
    assert!(children_slot_visible(2));
}

#[test]
fn confirmation_via_from() {
    let c = OpenConfirmationDialogEvent::new("T", "A").with_description("D");
    let e = OpenDialogEvent::from(&c);
    assert_eq!(e.description.as_deref(), Some("D"));
    assert!(!e.close_on_click_outside);
    assert_eq!(e.variant, DialogVariant::Destructive);
}

#[test]
fn confirmation_ignores_clicks_outside() {
    let c = OpenConfirmationDialogEvent::new("T", "A");
    let layout = dialog_layout(&OpenDialogEvent::from(&c));
    let active = vec![ActiveDialog { entity: 5, config: layout.config }];
    let clicks = vec![BackdropInteraction { pressed: true, dialog: 5 }];
    assert_eq!(backdrop_dismissals(&clicks, &active, false), Vec::<u64>::new());
    assert_eq!(esc_dismissals(true, &active), vec![5]);
}
