use sprinkles_editor::flipbook_options::{
    checkbox_updates, flipbook_enabled, flipbook_options_plan, flipbook_toggle, FlipbookGrid,
    FlipbookToggle,
};

#[test]
fn enabled_only_with_flipbook() {
    assert!(flipbook_enabled(Some(true)));
    assert!(!flipbook_enabled(Some(false)));
    assert!(!flipbook_enabled(None));
}

#[test]
fn options_plan_texts() {
    let default = FlipbookGrid { columns: 1, rows: 1 };
    let p = flipbook_options_plan(Some(FlipbookGrid { columns: 12, rows: 3 }), default);
    assert!(p.enabled);
    assert_eq!(p.columns_text, "12");
    assert_eq!(p.rows_text, "3");
    let p = flipbook_options_plan(None, FlipbookGrid { columns: 4, rows: 90 });
    assert!(!p.enabled);
    assert_eq!(p.columns_text, "4");
    assert_eq!(p.rows_text, "90");
}

#[test]
fn checkbox_sync() {
    assert_eq!(checkbox_updates(&vec![true, false, true], true, true), vec![1]);
    assert_eq!(checkbox_updates(&vec![true, false, true], true, false), Vec::<usize>::new());
    assert_eq!(checkbox_updates(&vec![true, false], false, true), vec![0]);
}

#[test]
fn toggling() {
    assert_eq!(flipbook_toggle(true, Some(false), true), FlipbookToggle::Enable);
    assert_eq!(flipbook_toggle(true, Some(true), false), FlipbookToggle::Disable);
    assert_eq!(flipbook_toggle(true, Some(true), true), FlipbookToggle::Ignore);
    assert_eq!(flipbook_toggle(false, Some(false), true), FlipbookToggle::Ignore);
    assert_eq!(flipbook_toggle(true, None, true), FlipbookToggle::Ignore);
}
