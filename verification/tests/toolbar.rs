use slate_framework::elements::toolbar::Toolbar;

#[test]
fn toolbar_keeps_controls_and_separators_in_order() {
    let items = Toolbar::new()
        .child("Refresh")
        .separator("|")
        .child_any("Settings")
        .into_items();
    assert_eq!(items, vec!["Refresh", "|", "Settings"]);
}

#[test]
fn default_toolbar_is_empty() {
    let t: Toolbar<u32> = Toolbar::default();
    assert!(t.into_items().is_empty());
}
