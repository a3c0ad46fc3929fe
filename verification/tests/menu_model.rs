use slate_framework::menu::{Menu, MenuAction, MenuId, MenuItem};

#[derive(Clone, Debug, PartialEq)]
struct Accel {
    meta: bool,
    key: String,
}

fn sample_menu() -> Menu<Accel> {
    // File > [Open (Cmd+O), ---, Quit (disabled)]  + Toggle (checked)
    let file = Menu::new()
        .action(MenuAction::new(MenuId(1), "Open").accelerator(Accel { meta: true, key: "o".into() }))
        .separator()
        .action(MenuAction::new(MenuId(2), "Quit").enabled(false));
    Menu::new().submenu("File", file).action(MenuAction::new(MenuId(3), "Toggle").checked(true))
}

#[test]
fn builds_nested_items_with_separators() {
    let menu = sample_menu();
    assert_eq!(menu.items().len(), 2);
    assert!(matches!(menu.items()[0], MenuItem::Submenu(_)));
    let MenuItem::Submenu(file) = &menu.items()[0] else {
        unreachable!()
    };
    assert_eq!(file.label, "File");
    assert_eq!(file.menu.items().len(), 3);
    assert!(matches!(file.menu.items()[1], MenuItem::Separator));
}

#[test]
fn find_action_recurses_submenus() {
    let menu = sample_menu();
    assert_eq!(menu.find_action(MenuId(1)).unwrap().label, "Open");
    assert_eq!(menu.find_action(MenuId(2)).unwrap().label, "Quit");
    assert_eq!(menu.find_action(MenuId(3)).unwrap().label, "Toggle");
    assert!(menu.find_action(MenuId(99)).is_none());
}

#[test]
fn is_enabled_reflects_flag_and_defaults_true_for_unknown() {
    let menu = sample_menu();
    assert!(menu.is_enabled(MenuId(1)));
    assert!(!menu.is_enabled(MenuId(2)));
    assert!(menu.is_enabled(MenuId(99)));
}

#[test]
fn action_builders_set_their_fields() {
    let a: MenuAction<Accel> = MenuAction::new(MenuId(5), "Save");
    assert!(a.enabled);
    assert!(!a.checked);
    assert!(a.accelerator.is_none());
    let a = a.accelerator(Accel { meta: true, key: "s".into() }).checked(true).enabled(false);
    assert_eq!(a.id, MenuId(5));
    assert_eq!(a.label, "Save");
    assert_eq!(a.accelerator, Some(Accel { meta: true, key: "s".into() }));
    assert!(a.checked);
    assert!(!a.enabled);
}

#[test]
fn first_match_wins_depth_first() {
    let inner: Menu<Accel> = Menu::new().action(MenuAction::new(MenuId(7), "Inner"));
    let menu = Menu::new()
        .separator()
        .submenu("Sub", inner)
        .action(MenuAction::new(MenuId(7), "Outer"));
    assert_eq!(menu.find_action(MenuId(7)).unwrap().label, "Inner");
    let MenuItem::Submenu(s) = &menu.items()[1] else {
        unreachable!()
    };
    assert!(s.enabled);
    let empty: Menu<Accel> = Menu::default();
    assert!(empty.items().is_empty());
    assert!(empty.is_enabled(MenuId(7)));
}

#[test]
fn clone_copies_the_whole_tree() {
    let menu = sample_menu();
    let copy = menu.clone();
    assert_eq!(copy.items().len(), 2);
    assert_eq!(copy.find_action(MenuId(1)).unwrap().accelerator, Some(Accel { meta: true, key: "o".into() }));
    assert!(!copy.is_enabled(MenuId(2)));
    assert!(copy.find_action(MenuId(3)).unwrap().checked);
    let MenuItem::Submenu(file) = &copy.items()[0] else {
        unreachable!()
    };
    assert_eq!(file.label, "File");
    assert!(matches!(file.menu.items()[1], MenuItem::Separator));
    let item = copy.items()[1].clone();
    assert!(matches!(item, MenuItem::Action(ref a) if a.label == "Toggle"));
}
