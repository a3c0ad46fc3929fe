use slate_framework::persistence::{
    restore_loaded, restore_options, InMemoryStore, PersistenceStore, WindowGeometry, WindowOptions,
};

fn geom() -> WindowGeometry {
    WindowGeometry { position: Some((120, 80)), size: (1024, 768), maximized: false }
}

#[test]
fn load_missing_key_is_none() {
    let store = InMemoryStore::new();
    assert_eq!(store.load("absent"), None);
}

#[test]
fn save_then_load_round_trips() {
    let mut store = InMemoryStore::new();
    store.save("main", geom());
    assert_eq!(store.load("main"), Some(geom()));
}

#[test]
fn save_overwrites_existing_key() {
    let mut store = InMemoryStore::new();
    store.save("main", geom());
    let updated = WindowGeometry { maximized: true, ..geom() };
    store.save("main", updated);
    assert_eq!(store.load("main"), Some(updated));
}

#[test]
fn keys_are_independent() {
    let mut store = InMemoryStore::new();
    store.save("a", geom());
    assert_eq!(store.load("b"), None);
    assert_eq!(store.load("a"), Some(geom()));
}

#[test]
fn saving_one_key_leaves_another_untouched() {
    let mut store = InMemoryStore::default();
    let other = WindowGeometry { position: None, size: (10, 20), maximized: true };
    store.save("a", geom());
    store.save("b", other);
    store.save("a", WindowGeometry { size: (1, 1), ..geom() });
    assert_eq!(store.load("b"), Some(other));
    assert_eq!(store.load("a").map(|g| g.size), Some((1, 1)));
}

#[test]
fn apply_overrides_position_size_and_maximized() {
    let mut opts = WindowOptions { size: (800, 600), position: None, maximized: false, ..Default::default() };
    let geom = WindowGeometry { position: Some((42, 17)), size: (1280, 720), maximized: true };
    geom.apply_to(&mut opts);
    assert_eq!(opts.position, Some((42, 17)));
    assert_eq!(opts.size, (1280, 720));
    assert!(opts.maximized);
}

#[test]
fn apply_with_unknown_position_keeps_existing_position() {
    let mut opts = WindowOptions { position: Some((10, 10)), ..Default::default() };
    let geom = WindowGeometry { position: None, size: (640, 480), maximized: false };
    geom.apply_to(&mut opts);
    assert_eq!(opts.position, Some((10, 10)));
    assert_eq!(opts.size, (640, 480));
}

#[test]
fn apply_preserves_unrelated_options() {
    let mut opts = WindowOptions {
        title: "Keep Me".into(),
        min_size: Some((320, 240)),
        resizable: true,
        persistence_key: Some("main".into()),
        ..Default::default()
    };
    WindowGeometry { position: Some((0, 0)), size: (900, 700), maximized: false }.apply_to(&mut opts);
    assert_eq!(opts.title, "Keep Me");
    assert_eq!(opts.min_size, Some((320, 240)));
    assert!(opts.resizable);
    assert_eq!(opts.persistence_key.as_deref(), Some("main"));
}

fn keyed_opts() -> WindowOptions {
    WindowOptions { size: (800, 600), position: None, persistence_key: Some("main".into()), ..Default::default() }
}

fn saved() -> WindowGeometry {
    WindowGeometry { position: Some((200, 150)), size: (1100, 850), maximized: true }
}

#[test]
fn no_store_leaves_options_unchanged() {
    let mut opts = keyed_opts();
    restore_options::<InMemoryStore>(None, &mut opts);
    assert_eq!(opts.size, (800, 600));
    assert_eq!(opts.position, None);
    assert!(!opts.maximized);
}

#[test]
fn store_without_key_leaves_options_unchanged() {
    let mut store = InMemoryStore::new();
    store.save("main", saved());
    let mut opts = WindowOptions { size: (800, 600), persistence_key: None, ..Default::default() };
    restore_options(Some(&store), &mut opts);
    assert_eq!(opts.size, (800, 600));
}

#[test]
fn key_present_but_nothing_saved_leaves_options_unchanged() {
    let store = InMemoryStore::new();
    let mut opts = keyed_opts();
    restore_options(Some(&store), &mut opts);
    assert_eq!(opts.size, (800, 600));
    assert_eq!(opts.position, None);
}

#[test]
fn saved_geometry_is_restored_onto_options() {
    let mut store = InMemoryStore::new();
    store.save("main", saved());
    let mut opts = keyed_opts();
    restore_options(Some(&store), &mut opts);
    assert_eq!(opts.position, Some((200, 150)));
    assert_eq!(opts.size, (1100, 850));
    assert!(opts.maximized);
}

#[test]
fn restore_loaded_none_is_a_no_op() {
    let mut opts = keyed_opts();
    restore_loaded(None, &mut opts);
    assert_eq!(opts, keyed_opts());
    restore_loaded(Some(saved()), &mut opts);
    assert_eq!(opts.size, (1100, 850));
    assert_eq!(opts.persistence_key.as_deref(), Some("main"));
}
