use slate_framework::hit_test::{CursorStyle, HitRegion, HitTestList};
use slate_framework::types::ElementId;

#[derive(Clone, Copy, Debug)]
struct Rect {
    x: f32,
    y: f32,
    w: f32,
    h: f32,
}

impl Rect {
    fn contains(&self, p: (f32, f32)) -> bool {
        p.0 >= self.x && p.0 < self.x + self.w && p.1 >= self.y && p.1 < self.y + self.h
    }
}

fn region(id: u64, x: f32, y: f32, w: f32, h: f32) -> HitRegion<Rect> {
    HitRegion::new(ElementId::from_raw(id), Rect { x, y, w, h }, 0)
}

fn at(p: (f32, f32)) -> impl Fn(&Rect) -> bool {
    move |r: &Rect| r.contains(p)
}

#[test]
fn hit_test_empty_list() {
    let list: HitTestList<Rect> = HitTestList::new();
    assert!(list.hit_test(at((50.0, 50.0))).is_none());
    assert!(list.hit_test_all(at((50.0, 50.0))).is_empty());
}

#[test]
fn hit_test_single_region() {
    let mut list = HitTestList::new();
    list.push(region(1, 0.0, 0.0, 100.0, 100.0));
    let result = list.hit_test(at((50.0, 50.0)));
    assert!(result.is_some());
    assert_eq!(result.unwrap().element_id, ElementId::from_raw(1));
    assert!(list.hit_test(at((150.0, 50.0))).is_none());
}

#[test]
fn hit_test_overlapping_topmost_wins() {
    let mut list = HitTestList::new();
    list.push(region(1, 0.0, 0.0, 100.0, 100.0));
    list.push(region(2, 25.0, 25.0, 50.0, 50.0));
    let result = list.hit_test(at((50.0, 50.0)));
    assert_eq!(result.unwrap().element_id, ElementId::from_raw(2));
    let result = list.hit_test(at((10.0, 10.0)));
    assert_eq!(result.unwrap().element_id, ElementId::from_raw(1));
}

#[test]
fn hit_test_all_returns_all_under_point() {
    let mut list = HitTestList::new();
    list.push(region(1, 0.0, 0.0, 100.0, 100.0).with_opaque(false));
    list.push(region(2, 25.0, 25.0, 50.0, 50.0).with_opaque(false));
    let results = list.hit_test_all(at((50.0, 50.0)));
    assert_eq!(results.len(), 2);
    assert_eq!(results[0].element_id, ElementId::from_raw(2));
    assert_eq!(results[1].element_id, ElementId::from_raw(1));
}

#[test]
fn hit_test_all_stops_at_opaque() {
    let mut list = HitTestList::new();
    list.push(region(1, 0.0, 0.0, 100.0, 100.0));
    list.push(region(2, 25.0, 25.0, 50.0, 50.0).with_opaque(true));
    let results = list.hit_test_all(at((50.0, 50.0)));
    assert_eq!(results.len(), 1);
    assert_eq!(results[0].element_id, ElementId::from_raw(2));
}

#[test]
fn hit_test_cursor_style() {
    let mut list = HitTestList::new();
    list.push(region(1, 0.0, 0.0, 100.0, 100.0).with_cursor(CursorStyle::Pointer));
    let result = list.hit_test(at((50.0, 50.0))).unwrap();
    assert_eq!(result.cursor, CursorStyle::Pointer);
    assert_eq!(list.cursor_at(at((50.0, 50.0))), CursorStyle::Pointer);
    assert_eq!(list.cursor_at(at((500.0, 50.0))), CursorStyle::Arrow);
}

#[test]
fn hit_test_z_order_auto_assigned() {
    let mut list = HitTestList::new();
    list.push(region(1, 0.0, 0.0, 100.0, 100.0));
    list.push(region(2, 0.0, 0.0, 100.0, 100.0));
    list.push(region(3, 0.0, 0.0, 100.0, 100.0));
    // The z-index shows through the order in which the regions are asked:
    // topmost (highest z) first.
    let asked = std::cell::Cell::new(0);
    let results = list.hit_test_all(|_r: &Rect| {
        asked.set(asked.get() + 1);
        false
    });
    assert!(results.is_empty());
    assert_eq!(asked.get(), 3);
    let all = {
        let mut l = HitTestList::new();
        l.push(region(1, 0.0, 0.0, 100.0, 100.0).with_opaque(false));
        l.push(region(2, 0.0, 0.0, 100.0, 100.0).with_opaque(false));
        l.push(region(3, 0.0, 0.0, 100.0, 100.0).with_opaque(false));
        l.hit_test_all(at((1.0, 1.0)))
    };
    let ids: Vec<u64> = all.iter().map(|r| r.element_id.0).collect();
    assert_eq!(ids, vec![3, 2, 1]);
}

#[test]
fn hit_test_clear_resets() {
    let mut list = HitTestList::new();
    list.push(region(1, 0.0, 0.0, 100.0, 100.0));
    assert!(!list.is_empty());
    list.clear();
    assert!(list.is_empty());
    assert_eq!(list.len(), 0);
}

#[test]
fn contains_reports_registered_ids_only() {
    let mut list = HitTestList::default();
    list.push(region(7, 0.0, 0.0, 1.0, 1.0));
    assert!(list.contains(ElementId::from_raw(7)));
    assert!(!list.contains(ElementId::from_raw(8)));
    assert_eq!(CursorStyle::default(), CursorStyle::Arrow);
}
