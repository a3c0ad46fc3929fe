use std::cell::Cell;

use slate_framework::reactive_value::Reactive;

#[test]
fn static_resolves_to_value() {
    let r: Reactive<f32, fn() -> f32> = 8.0.into();
    assert_eq!(r.resolve(), 8.0);
}

#[test]
fn dynamic_closure_reresolves() {
    let r = Reactive::dynamic(|| 3.0_f32);
    assert_eq!(r.resolve(), 3.0);
}

#[test]
fn dynamic_reads_the_closure_on_every_resolve() {
    let source = Cell::new(1u32);
    let r = Reactive::dynamic(|| source.get());
    assert_eq!(r.resolve(), 1);
    source.set(5);
    assert_eq!(r.resolve(), 5);
}

#[test]
fn clone_of_dynamic_shares_the_closure() {
    let source = Cell::new(2u32);
    let r = Reactive::dynamic(|| source.get());
    let c = r.clone();
    source.set(9);
    assert_eq!(c.resolve(), 9);
    let s: Reactive<String, fn() -> String> = String::from("x").into();
    assert_eq!(s.clone().resolve(), "x");
}
