use kon3::elements::layers;
use kon3::elements::SplitType;
use kon3::shared::LockError;
use kon3::shared::Shared;
use kon3::values::computed;
use kon3::values::ValueSource;
use kon3::InvalidateCache;

#[test]
fn a_constant_gives_itself() {
    assert_eq!(SplitType::Vertical.value().unwrap(), SplitType::Vertical);
    assert_eq!(String::from("text").value().unwrap(), "text");
}

#[test]
fn a_computed_value_is_computed_on_every_read() {
    let runs = Shared::new(0u32);
    let counter = runs.clone();
    let source = computed(move || {
        let next = *counter.read().unwrap().get() + 1;
        counter.write().unwrap().set(next);
        next * 10
    });
    assert_eq!(source.value().unwrap(), 10);
    assert_eq!(source.value().unwrap(), 20);
    assert_eq!(source.value().unwrap(), 30);
    assert_eq!(*runs.read().unwrap().get(), 3);
}

#[test]
fn a_shared_source_gives_what_the_cell_holds_now() {
    let cell = Shared::new(SplitType::Horizontal);
    let source = cell.clone();
    assert_eq!(source.value().unwrap(), SplitType::Horizontal);
    cell.write().unwrap().set(SplitType::Adaptive);
    assert_eq!(source.value().unwrap(), SplitType::Adaptive);
}

#[test]
fn only_a_handle_to_the_cell_depends_on_it() {
    let cell = Shared::new(1u64);
    let other = Shared::new(1u64);
    assert!(cell.clone().invalidate_cache(cell.addr()));
    assert!(!other.invalidate_cache(cell.addr()));
    assert!(!SplitType::Adaptive.invalidate_cache(cell.addr()));
    assert!(!String::from("x").invalidate_cache(cell.addr()));
    assert!(!computed(|| 1u8).invalidate_cache(cell.addr()));
}

#[test]
fn layers_drop_something_exactly_when_a_child_does() {
    let a = Shared::new(0u8);
    let b = Shared::new(0u8);
    let c = Shared::new(0u8);
    let pair = layers((a.clone(), b.clone()));
    assert!(pair.invalidate_cache(a.addr()));
    assert!(pair.invalidate_cache(b.addr()));
    assert!(!pair.invalidate_cache(c.addr()));
    let both = layers((a.clone(), a.clone()));
    assert!(both.invalidate_cache(a.addr()));
    let triple = layers((a.clone(), b.clone(), c.clone()));
    assert!(triple.invalidate_cache(c.addr()));
    assert!(!triple.invalidate_cache(Shared::new(0u8).addr()));
    let nested = layers((layers((b.clone(), c.clone())), a.clone()));
    assert!(nested.invalidate_cache(c.addr()));
    assert!(nested.invalidate_cache(a.addr()));
}

#[test]
fn a_shared_source_reports_a_lock_it_cannot_take() {
    let cell = Shared::new(5u64);
    let source = cell.clone();
    {
        let _writer = cell.write().unwrap();
        assert_eq!(source.value(), Err(LockError::Busy));
    }
    assert_eq!(source.value(), Ok(5));
}
