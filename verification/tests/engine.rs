use game_core::engine::Resources;
use std::any::TypeId;

#[test]
fn resources_register_and_get() {
    let mut r: Resources<i32> = Resources::new();
    let a = TypeId::of::<u8>();
    let b = TypeId::of::<String>();
    assert!(!r.contains(&a));
    r.register(a, 7).register(b, 9);
    assert!(r.contains(&a));
    assert!(r.contains(&b));
    assert_eq!(*r.get(&a), 7);
    assert_eq!(*r.get(&b), 9);
    assert!(!r.contains(&TypeId::of::<bool>()));
}
