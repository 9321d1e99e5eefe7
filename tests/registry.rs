use witch_hunt::components::ColliderKey;
use witch_hunt::registry::ColliderOwners;

#[test]
fn owners_are_recorded_and_replaced() {
    let a = ColliderKey { index: 1, generation: 0 };
    let b = ColliderKey { index: 1, generation: 1 };
    let mut o = ColliderOwners::new();
    assert_eq!(o.owner(a), None);
    o.insert(a, 10);
    o.insert(b, 11);
    assert_eq!(o.owner(a), Some(10));
    assert_eq!(o.owner(b), Some(11));
    o.insert(a, 12);
    assert_eq!(o.owner(a), Some(12));
    assert_eq!(o.owner(b), Some(11));
}
