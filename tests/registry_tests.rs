use canvas_engine::registry::NodeRegistry;

#[test]
fn upsert_same_id_twice_keeps_one_node_with_second_values() {
    let mut r: NodeRegistry<(i64, i64)> = NodeRegistry::new();
    r.upsert(4, (1, 2));
    r.upsert(4, (30, 40));
    assert_eq!(r.len(), 1);
    assert_eq!(r.get(4), Some(&(30, 40)));
}

#[test]
fn upsert_new_ids_append_slots_in_order() {
    let mut r: NodeRegistry<&str> = NodeRegistry::with_capacity(8);
    r.upsert(9, "a");
    r.upsert(2, "b");
    r.upsert(9, "c");
    assert_eq!(r.len(), 2);
    assert_eq!(r.id_at(0), 9);
    assert_eq!(r.id_at(1), 2);
    assert_eq!(*r.node_at(0), "c");
    assert_eq!(r.slot_of(2), Some(1));
    assert_eq!(r.slot_of(5), None);
    assert_eq!(r.get(5), None);
}

#[test]
fn set_node_at_and_clear() {
    let mut r: NodeRegistry<u8> = NodeRegistry::new();
    r.upsert(1, 10);
    r.set_node_at(0, 11);
    assert_eq!(r.get(1), Some(&11));
    r.clear();
    assert_eq!(r.len(), 0);
    assert_eq!(r.get(1), None);
    r.upsert(1, 12);
    assert_eq!(r.slot_of(1), Some(0));
}
