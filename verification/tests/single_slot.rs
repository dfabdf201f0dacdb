use genref::generational::{GenVariant, Handle, MyVariant};

#[test]
fn new_slot_starts_at_generation_zero() {
    let slot = GenVariant::new(MyVariant::Int(5));
    assert_eq!(slot.handle(), Handle { generation: 0 });
    assert!(matches!(slot.get(slot.handle()), Some(MyVariant::Int(5))));
}

#[test]
fn set_invalidates_earlier_handles() {
    let mut slot = GenVariant::new(MyVariant::Int(5));
    let before = slot.handle();
    slot.set(MyVariant::Text(String::from("five")));
    assert!(slot.get(before).is_none());
    let after = slot.handle();
    assert_eq!(after, Handle { generation: 1 });
    match slot.get(after) {
        Some(MyVariant::Text(text)) => assert_eq!(text, "five"),
        other => panic!("unexpected payload: {:?}", other),
    }
}

#[test]
fn set_bumps_even_for_an_equal_payload() {
    let mut slot = GenVariant::new(MyVariant::Bool(true));
    let before = slot.handle();
    slot.set(MyVariant::Bool(true));
    assert!(slot.get(before).is_none());
    assert!(matches!(slot.get(slot.handle()), Some(MyVariant::Bool(true))));
}

#[test]
fn generation_counts_the_replacements() {
    let mut slot = GenVariant::new(MyVariant::Int(0));
    for round in 1..=10 {
        slot.set(MyVariant::Int(round));
        assert_eq!(slot.handle().generation, round as u32);
    }
    assert!(slot.get(Handle { generation: 9 }).is_none());
    assert!(matches!(slot.get(Handle { generation: 10 }), Some(MyVariant::Int(10))));
}

#[test]
fn a_handle_of_a_later_generation_does_not_resolve() {
    let slot = GenVariant::new(MyVariant::Int(1));
    assert!(slot.get(Handle { generation: 1 }).is_none());
}

#[test]
fn single_slot_handles_are_plain_values() {
    let a = Handle { generation: 2 };
    let b = a;
    assert_eq!(a, b);
    assert_ne!(a, Handle { generation: 3 });
    assert_eq!(format!("{:?}", a), "Handle { generation: 2 }");
}
