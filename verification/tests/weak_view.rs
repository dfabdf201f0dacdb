use genref::dynvec::{DynVec, Handle};
use genref::weak::Elem;

#[test]
fn view_of_a_live_element_dereferences() {
    let mut arena = DynVec::new();
    let h = arena.insert(String::from("Root"));
    let view = Elem::new(&arena, h).unwrap();
    assert_eq!(*view, "Root");
    assert_eq!(view.len(), 4);
    assert_eq!(view.handle(), h);
    assert_eq!(view.parent().len(), 1);
}

#[test]
fn view_is_refused_for_a_stale_handle() {
    let mut arena = DynVec::new();
    let h = arena.insert(1);
    arena.remove(h);
    assert!(Elem::new(&arena, h).is_none());
    assert!(Elem::new(&arena, Handle { idx: 5, generation: 0 }).is_none());
}

#[test]
fn view_survives_changes_to_other_slots() {
    let mut arena = DynVec::new();
    let h = arena.insert("kept");
    let other = arena.insert("other");
    assert_eq!(*Elem::new(&arena, h).unwrap(), "kept");
    arena.remove(other);
    arena.insert("again");
    let view = Elem::new(&arena, h).unwrap();
    assert_eq!(*view, "kept");
}

#[test]
fn view_cannot_be_had_after_removal_of_its_slot() {
    let mut arena = DynVec::new();
    let h = arena.insert("gone");
    assert_eq!(*Elem::new(&arena, h).unwrap(), "gone");
    assert_eq!(arena.remove(h), Some("gone"));
    assert!(Elem::new(&arena, h).is_none());
    let reused = arena.insert("new");
    assert!(Elem::new(&arena, h).is_none());
    assert_eq!(*Elem::new(&arena, reused).unwrap(), "new");
}

#[test]
fn view_follows_a_replacement() {
    let mut arena = DynVec::new();
    let h = arena.insert(String::from("Original Content"));
    let h2 = arena.replace(h, String::from("Replaced Content")).unwrap();
    assert!(Elem::new(&arena, h).is_none());
    assert_eq!(*Elem::new(&arena, h2).unwrap(), "Replaced Content");
}
