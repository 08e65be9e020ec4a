use patch_browser::patch::{Patch, DATA_MAX};

#[test]
fn new_patch_keeps_its_fields() {
    let p = Patch::new(3, 0, 1, "BrightLead".to_string(), "Lead".to_string()).unwrap();
    assert_eq!(p.program_change(), 3);
    assert_eq!(p.bank_msb(), 0);
    assert_eq!(p.bank_lsb(), 1);
    assert_eq!(p.name(), "BrightLead");
    assert_eq!(p.category(), "Lead");
}

#[test]
fn new_patch_refuses_numbers_above_seven_bits() {
    assert_eq!(DATA_MAX, 127);
    assert!(Patch::new(128, 0, 0, "A".to_string(), "B".to_string()).is_none());
    assert!(Patch::new(0, 128, 0, "A".to_string(), "B".to_string()).is_none());
    assert!(Patch::new(0, 0, 128, "A".to_string(), "B".to_string()).is_none());
    assert!(Patch::new(255, 255, 255, "A".to_string(), "B".to_string()).is_none());
    assert!(Patch::new(127, 127, 127, "A".to_string(), "B".to_string()).is_some());
}

#[test]
fn new_patch_refuses_empty_name_but_not_empty_category() {
    assert!(Patch::new(1, 2, 3, String::new(), "B".to_string()).is_none());
    let p = Patch::new(1, 2, 3, "A".to_string(), String::new()).unwrap();
    assert_eq!(p.category(), "");
}

#[test]
fn patches_are_equal_by_value() {
    let a = Patch::new(1, 2, 3, "A".to_string(), "B".to_string()).unwrap();
    let b = Patch::new(1, 2, 3, "A".to_string(), "B".to_string()).unwrap();
    assert_eq!(a, b);
    assert_ne!(a, Patch::new(1, 2, 4, "A".to_string(), "B".to_string()).unwrap());
    assert_ne!(a, Patch::new(1, 2, 3, "a".to_string(), "B".to_string()).unwrap());
    assert_ne!(a, Patch::new(1, 2, 3, "A".to_string(), "b".to_string()).unwrap());
}

#[test]
fn clone_is_an_equal_patch() {
    let a = Patch::new(5, 6, 7, "Name".to_string(), "Cat".to_string()).unwrap();
    let b = a.clone();
    assert_eq!(a, b);
    assert_eq!(b.program_change(), 5);
    assert_eq!(b.bank_msb(), 6);
    assert_eq!(b.bank_lsb(), 7);
    assert_eq!(b.name(), "Name");
    assert_eq!(b.category(), "Cat");
}
