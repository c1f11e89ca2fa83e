use hepha::annotations::{
    add_propagation, hepha_abstract_value, hepha_get_model_field, hepha_has_tag,
    remove_propagation, TagPropagation, TAG_PROPAGATION_ALL,
};

#[test]
fn test_rem_prop() {
    assert!(remove_propagation(0 | TagPropagation::Add.into_set(), TagPropagation::Add) == 0);
    assert!(
        remove_propagation(TAG_PROPAGATION_ALL, TagPropagation::SuperComponent)
            & TagPropagation::SuperComponent.into_set()
            == 0
    )
}

#[test]
fn test_add_prop() {
    assert!(add_propagation(TAG_PROPAGATION_ALL, TagPropagation::Add) == TAG_PROPAGATION_ALL);
    assert!(
        add_propagation(0, TagPropagation::SuperComponent)
            == TagPropagation::SuperComponent.into_set()
    )
}

#[test]
fn into_set_bit_positions() {
    assert_eq!(TagPropagation::Add.into_set(), 1);
    assert_eq!(TagPropagation::SubComponent.into_set(), 1u128 << 31);
    assert_eq!(TagPropagation::UninterpretedCall.into_set(), 1u128 << 35);
}

#[test]
fn add_after_remove_is_union() {
    let s: u128 = TagPropagation::Mul.into_set() | TagPropagation::Add.into_set();
    let t = TagPropagation::Add;
    assert_eq!(add_propagation(remove_propagation(s, t), t), s);
    let u = TagPropagation::Shl;
    assert_eq!(add_propagation(remove_propagation(s, u), u), s | u.into_set());
}

#[test]
fn remove_after_add_is_difference() {
    let s: u128 = TagPropagation::Mul.into_set() | TagPropagation::Add.into_set();
    let t = TagPropagation::Add;
    assert_eq!(remove_propagation(add_propagation(s, t), t), TagPropagation::Mul.into_set());
    let u = TagPropagation::Neg;
    assert_eq!(remove_propagation(add_propagation(s, u), u), s);
}

#[test]
fn annotations_are_inert() {
    assert_eq!(hepha_abstract_value(7u32), 7);
    assert!(!hepha_has_tag::<u32, u8>(&3));
    assert_eq!(hepha_get_model_field(1u8, "f", 9i64), 9);
}
