use quickjs_sys::droppable::DroppableValue;

#[test]
fn clean_up_sees_the_last_value() {
    let mut seen = vec![];
    let mut guard = DroppableValue::new(3, |x: &mut i32| {
        seen.push(*x);
        *x = 0;
    });
    assert_eq!(*guard.deref(), 3);
    *guard.deref_mut() += 4;
    assert_eq!(guard.finish(), 0);
    assert_eq!(seen, vec![7]);
}
