use reality::{Thunk, BUILD, UPDATE};

#[test]
fn thunk_test() {}

#[test]
fn thunk_holds_its_value() {
    let t = Thunk::new(5u32);
    assert_eq!(*t.thunk(), 5);
    assert_eq!(UPDATE, 1);
    assert_eq!(BUILD, 2);
}
