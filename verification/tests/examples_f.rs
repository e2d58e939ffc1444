use macro_workshop::f;

#[test]
fn hello_world_matches_no_arm() {
    assert_eq!(f(b"Hello, world!"), None);
}

#[test]
fn one_byte_is_returned() {
    assert_eq!(f(&[7]), Some(7));
}

#[test]
fn two_bytes_are_added() {
    assert_eq!(f(&[1, 2]), Some(3));
    assert_eq!(f(&[]), None);
}
