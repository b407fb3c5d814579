use raytracer_rs::texture::wrap_index;
use raytracer_rs::RTError;

#[test]
fn wrap_index_wraps_both_ways() {
    assert_eq!(wrap_index(0, 10), 0);
    assert_eq!(wrap_index(25, 10), 5);
    assert_eq!(wrap_index(-1, 10), 9);
    assert_eq!(wrap_index(-10, 10), 0);
    assert_eq!(wrap_index(-23, 10), 7);
    assert_eq!(wrap_index(i32::MIN, 7), 5);
    assert_eq!(wrap_index(7, 4000000000), 7);
}

#[test]
fn error_messages_name_the_kind() {
    assert_eq!(RTError::Error("bad".to_string()).message(), "RTError: bad");
    assert_eq!(RTError::InvalidGeo("short".to_string()).message(), "Invalid Geo Mesh: short");
    let e: RTError = "x".parse::<usize>().unwrap_err().into();
    assert_eq!(e.message(), "invalid digit found in string");
}
