// Tests for the plain data types.
use rust_blob::types::{Color, Point, Vector};

#[test]
fn test_hex_code() {
    let c = Color::from_hex("ff0055");
    assert_eq!(c, Color::new(255, 0, 0x55));
}

#[test]
fn test_hex_code_lower_upper() {
    assert_eq!(Color::from_hex("A1b2C3"), Color::new(0xa1, 0xb2, 0xc3));
}

#[test]
fn test_point_and_vector_new() {
    let p = Point::new(-3, 7);
    assert_eq!((p.x, p.y), (-3, 7));
    let v = Vector::new(5, -9);
    assert_eq!((v.x, v.y), (5, -9));
}
