use up4::text::c_string;

#[test]
fn a_c_string_ends_at_its_first_zero() {
    assert_eq!(c_string(b"6.18.44\0\0junk"), "6.18.44");
    assert_eq!(c_string(b"x86_64"), "x86_64", "a field may be full");
    assert_eq!(c_string(b""), "");
    assert_eq!(c_string(b"\0x"), "");
    assert_eq!(c_string(&[0x61, 0xff, 0x62, 0]), "a\u{fffd}b");
}
