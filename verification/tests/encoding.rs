use shadereye::encoding::b64;

#[test]
fn base64_pads_to_whole_quads() {
    assert_eq!(b64(b""), "");
    assert_eq!(b64(b"h"), "aA==");
    assert_eq!(b64(b"hi"), "aGk=");
    assert_eq!(b64(b"hi!"), "aGkh");
    assert_eq!(b64(&[0xFB, 0xFF, 0xBF]), "+/+/");
}
