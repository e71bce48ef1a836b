use tzcraft::write::{encode_char, write_padded, write_signed_i128, write_u128, Buf, Write};

#[test]
fn buf_writes_and_reports_capacity() {
    let mut storage = [0u8; 8];
    let mut buf = Buf::new(&mut storage);
    assert!(buf.is_empty());
    assert_eq!(buf.capacity(), 8);
    buf.write_str("abc").unwrap();
    buf.write_byte(b'd').unwrap();
    buf.write_char('é').unwrap();
    assert_eq!(buf.len(), 6);
    assert_eq!(buf.as_str(), "abcdé");
    assert!(buf.write_str("xyz").is_err());
    assert_eq!(buf.as_str(), "abcdé");
    assert!(buf.write_bytes(&[0xff]).is_err());
    assert_eq!(buf.as_str(), "abcdé");
    buf.clear();
    assert!(buf.is_empty());
}

#[test]
fn padded_and_u128() {
    let mut storage = [0u8; 64];
    let mut buf = Buf::new(&mut storage);
    write_padded(&mut buf, 42, 4).unwrap();
    write_u128(&mut buf, 0).unwrap();
    write_u128(&mut buf, u128::MAX).unwrap();
    assert_eq!(buf.as_str(), "00420340282366920938463463374607431768211455");
}

// Further cases.

#[test]
fn buf_rejects_invalid_utf8_and_exact_fit_works() {
    let mut storage = [0u8; 4];
    let mut buf = Buf::new(&mut storage);
    // A lone continuation byte is not text.
    assert!(buf.write_bytes(&[0x80]).is_err());
    assert!(buf.is_empty());
    buf.write_bytes("ab".as_bytes()).unwrap();
    write_signed_i128(&mut buf, -7).unwrap();
    assert_eq!(buf.as_bytes(), b"ab-7");
    assert!(buf.write_byte(b'x').is_err());
    assert_eq!(buf.as_str(), "ab-7");
}

#[test]
fn encode_char_matches_std() {
    for c in ['a', 'é', '€', '𝄞'] {
        let mut tmp = [0u8; 4];
        assert_eq!(encode_char(c), c.encode_utf8(&mut tmp).as_bytes().to_vec());
    }
}
