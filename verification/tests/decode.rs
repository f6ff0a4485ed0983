use starlume::merge::{decode_ini, ini_encoding, ini_lines, DecodeError, IniEncoding};

#[test]
fn decode_utf16_le_strips_double_bom() {
    // FF FE encoding BOM, then a decoded U+FEFF, then 'A'.
    let bytes = [0xFF, 0xFE, 0xFF, 0xFE, 0x41, 0x00];
    assert_eq!(decode_ini(&bytes).unwrap(), vec!["A".to_string()]);
}

#[test]
fn decode_utf16_be_with_bom() {
    let mut bytes = vec![0xFE, 0xFF];
    for ch in "key=Wert".encode_utf16() {
        bytes.extend_from_slice(&ch.to_be_bytes());
    }
    assert_eq!(decode_ini(&bytes).unwrap(), vec!["key=Wert".to_string()]);
}

#[test]
fn decode_utf8_with_bom() {
    let mut bytes = vec![0xEF, 0xBB, 0xBF];
    bytes.extend_from_slice("key=Wert\n".as_bytes());
    assert_eq!(decode_ini(&bytes).unwrap(), vec!["key=Wert".to_string()]);
}

#[test]
fn decode_utf8_no_bom() {
    let decoded = decode_ini("a=1\nb=2\n".as_bytes()).unwrap();
    assert_eq!(decoded, vec!["a=1".to_string(), "b=2".to_string()]);
}

#[test]
fn decode_malformed_utf8_is_an_error() {
    let bytes = [b'a', b'=', 0xFF, 0x00, b'\n'];
    let err = decode_ini(&bytes).unwrap_err();
    assert_eq!(err, DecodeError::Malformed(IniEncoding::Utf8));
    assert_eq!(err.message(), "UTF-8 decoding produced errors");
}

#[test]
fn decode_utf16_le_text_with_crlf() {
    let mut bytes = vec![0xFF, 0xFE];
    for ch in "a=1\r\nb=ü\r\n".encode_utf16() {
        bytes.extend_from_slice(&ch.to_le_bytes());
    }
    assert_eq!(
        decode_ini(&bytes).unwrap(),
        vec!["a=1".to_string(), "b=ü".to_string()]
    );
}

#[test]
fn encoding_detected_by_bom() {
    assert_eq!(ini_encoding(&[0xFF, 0xFE, 0x41]), (IniEncoding::Utf16Le, 2));
    assert_eq!(ini_encoding(&[0xFE, 0xFF]), (IniEncoding::Utf16Be, 2));
    assert_eq!(ini_encoding(&[0xEF, 0xBB, 0xBF, b'a']), (IniEncoding::Utf8, 3));
    assert_eq!(ini_encoding(b"a=1"), (IniEncoding::Utf8, 0));
    assert_eq!(ini_encoding(&[]), (IniEncoding::Utf8, 0));
}

#[test]
fn ini_lines_drop_one_residual_bom() {
    assert_eq!(ini_lines("\u{feff}a=1\nb=2"), vec!["a=1".to_string(), "b=2".to_string()]);
    assert_eq!(ini_lines("\u{feff}\u{feff}x"), vec!["\u{feff}x".to_string()]);
    assert!(ini_lines("").is_empty());
}

#[test]
fn decoding_the_written_bytes_gives_the_lines_back() {
    for src in [vec![], vec!["a=1", "", "ключ=значение", "x=y\rz"]] {
        let lines: Vec<String> = src.iter().map(|s| s.to_string()).collect();
        let bytes = starlume::merge::encode_utf8_bom(&lines);
        assert_eq!(decode_ini(&bytes).unwrap(), lines);
    }
}
