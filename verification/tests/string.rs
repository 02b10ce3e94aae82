use enbyt::binary::serialize::write_string;

#[test]
fn test_write_string_length() {
    for str in ["", "abc", "Ünïcödé ✓ 日本語 🎉"] {
        let mut buf = Vec::new();
        write_string(&mut buf, str).unwrap();

        let len_bytes = &buf[..2];
        let len = u16::from_be_bytes(len_bytes.try_into().unwrap()) as usize;

        assert_eq!(len, str.len());
    }
}

#[test]
fn test_write_string_value() {
    for str in ["", "abc", "Ünïcödé ✓ 日本語 🎉"] {
        let mut buf = Vec::new();
        write_string(&mut buf, str).unwrap();

        let str_bytes = &buf[2..];
        let str_decoded = String::from_utf8(str_bytes.into());

        assert_eq!(str_decoded, Ok(str.to_string()));
    }
}
