use c_getpass::secret::{decode_secret, secret_buffer};

fn filled(max_len: usize, bytes: &[u8]) -> Vec<u8> {
    let mut buf = secret_buffer(max_len);
    for (k, b) in bytes.iter().enumerate() {
        buf[k] = *b;
    }
    buf
}

#[test]
fn buffer_is_fresh_and_sized() {
    let buf = secret_buffer(5);
    assert_eq!(buf.len(), 6);
    assert!(buf.iter().all(|b| *b == 0));
}

#[test]
fn exact_fit_ascii_passes_through() {
    let buf = filled(5, b"hello");
    let s = decode_secret(5, buf, 5).unwrap();
    assert_eq!(s, "hello");
}

#[test]
fn exact_fit_multibyte_passes_through() {
    // two copies of U+00E9, four bytes in all
    let buf = filled(4, &[0xc3, 0xa9, 0xc3, 0xa9]);
    let s = decode_secret(4, buf, 4).unwrap();
    assert_eq!(s, "\u{e9}\u{e9}");
}

#[test]
fn split_character_fails_to_decode() {
    // U+00E9 encodes as 0xc3 0xa9; a bound of one byte keeps only 0xc3
    let buf = filled(1, &[0xc3]);
    let e = decode_secret(1, buf, 1).unwrap_err();
    assert_eq!(e.bytes, vec![0xc3]);
}

#[test]
fn split_second_character_fails_to_decode() {
    let buf = filled(3, &[0xc3, 0xa9, 0xc3]);
    let e = decode_secret(3, buf, 3).unwrap_err();
    assert_eq!(e.bytes, vec![0xc3, 0xa9, 0xc3]);
}

#[test]
fn result_length_never_exceeds_bound() {
    let buf = filled(5, b"hello");
    let s = decode_secret(5, buf, 5).unwrap();
    assert!(s.len() <= 5);

    let buf = filled(2, &[0xc3, 0xa9]);
    let s = decode_secret(2, buf, 2).unwrap();
    assert!(s.len() <= 2);
}

#[test]
fn reported_count_is_clamped_to_bound() {
    // the reader can never legitimately report more than max_len; a larger
    // count must not make the call read past the bound
    let buf = filled(3, b"abc");
    let s = decode_secret(3, buf, 10).unwrap();
    assert_eq!(s, "abc");
}

#[test]
fn empty_read_gives_empty_text() {
    let buf = secret_buffer(8);
    let s = decode_secret(8, buf, 0).unwrap();
    assert_eq!(s, "");
}

#[test]
fn no_residue_across_calls() {
    let buf = filled(6, b"secret");
    let s = decode_secret(6, buf, 6).unwrap();
    assert_eq!(s, "secret");

    // a second, shorter read through a fresh buffer must carry nothing over
    let second = secret_buffer(6);
    assert!(second.iter().all(|b| *b == 0));
    let buf = filled(6, b"hi");
    let s = decode_secret(6, buf, 2).unwrap();
    assert_eq!(s, "hi");
}

#[test]
fn error_carries_exactly_the_payload() {
    // four payload bytes, the last two the split head of U+1F496
    let buf = filled(4, &[0x61, 0x62, 0xf0, 0x9f]);
    let e = decode_secret(4, buf, 4).unwrap_err();
    assert_eq!(e.bytes, vec![0x61, 0x62, 0xf0, 0x9f]);
}
