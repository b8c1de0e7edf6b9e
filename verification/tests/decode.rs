use matrix_pipeline::decode::{decode, DecodeError};

#[test]
fn well_formed_bytes_are_their_text() {
    assert_eq!(decode(b"2 0\n0 2\n4 4".to_vec()), Ok("2 0\n0 2\n4 4".to_string()));
    assert_eq!(decode(Vec::new()), Ok(String::new()));
    assert_eq!(decode("caf\u{e9} \u{1f600}".as_bytes().to_vec()), Ok("caf\u{e9} \u{1f600}".to_string()));
}

#[test]
fn broken_bytes_give_the_words_of_the_decoder() {
    for bytes in [
        vec![0xffu8],
        vec![b'1', b' ', 0xc3],
        vec![0xe2, 0x82],
        vec![b'a', 0x80, b'b'],
        vec![0xed, 0xa0, 0x80],
        vec![0xc0, 0x80],
        vec![0xf4, 0x90, 0x80, 0x80],
    ] {
        let expected = String::from_utf8(bytes.clone()).unwrap_err().to_string();
        assert_eq!(decode(bytes), Err(DecodeError { detail: expected }));
    }
}

#[test]
fn the_words_of_the_decoder_name_the_place() {
    let e = decode(vec![b'1', b' ', 0xff, b'2']).unwrap_err();
    assert_eq!(e.detail, "invalid utf-8 sequence of 1 bytes from index 2");
    let e = decode(vec![b'1', 0xe2, 0x82]).unwrap_err();
    assert_eq!(e.detail, "incomplete utf-8 byte sequence from index 1");
}
