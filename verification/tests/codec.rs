use bcon::terminal::codec::{base64_decode, base64_decode_strict, base64_encode, hex_decode, hex_encode};

#[test]
fn base64_round_trip() {
    for n in 0..20usize {
        let data: Vec<u8> = (0..n).map(|i| (i * 37 + 5) as u8).collect();
        let enc = base64_encode(&data);
        assert_eq!(base64_decode(&enc).unwrap(), data);
        assert_eq!(base64_decode_strict(&enc).unwrap(), data);
    }
    assert_eq!(base64_encode(b"hi"), b"aGk=".to_vec());
}

#[test]
fn base64_strict_rejects_stray_bytes() {
    assert_eq!(base64_decode_strict(b"aGk=\n"), Some(b"hi".to_vec()));
    assert_eq!(base64_decode_strict(b"aG\tk="), None);
    assert_eq!(base64_decode(b"aG\tk="), Some(b"hi".to_vec()));
}

#[test]
fn hex_round_trip() {
    assert_eq!(hex_encode(&[0x1b, 0xff]), b"1BFF".to_vec());
    assert_eq!(hex_decode(b"1BFF"), vec![0x1b, 0xff]);
    assert_eq!(hex_decode(b"1bzz7"), vec![0x1b]);
}

#[test]
fn hex_decoding_undoes_encoding_for_every_byte() {
    let data: Vec<u8> = (0..=255u8).collect();
    assert_eq!(hex_decode(&hex_encode(&data)), data);
}
