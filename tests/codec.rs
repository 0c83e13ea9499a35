use robar::request::{decode, encode, Request, END_OF_REQUEST_SEPARATOR, MAX_REQUEST_SIZE};

fn show(profile: &str, value: u8) -> Request {
    Request::Show { profile: profile.to_string(), value }
}

#[test]
fn round_trip_every_variant() {
    let requests = vec![
        show("low", 30),
        show("", 0),
        show("high", 100),
        show("Ünïcødé ☃", 255),
        show("cr\r", 13),
        Request::Hide,
        Request::Stop,
        Request::Empty,
    ];
    for r in requests {
        assert_eq!(decode(&encode(&r)), Some(r.clone()));
    }
}

#[test]
fn encoding_layout() {
    assert_eq!(encode(&show("ab", 0x2f)), vec![0, 2, 15, b'a', b'b']);
    assert_eq!(encode(&Request::Hide), vec![1]);
    assert_eq!(encode(&Request::Stop), vec![2]);
    assert_eq!(encode(&Request::Empty), vec![3]);
    assert_eq!(encode(&show("é", 100)), vec![0, 6, 4, 0xc3, 0xa9]);
}

#[test]
fn encoding_never_holds_sentinel() {
    for value in 0..=255u8 {
        let bytes = encode(&show("low\u{10ffff}\u{7ff}\u{ffff}", value));
        assert!(!bytes.contains(&END_OF_REQUEST_SEPARATOR));
    }
}

#[test]
fn decode_rejects_malformed() {
    assert_eq!(decode(&[]), None);
    assert_eq!(decode(&[9]), None);
    assert_eq!(decode(&[1, 1]), None);
    assert_eq!(decode(&[0, 1]), None);
    assert_eq!(decode(&[0, 16, 0]), None);
    assert_eq!(decode(&[0, 0, 16]), None);
    assert_eq!(decode(&[0, 1, 2, 0xc3]), None);
    assert_eq!(decode(&[0, 1, 2, 0xff]), None);
}

#[test]
fn decode_reads_profile_text() {
    assert_eq!(decode(&[0, 1, 14, b'l', b'o', b'w']), Some(show("low", 30)));
    assert_eq!(decode(&[0, 0, 0]), Some(show("", 0)));
}

#[test]
fn max_size_is_the_protocol_constant() {
    assert_eq!(MAX_REQUEST_SIZE, 32);
}

#[test]
fn decoding_is_canonical() {
    let payloads: Vec<Vec<u8>> = vec![
        vec![0, 6, 4, b'h', b'i'],
        vec![0, 0, 0],
        vec![0, 15, 15, 0xe2, 0x98, 0x83],
        vec![1],
        vec![2],
        vec![3],
    ];
    for p in payloads {
        let r = decode(&p).unwrap();
        assert_eq!(encode(&r), p);
    }
}
