use pms_modbus::payload::{add_hi_lo_bytes, checksum, parse_stream_to_payload, DecodeError, Payload, FRAME_START};

const FRAME_SIZE: usize = 32;

const ONE_GOOD_FRAME: [u8; FRAME_SIZE] = [
    0x42, 0x4d, 0x00, 0x1c, 0x00, 0x04, 0x00, 0x06, 0x00, 0x08, 0x00, 0x04, 0x00, 0x06, 0x00, 0x08,
    0x03, 0x24, 0x00, 0xea, 0x00, 0x36, 0x00, 0x08, 0x00, 0x02, 0x00, 0x00, 0x97, 0x00, 0x02, 0xb7,
];

fn returns_error(f: &[u8]) -> bool {
    match parse_stream_to_payload(f) {
        Ok(_) => false,
        Err(_) => true,
    }
}

fn frame_from_words(words: &[u16; 16]) -> Vec<u8> {
    let mut out = Vec::new();
    for w in words.iter() {
        out.extend_from_slice(&w.to_be_bytes());
    }
    out
}

#[test]
fn parser_returns_payload() {
    let (_, p) = parse_stream_to_payload(&ONE_GOOD_FRAME).unwrap();
    assert!(std::mem::size_of_val(&p) == std::mem::size_of::<Payload>());

    // check payload has a start sequence
    assert!(p.start == FRAME_START);

    // the length should always be 0x1C == 32 - 4 == 28
    assert!(p.len as usize == (0x20 - 2 * std::mem::size_of::<u16>()));

    // data matches input
    let d_size_in_bytes = 12 * std::mem::size_of::<u16>();
    let d: Vec<u16> = (&ONE_GOOD_FRAME[4..(4 + d_size_in_bytes)])
        .chunks_exact(2)
        .map(|x| u16::from_be_bytes([x[0], x[1]]))
        .collect();

    assert_eq!(p.data.to_vec(), d);

    // reserved data -- no validation, just existence
    assert_eq!(std::mem::size_of_val(&p.reserved_data), std::mem::size_of::<u16>());

    // checksum
    assert_eq!(p.check, u16::from_be_bytes([ONE_GOOD_FRAME[30], ONE_GOOD_FRAME[31]]));
}

#[test]
fn fails_on_checksum_errors() {
    let mut f = ONE_GOOD_FRAME.clone();
    f[4] += 1;

    assert!(returns_error(&f));
}

#[test]
fn errors_without_frame_start() {
    let mut f = ONE_GOOD_FRAME.clone();
    f[0] = 0xBA;
    f[1] = 0xFD;

    assert!(matches!(parse_stream_to_payload(&f), Err(DecodeError::Framing)));
}

#[test]
fn panics_with_no_length() {
    let mut f = ONE_GOOD_FRAME.clone();
    f[2] = 0x00;
    f[3] = 0x00;

    assert!(returns_error(&f));
}

#[test]
fn ns_error_for_too_long() {
    let mut f = ONE_GOOD_FRAME.clone();
    f[2] = 0x01;
    f[3] = 0x00; // try to read 256 bytes from 28 byte remainder

    assert!(returns_error(&f));
}

#[test]
fn canonical_frame_fields() {
    let (rest, p) = parse_stream_to_payload(&ONE_GOOD_FRAME).unwrap();
    assert!(rest.is_empty());
    assert_eq!(p.data, [4, 6, 8, 4, 6, 8, 0x324, 0xEA, 0x36, 8, 2, 0]);
    assert_eq!(p.reserved_data, 0x9700);
    assert_eq!(p.check, 0x02B7);
}

#[test]
fn checksum_of_canonical_vector() {
    let p = Payload {
        start: 0x424D,
        len: 0x001C,
        data: [4, 6, 8, 4, 6, 8, 0x324, 0xEA, 0x36, 8, 2, 0],
        reserved_data: 0x9700,
        check: 0,
    };
    assert_eq!(checksum(&p), 0x02B7);
}

#[test]
fn checksum_adds_bytes_not_words() {
    assert_eq!(add_hi_lo_bytes(0x424D), 0x42 + 0x4D);
    assert_eq!(add_hi_lo_bytes(0xFFFF), 510);
    assert_eq!(add_hi_lo_bytes(0x0000), 0);
    assert_eq!(add_hi_lo_bytes(0x9700), 0x97);
}

#[test]
fn built_frame_decodes_to_its_words() {
    let data: [u16; 12] = [1, 0xFFFF, 0x0100, 0x00FF, 500, 1000, 7, 0, 0x1234, 0xABCD, 9, 65535];
    let mut words = [0u16; 16];
    words[0] = 0x424D;
    words[1] = 0x001C;
    words[2..14].copy_from_slice(&data);
    words[14] = 0x1111;
    let p = Payload { start: words[0], len: words[1], data, reserved_data: words[14], check: 0 };
    words[15] = checksum(&p);
    let f = frame_from_words(&words);
    let (rest, q) = parse_stream_to_payload(&f).unwrap();
    assert!(rest.is_empty());
    assert_eq!(q.data, data);
    assert_eq!(q.reserved_data, 0x1111);
}

#[test]
fn every_single_bit_flip_is_a_checksum_error() {
    for i in 4..28 {
        for k in 0..8 {
            let mut f = ONE_GOOD_FRAME.clone();
            f[i] ^= 1u8 << k;
            assert!(matches!(parse_stream_to_payload(&f), Err(DecodeError::Checksum)));
        }
    }
}

#[test]
fn wrong_length_is_framing_error() {
    let mut f = ONE_GOOD_FRAME.clone();
    f[2] = 0x01;
    f[3] = 0x00;
    assert!(matches!(parse_stream_to_payload(&f), Err(DecodeError::Framing)));
}

#[test]
fn truncated_frame_is_incomplete() {
    assert!(matches!(parse_stream_to_payload(&ONE_GOOD_FRAME[..31]), Err(DecodeError::Incomplete)));
    assert!(matches!(parse_stream_to_payload(&ONE_GOOD_FRAME[..3]), Err(DecodeError::Incomplete)));
    assert!(matches!(parse_stream_to_payload(&ONE_GOOD_FRAME[..1]), Err(DecodeError::Incomplete)));
    assert!(matches!(parse_stream_to_payload(&[]), Err(DecodeError::Incomplete)));
}

#[test]
fn remainder_follows_the_frame() {
    let mut two = ONE_GOOD_FRAME.to_vec();
    two.extend_from_slice(&[1, 2, 3]);
    let (rest, p) = parse_stream_to_payload(&two).unwrap();
    assert_eq!(rest, &[1, 2, 3]);
    assert_eq!(p.data[1], 6);
}
