use dns_relay::error::DecodeError;
use dns_relay::header::{Header, QRIndicator};

fn bits_of(bytes: &[u8]) -> Vec<u8> {
    let mut bits = Vec::new();
    for byte in bytes {
        for k in 0..8 {
            bits.push((byte >> (7 - k)) & 1);
        }
    }
    bits
}

#[test]
fn default_header() {
    let header = Header::default();
    let header_bytes = header.to_bytes();
    let header_bits = bits_of(&header_bytes);

    assert_eq!(header_bytes.len(), 12);
    assert_eq!(header_bytes, [4, 210, 128, 0, 0, 0, 0, 0, 0, 0, 0, 0]);
    assert_eq!(
        header_bits,
        vec![
            0, 0, 0, 0, 0, 1, 0, 0, 1, 1, 0, 1, 0, 0, 1, 0, 1, 0, 0, 0, 0, 0, 0, 0, 0, 0, 0, 0, 0,
            0, 0, 0, 0, 0, 0, 0, 0, 0, 0, 0, 0, 0, 0, 0, 0, 0, 0, 0, 0, 0, 0, 0, 0, 0, 0, 0, 0, 0,
            0, 0, 0, 0, 0, 0, 0, 0, 0, 0, 0, 0, 0, 0, 0, 0, 0, 0, 0, 0, 0, 0, 0, 0, 0, 0, 0, 0, 0,
            0, 0, 0, 0, 0, 0, 0, 0, 0,
        ]
    );

    let header_from_bytes = Header::from_bytes(header_bytes.as_ref(), 0).unwrap().0;
    assert_eq!(header, header_from_bytes);

    let mut header_from = Header::try_from_bytes(header_bytes.as_ref()).unwrap();
    assert_eq!(header, header_from);

    header_from.question_count = 1;
    assert_eq!(header_from.to_bytes()[5], 1);
}

#[test]
fn header_new_is_the_default() {
    assert_eq!(Header::new(), Header::default());
    assert_eq!(Header::new().id, 1234);
    assert_eq!(Header::new().qr_indicator, QRIndicator::Response);
    assert_eq!(QRIndicator::default(), QRIndicator::Response);
}

#[test]
fn header_round_trip_with_every_field_set() {
    let header = Header {
        id: 0xbeef,
        qr_indicator: QRIndicator::Query,
        op_code: 9,
        authoritative_answer: true,
        truncation: false,
        recursion_desired: true,
        recursion_available: true,
        reserved: 5,
        response_code: 11,
        question_count: 0x0102,
        answer_record_count: 0x0304,
        authority_record_count: 0x0506,
        additional_record_count: 0x0708,
    };
    let bytes = header.to_bytes();
    assert_eq!(
        bytes,
        [0xbe, 0xef, 0b0_1001_1_0_1, 0b1_101_1011, 1, 2, 3, 4, 5, 6, 7, 8]
    );
    assert_eq!(Header::from_bytes(&bytes, 0), Ok((header, 12)));
}

#[test]
fn header_bit_fields_are_cut_to_their_width() {
    let mut header = Header::new();
    header.qr_indicator = QRIndicator::Query;
    header.op_code = 0x1f;
    header.reserved = 0x0f;
    header.response_code = 0xf3;
    let bytes = header.to_bytes();
    assert_eq!(bytes[2], 0b0_1111_0_0_0);
    assert_eq!(bytes[3], 0b0_111_0011);
    let back = Header::try_from_bytes(&bytes).unwrap();
    assert_eq!(back.op_code, 15);
    assert_eq!(back.reserved, 7);
    assert_eq!(back.response_code, 3);
}

#[test]
fn header_needs_twelve_bytes() {
    assert_eq!(Header::from_bytes(&[0; 11], 0), Err(DecodeError::Truncated));
    assert_eq!(Header::from_bytes(&[0; 12], 1), Err(DecodeError::Truncated));
    assert_eq!(Header::from_bytes(&[], 0), Err(DecodeError::Truncated));
    assert_eq!(Header::from_bytes(&[0; 4], usize::MAX), Err(DecodeError::Truncated));
    assert_eq!(Header::try_from_bytes(&[0; 13]), Err(DecodeError::TrailingData));
    assert_eq!(Header::try_from_bytes(&[0; 11]), Err(DecodeError::Truncated));
}

#[test]
fn header_is_read_at_an_offset() {
    let mut datagram = vec![9u8, 9, 9];
    let mut header = Header::new();
    header.id = 7;
    header.additional_record_count = 258;
    datagram.extend(header.to_bytes());
    datagram.push(42);
    assert_eq!(Header::from_bytes(&datagram, 3), Ok((header, 15)));
}
