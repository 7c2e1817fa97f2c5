use dns_relay::answer::{Answer, AnswerClass, AnswerType};
use dns_relay::error::{DecodeError, EncodeError};
use dns_relay::name::{Name, NameKind};
use dns_relay::traits::{ReadUntill, WireRead, WireWrite, WriteAll};

#[test]
fn default_test() {
    let ans_default = Answer::default();
    let ans_bytes = ans_default.to_bytes().unwrap();

    let ans = Answer::try_from_bytes(ans_bytes.as_ref()).unwrap();

    assert_eq!(ans, ans_default);
}

#[test]
fn answer_new_fills_in_the_defaults() {
    let a = Answer::new(Name::new("google.com"));
    assert_eq!(a.name, Name::new("google.com"));
    assert_eq!(a.rtype, AnswerType::A);
    assert_eq!(a.class, AnswerClass::IN);
    assert_eq!(a.ttl, 60);
    assert_eq!(a.data, vec![8, 8, 8, 8]);
    assert_eq!(Answer::default(), Answer::new(Name::new("codecrafters.io")));
    assert_eq!(AnswerType::default(), AnswerType::A);
    assert_eq!(AnswerClass::default(), AnswerClass::IN);
}

#[test]
fn answer_fixed_bytes() {
    let a = Answer {
        name: Name::new("ab"),
        rtype: AnswerType::TXT,
        class: AnswerClass::CH,
        ttl: 0x01020304,
        data: vec![0xaa, 0xbb, 0xcc],
    };
    let bytes = a.to_bytes().unwrap();
    assert_eq!(bytes, vec![2, 97, 98, 0, 0, 16, 0, 3, 1, 2, 3, 4, 0, 3, 0xaa, 0xbb, 0xcc]);
    assert_eq!(Answer::from_bytes(&bytes, 0), Ok((a, 17)));
    assert_eq!(
        Answer::default().to_bytes().unwrap(),
        b"\x0ccodecrafters\x02io\x00\x00\x01\x00\x01\x00\x00\x00\x3c\x00\x04\x08\x08\x08\x08".to_vec()
    );
}

#[test]
fn answer_length_prefix_follows_the_data() {
    let wire = [1, 97, 0, 0, 1, 0, 1, 0, 0, 0, 60, 0, 2, 5, 6, 99];
    let (mut a, end) = Answer::from_bytes(&wire, 0).unwrap();
    assert_eq!(end, 15);
    assert_eq!(a.data, vec![5, 6]);
    a.data.push(7);
    a.data.push(8);
    a.data.push(9);
    let bytes = a.to_bytes().unwrap();
    assert_eq!(&bytes[11..], &[0, 5, 5, 6, 7, 8, 9]);
    a.data.clear();
    assert_eq!(&a.to_bytes().unwrap()[11..], &[0, 0]);
}

#[test]
fn answer_with_long_data() {
    let mut a = Answer::new(Name::new("a"));
    a.data = vec![1u8; 65535];
    let bytes = a.to_bytes().unwrap();
    assert_eq!(bytes.len(), 3 + 10 + 65535);
    assert_eq!(&bytes[11..13], &[0xff, 0xff]);
    assert_eq!(Answer::try_from_bytes(&bytes), Ok(a.clone()));
    a.data.push(1);
    assert_eq!(a.to_bytes(), Err(EncodeError::DataTooLong));
    let mut out = vec![4u8];
    assert_eq!(a.write(&mut out), Err(EncodeError::DataTooLong));
    assert_eq!(out, vec![4]);
}

#[test]
fn answer_encode_name_error_comes_first() {
    let mut a = Answer::new(Name { entries: vec![NameKind::Pointer(0)] });
    a.data = vec![0u8; 70000];
    assert_eq!(a.to_bytes(), Err(EncodeError::UnresolvedPointer));
    let b = Answer::new(Name::new(""));
    assert_eq!(b.to_bytes(), Err(EncodeError::LabelLength));
}

#[test]
fn answer_decode_errors() {
    let good = [1, 97, 0, 0, 1, 0, 1, 0, 0, 0, 60, 0, 2, 5, 6];
    assert!(Answer::from_bytes(&good, 0).is_ok());
    for cut in 0..good.len() {
        assert_eq!(Answer::from_bytes(&good[..cut], 0), Err(DecodeError::Truncated));
    }
    let mut bad_type = good;
    bad_type[4] = 17;
    assert_eq!(Answer::from_bytes(&bad_type, 0), Err(DecodeError::UnknownRecordType));
    bad_type[4] = 0;
    assert_eq!(Answer::from_bytes(&bad_type, 0), Err(DecodeError::UnknownRecordType));
    assert_eq!(Answer::from_bytes(&bad_type[..5], 0), Err(DecodeError::UnknownRecordType));
    let mut bad_class = good;
    bad_class[6] = 5;
    assert_eq!(Answer::from_bytes(&bad_class, 0), Err(DecodeError::UnknownRecordClass));
    bad_class[5] = 1;
    bad_class[6] = 1;
    assert_eq!(Answer::from_bytes(&bad_class, 0), Err(DecodeError::UnknownRecordClass));
    let mut bad_both = good;
    bad_both[3] = 1;
    bad_both[6] = 0;
    assert_eq!(Answer::from_bytes(&bad_both, 0), Err(DecodeError::UnknownRecordType));
    let mut bad_tag = good;
    bad_tag[0] = 0x81;
    assert_eq!(Answer::from_bytes(&bad_tag, 0), Err(DecodeError::MalformedNameTag));
    let mut trailing = good.to_vec();
    trailing.push(0);
    assert_eq!(Answer::try_from_bytes(&trailing), Err(DecodeError::TrailingData));
}

#[test]
fn type_and_class_codes() {
    let types = [
        AnswerType::A,
        AnswerType::NS,
        AnswerType::MD,
        AnswerType::MF,
        AnswerType::CNAME,
        AnswerType::SOA,
        AnswerType::MB,
        AnswerType::MG,
        AnswerType::MR,
        AnswerType::NULL,
        AnswerType::WKS,
        AnswerType::PTR,
        AnswerType::HINFO,
        AnswerType::MINFO,
        AnswerType::MX,
        AnswerType::TXT,
    ];
    for (k, t) in types.iter().enumerate() {
        assert_eq!(t.code(), k as u16 + 1);
        assert_eq!(AnswerType::from_code(k as u16 + 1), Some(*t));
    }
    assert_eq!(AnswerType::from_code(0), None);
    assert_eq!(AnswerType::from_code(17), None);
    assert_eq!(AnswerType::from_code(u16::MAX), None);
    let classes = [AnswerClass::IN, AnswerClass::CS, AnswerClass::CH, AnswerClass::HS];
    for (k, c) in classes.iter().enumerate() {
        assert_eq!(c.code(), k as u16 + 1);
        assert_eq!(AnswerClass::from_code(k as u16 + 1), Some(*c));
    }
    assert_eq!(AnswerClass::from_code(0), None);
    assert_eq!(AnswerClass::from_code(5), None);
}

#[test]
fn answers_are_read_by_count() {
    let one = Answer::new(Name::new("a"));
    let mut two = Answer::new(Name::new("b.c"));
    two.rtype = AnswerType::MX;
    two.data = vec![];
    let mut bytes = vec![0u8; 2];
    Answer::write_all(&mut bytes, &[one.clone(), two.clone()]).unwrap();
    assert_eq!(bytes.len(), 2 + 17 + 15);
    assert_eq!(
        Answer::read_count(&bytes, 2, 2),
        Ok((vec![one.clone(), two.clone()], bytes.len()))
    );
    assert_eq!(Answer::read_count(&bytes, 2, 1), Ok((vec![one.clone()], 19)));
    assert_eq!(Answer::read_count(&bytes, 2, 0), Ok((vec![], 2)));
    assert_eq!(Answer::read_count(&bytes, 2, 3), Err(DecodeError::Truncated));

    let mut out = vec![3u8];
    let mut bad = one.clone();
    bad.data = vec![0u8; 65536];
    assert_eq!(Answer::write_all(&mut out, &[one, bad, two]), Err(EncodeError::DataTooLong));
    assert_eq!(out, vec![3]);
}
