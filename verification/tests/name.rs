use dns_relay::error::{DecodeError, EncodeError};
use dns_relay::name::{Name, NameKind};
use dns_relay::traits::{ResolveWithBuffer, WireRead, WireWrite, WriteAll};

fn label(text: &str) -> NameKind {
    NameKind::Label { data: text.as_bytes().to_vec() }
}

#[test]
fn write() {
    let name = Name::new("google.com");
    let name_bytes = name.to_bytes().unwrap();
    assert_eq!(
        name_bytes,
        &[0x06, 0x67, 0x6f, 0x6f, 0x67, 0x6c, 0x65, 0x03, 0x63, 0x6f, 0x6d, 00,]
    );
}

#[test]
fn read() {
    let bytes = &[
        0x06, 0x67, 0x6f, 0x6f, 0x67, 0x6c, 0x65, 0x03, 0x63, 0x6f, 0x6d, 00,
    ];
    let (name, _) = Name::from_bytes(bytes, 0).unwrap();
    assert_eq!(name, Name::new("google.com"));

    let name = Name::try_from_bytes(bytes.as_ref()).unwrap();
    assert_eq!(name, Name::new("google.com"));
}

#[test]
fn pointer() {
    let bytes = &[
        1, 70, 3, 73, 83, 73, 4, 65, 82, 80, 65, 0, 3, 70, 79, 79, 192, 0, 192, 6,
    ];
    let (first, input) = Name::from_bytes(bytes, 0).unwrap();
    assert_eq!(first, Name::new("F.ISI.ARPA"));

    let (second, input) = Name::from_bytes(bytes, input).unwrap();
    let second = second.resolve(bytes.as_ref()).unwrap();
    assert_eq!(second, Name::new("FOO.F.ISI.ARPA"));

    let (third, _) = Name::from_bytes(bytes, input).unwrap();
    let third = third.resolve(bytes.as_ref()).unwrap();
    assert_eq!(third, Name::new("ARPA"));
}

#[test]
fn name_new_splits_at_dots() {
    assert_eq!(
        Name::new("google.com"),
        Name { entries: vec![label("google"), label("com")] }
    );
    assert_eq!(Name::new("ARPA"), Name { entries: vec![label("ARPA")] });
    assert_eq!(Name::new(""), Name { entries: vec![label("")] });
    assert_eq!(Name::new("."), Name { entries: vec![label(""), label("")] });
    assert_eq!(
        Name::new("a..b"),
        Name { entries: vec![label("a"), label(""), label("b")] }
    );
    assert_eq!(Name::new("a."), Name { entries: vec![label("a"), label("")] });
    assert_eq!(Name::new(".a"), Name { entries: vec![label(""), label("a")] });
    assert_eq!(Name::from_dotted(b"x.yz"), Name::new("x.yz"));
}

#[test]
fn name_default_is_codecrafters() {
    assert_eq!(Name::default(), Name::new("codecrafters.io"));
    assert_eq!(
        Name::default().to_bytes().unwrap(),
        b"\x0ccodecrafters\x02io\x00".to_vec()
    );
}

#[test]
fn name_round_trip() {
    for text in ["a", "google.com", "FOO.F.ISI.ARPA", "x.y.z.w.v.u", "codecrafters.io"] {
        let name = Name::new(text);
        let bytes = name.to_bytes().unwrap();
        assert_eq!(Name::from_bytes(&bytes, 0), Ok((name.clone(), bytes.len())));
        let mut framed = vec![7u8, 7];
        framed.extend(&bytes);
        framed.extend([1u8, 2, 3]);
        assert_eq!(Name::from_bytes(&framed, 2), Ok((name, 2 + bytes.len())));
    }
}

#[test]
fn name_round_trip_with_arbitrary_label_bytes() {
    let name = Name {
        entries: vec![
            NameKind::Label { data: vec![0, 255, 46, 192] },
            NameKind::Label { data: vec![9u8; 63] },
        ],
    };
    let bytes = name.to_bytes().unwrap();
    assert_eq!(bytes.len(), 1 + 4 + 1 + 63 + 1);
    assert_eq!(bytes[0], 4);
    assert_eq!(bytes[5], 63);
    assert_eq!(Name::try_from_bytes(&bytes), Ok(name));
}

#[test]
fn empty_name_is_a_single_zero_byte() {
    let root = Name { entries: vec![] };
    assert_eq!(root.to_bytes(), Ok(vec![0]));
    assert_eq!(Name::from_bytes(&[0], 0), Ok((root, 1)));
}

#[test]
fn name_write_appends_and_keeps_output_on_failure() {
    let mut out = vec![1u8, 2, 3];
    Name::new("ab").write(&mut out).unwrap();
    assert_eq!(out, vec![1, 2, 3, 2, 97, 98, 0]);

    let bad = Name { entries: vec![label("ok"), label("")] };
    assert_eq!(bad.write(&mut out), Err(EncodeError::LabelLength));
    assert_eq!(out, vec![1, 2, 3, 2, 97, 98, 0]);

    let mut out = vec![5u8];
    assert_eq!(
        NameKind::write_all_with_null(&mut out, &[label("a"), NameKind::Pointer(3)]),
        Err(EncodeError::UnresolvedPointer)
    );
    assert_eq!(out, vec![5]);
    assert_eq!(NameKind::write_all_with_null(&mut out, &[label("a")]), Ok(()));
    assert_eq!(out, vec![5, 1, 97, 0]);
}

#[test]
fn name_encode_errors() {
    assert_eq!(Name::new("").to_bytes(), Err(EncodeError::LabelLength));
    assert_eq!(Name::new("a..b").to_bytes(), Err(EncodeError::LabelLength));
    let long = Name { entries: vec![NameKind::Label { data: vec![b'a'; 64] }] };
    assert_eq!(long.to_bytes(), Err(EncodeError::LabelLength));
    let longest = Name { entries: vec![NameKind::Label { data: vec![b'a'; 63] }] };
    assert_eq!(longest.to_bytes().unwrap().len(), 65);
    let pointed = Name { entries: vec![label("a"), NameKind::Pointer(0)] };
    assert_eq!(pointed.to_bytes(), Err(EncodeError::UnresolvedPointer));
    let first_wins = Name { entries: vec![NameKind::Pointer(0), label("")] };
    assert_eq!(first_wins.to_bytes(), Err(EncodeError::UnresolvedPointer));
}

#[test]
fn name_decode_reads_a_pointer_as_last_entry() {
    let bytes = [3, 70, 79, 79, 0xc1, 0x02, 9, 9];
    assert_eq!(
        Name::from_bytes(&bytes, 0),
        Ok((Name { entries: vec![label("FOO"), NameKind::Pointer(258)] }, 6))
    );
    assert_eq!(
        Name::from_bytes(&[0xff, 0xff], 0),
        Ok((Name { entries: vec![NameKind::Pointer(0x3fff)] }, 2))
    );
    assert_eq!(
        NameKind::read_until_null_or_pointer(&bytes, 4),
        Ok((vec![NameKind::Pointer(258)], 6))
    );
}

#[test]
fn name_decode_errors() {
    assert_eq!(Name::from_bytes(&[], 0), Err(DecodeError::Truncated));
    assert_eq!(Name::from_bytes(&[0], 1), Err(DecodeError::Truncated));
    assert_eq!(Name::from_bytes(&[0], usize::MAX), Err(DecodeError::Truncated));
    assert_eq!(Name::from_bytes(&[1, 70], 0), Err(DecodeError::Truncated));
    assert_eq!(Name::from_bytes(&[3, 70, 79], 0), Err(DecodeError::Truncated));
    assert_eq!(Name::from_bytes(&[1, 70, 192], 0), Err(DecodeError::Truncated));
    assert_eq!(Name::from_bytes(&[0x40, 0], 0), Err(DecodeError::MalformedNameTag));
    assert_eq!(Name::from_bytes(&[0x80, 0], 0), Err(DecodeError::MalformedNameTag));
    assert_eq!(Name::from_bytes(&[1, 70, 0xbf, 0], 0), Err(DecodeError::MalformedNameTag));
    assert_eq!(Name::try_from_bytes(&[1, 70, 0, 0]), Err(DecodeError::TrailingData));
    assert_eq!(Name::try_from_bytes(&[1, 70]), Err(DecodeError::Truncated));
}

#[test]
fn resolve_leaves_a_name_without_pointer_alone() {
    let name = Name::new("google.com");
    assert_eq!(name.clone().resolve(&[]), Ok(name));
    let root = Name { entries: vec![] };
    assert_eq!(root.clone().resolve(&[192, 0]), Ok(root));
}

#[test]
fn resolve_follows_a_chain_of_pointers() {
    // offset 0: "a" then pointer to 4; offset 4: "b" then pointer to 8; offset 8: "c".
    let datagram = [1, b'a', 192, 4, 1, b'b', 192, 8, 1, b'c', 0];
    let name = Name { entries: vec![label("x"), NameKind::Pointer(0)] };
    assert_eq!(name.resolve(&datagram), Ok(Name::new("x.a.b.c")));
    let only = Name { entries: vec![NameKind::Pointer(4)] };
    assert_eq!(only.resolve(&datagram), Ok(Name::new("b.c")));
}

#[test]
fn resolve_errors() {
    let datagram = [1, b'a', 0, 0x41, 1, b'a'];
    let behind = Name { entries: vec![NameKind::Pointer(6)] };
    assert_eq!(behind.resolve(&datagram), Err(DecodeError::PointerOutOfRange));
    let far = Name { entries: vec![label("a"), NameKind::Pointer(0x3fff)] };
    assert_eq!(far.resolve(&datagram), Err(DecodeError::PointerOutOfRange));
    let empty = Name { entries: vec![NameKind::Pointer(0)] };
    assert_eq!(empty.resolve(&[]), Err(DecodeError::PointerOutOfRange));
    let malformed = Name { entries: vec![NameKind::Pointer(3)] };
    assert_eq!(malformed.resolve(&datagram), Err(DecodeError::MalformedNameTag));
    let truncated = Name { entries: vec![NameKind::Pointer(4)] };
    assert_eq!(truncated.resolve(&datagram), Err(DecodeError::Truncated));
}

#[test]
fn pointer_to_itself_is_a_loop() {
    // offset 2 holds a name that ends in a pointer to offset 2.
    let datagram = [0, 0, 1, b'a', 192, 2];
    let (name, end) = Name::from_bytes(&datagram, 2).unwrap();
    assert_eq!(end, 6);
    assert_eq!(name.resolve(&datagram), Err(DecodeError::PointerLoop));
    let bare = [192, 0];
    let (name, _) = Name::from_bytes(&bare, 0).unwrap();
    assert_eq!(name.resolve(&bare), Err(DecodeError::PointerLoop));
}

#[test]
fn pointer_cycle_of_two_is_a_loop() {
    let datagram = [192, 2, 192, 0];
    let name = Name { entries: vec![NameKind::Pointer(0)] };
    assert_eq!(name.resolve(&datagram), Err(DecodeError::PointerLoop));
}

fn chain(hops: usize) -> Vec<u8> {
    // `hops` pointers, each to the next pair of bytes, then the name "z".
    let mut datagram = Vec::new();
    for k in 0..hops {
        datagram.push(192);
        datagram.push((2 * k + 2) as u8);
    }
    datagram.extend([1, b'z', 0]);
    datagram
}

#[test]
fn sixteen_hops_are_followed_and_seventeen_are_not() {
    // The name itself ends in the first pointer, so a chain of fifteen more
    // makes sixteen hops.
    let start = Name { entries: vec![NameKind::Pointer(0)] };
    assert_eq!(start.clone().resolve(&chain(15)), Ok(Name::new("z")));
    assert_eq!(start.resolve(&chain(16)), Err(DecodeError::PointerLoop));
}

#[test]
fn rfc1035_compression_example() {
    // F.ISI.ARPA at offset 20, FOO.F.ISI.ARPA at 40, ARPA at 64, the root at 92.
    let mut datagram = vec![0u8; 93];
    datagram[20..32].copy_from_slice(&[1, 70, 3, 73, 83, 73, 4, 65, 82, 80, 65, 0]);
    datagram[40..46].copy_from_slice(&[3, 70, 79, 79, 192, 20]);
    datagram[64..66].copy_from_slice(&[192, 26]);

    let (first, end) = Name::from_bytes(&datagram, 20).unwrap();
    assert_eq!(end, 32);
    assert_eq!(first, Name::new("F.ISI.ARPA"));

    let (second, end) = Name::from_bytes(&datagram, 40).unwrap();
    assert_eq!(end, 46);
    assert_eq!(second.entries.last(), Some(&NameKind::Pointer(20)));
    assert_eq!(second.resolve(&datagram), Ok(Name::new("FOO.F.ISI.ARPA")));

    let (third, end) = Name::from_bytes(&datagram, 64).unwrap();
    assert_eq!(end, 66);
    assert_eq!(third, Name { entries: vec![NameKind::Pointer(26)] });
    assert_eq!(third.resolve(&datagram), Ok(Name::new("ARPA")));

    let (root, end) = Name::from_bytes(&datagram, 92).unwrap();
    assert_eq!(end, 93);
    assert_eq!(root.clone().resolve(&datagram), Ok(Name { entries: vec![] }));
    assert_eq!(datagram.len(), 93);
}
