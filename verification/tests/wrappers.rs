//! Hashing, serialized forms, numbers and texts.
use dal::codec::{decode, encode, encoded_len};
use dal::error::Error;
use dal::hashing::partition_of_hash;
use dal::number::{parse_number, NumberDefect};
use dal::text::{
    off_by_default, on_by_default, to_bracketed, to_bracketed_bytes, to_decimal, to_hex,
    to_optional, to_radix,
};
use dal::types::{GroupId, HashSpec, KeyPresence, MutationResult};

#[test]
fn keys_are_spread_by_their_hash() {
    // The hash of no bytes at all is a published value of the algorithm.
    let empty: u64 = 0x2d06_8005_38d3_94c2;
    assert_eq!(
        HashSpec::CANONICAL.partition_of(b"", 1000),
        (empty % 1000) as u16
    );
    assert_eq!(partition_of_hash(empty, 7), (empty % 7) as u16);
    assert_eq!(partition_of_hash(u64::MAX, 1), 0);
    for key in [&b"a"[..], b"partition", b"0123456789abcdef0123456789"] {
        assert_eq!(
            HashSpec::CANONICAL.partition_of(key, 64),
            (xxhash_rust::xxh3::xxh3_64(key) % 64) as u16
        );
    }
}

#[test]
fn serialized_forms_read_back() {
    let triple: (u64, u64, u64) = (1, 2, 0x0102);
    let bytes = encode(&triple);
    assert_eq!(bytes, bincode::serialize(&triple).unwrap());
    assert_eq!(bytes.len(), encoded_len(&triple));
    assert_eq!(decode::<(u64, u64, u64)>(&bytes), Ok(triple));
    let list: Vec<(Vec<u8>, Vec<u8>)> = vec![(vec![1], vec![]), (vec![2, 3], vec![4])];
    let bytes = encode(&list);
    assert_eq!(bytes, bincode::serialize(&list).unwrap());
    assert_eq!(encoded_len(&list), bytes.len());
    assert_eq!(decode::<Vec<(Vec<u8>, Vec<u8>)>>(&bytes), Ok(list));
    assert!(matches!(decode::<u64>(&[1, 2]), Err(Error::Codec(_))));
}

#[test]
fn numbers_are_read_as_std_reads_them() {
    for text in ["0", "+7", "007", "65535", "", "+", "-", "-0", "65536", "6553500000", "1x", " 1"] {
        let want = text.parse::<u16>();
        match (parse_number(text, 0, 10, u16::MAX as u128), want) {
            (Ok(n), Ok(m)) => assert_eq!(n, m as u128),
            (Err(d), Err(e)) => assert_eq!(d.to_text(), e.to_string()),
            (got, want) => panic!("{text:?}: {got:?}, {want:?}"),
        }
    }
    assert_eq!(parse_number("0xFf", 2, 16, u128::MAX), Ok(255));
    assert_eq!(
        parse_number("340282366920938463463374607431768211456", 0, 10, u128::MAX),
        Err(NumberDefect::TooLarge)
    );
    assert_eq!(
        parse_number("340282366920938463463374607431768211455", 0, 10, u128::MAX),
        Ok(u128::MAX)
    );
}

#[test]
fn texts_read_as_std_writes_them() {
    for n in [0u128, 9, 10, 255, 4096, u64::MAX as u128, u128::MAX] {
        assert_eq!(to_decimal(n), n.to_string());
        assert_eq!(to_hex(n), format!("{n:#x}"));
        assert_eq!(to_radix(n, 16), format!("{n:x}"));
        assert_eq!(to_radix(n, 2), format!("{n:b}"));
    }
    assert_eq!(to_optional(None), "None");
    assert_eq!(to_optional(Some(3)), "Some(3)");
    assert_eq!(to_bracketed(&[]), "[]");
    assert_eq!(to_bracketed(&[1, 22]), "[1, 22]");
    assert_eq!(to_bracketed_bytes(&[1, 255]), "[1, 255]");
    assert_eq!(KeyPresence::Absent.label(), format!("{:?}", KeyPresence::Absent));
    let p = KeyPresence::Present { version: 4 };
    assert_eq!(p.label(), format!("{p:?}"));
    assert_eq!(GroupId::Data(3).label(), format!("{:?}", GroupId::Data(3)));
    assert_eq!(
        format!("{:?}", MutationResult::Applied { version: 1 }),
        "Applied { version: 1 }"
    );
}

#[test]
fn switches_have_defaults() {
    let text = |s: &str| s.to_string();
    assert!(on_by_default(None));
    assert!(!off_by_default(None));
    assert!(!on_by_default(Some(&text("0"))));
    assert!(on_by_default(Some(&text("1"))));
    assert!(off_by_default(Some(&text("1"))));
    assert!(!off_by_default(Some(&text("0"))));
}
