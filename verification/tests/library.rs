use std::cmp::Ordering;
use std::convert::TryFrom;

use libzcash::address::{
    Address, MAINNET, REGTEST, TESTNET,
};
use libzcash::f4jumble::{f4jumble, f4jumble_inv};
use libzcash::transaction::{checked_total, plan_outputs, DEFAULT_FEE};
use libzcash::{ParseError, Receiver, Typecode};

fn sample_addresses() -> Vec<Address> {
    vec![
        Address(vec![Receiver::Orchard([1; 43])]),
        Address(vec![Receiver::Sapling([5; 43])]),
        Address(vec![Receiver::Orchard([9; 43]), Receiver::P2pkh([3; 20])]),
        Address(vec![Receiver::P2sh([4; 20]), Receiver::Sapling([8; 43])]),
        Address(vec![
            Receiver::Sapling([2; 43]),
            Receiver::Orchard([7; 43]),
            Receiver::P2pkh([6; 20]),
        ]),
        Address(vec![
            Receiver::Orchard([1; 43]),
            Receiver::Unknown { typecode: 0x10, data: vec![7; 100] },
        ]),
    ]
}

#[test]
fn ua_roundtrip() {
    for hrp in [MAINNET, TESTNET, REGTEST] {
        for ua in sample_addresses() {
            let bytes = ua.to_bytes(hrp);
            let decoded = Address::try_from((hrp, &bytes[..]));
            assert_eq!(decoded, Ok(ua));
        }
    }
}

#[test]
fn to_bytes_known_vector_single_orchard() {
    let ua = Address(vec![Receiver::Orchard([1; 43])]);
    assert_eq!(ua.to_bytes(MAINNET), vec![0xc9, 0x89, 0x1a, 0xdb, 0x37, 0x41, 0x7f, 0x40, 0x5f, 0xef, 0x30, 0x9f, 0xdd, 0xb8, 0xd5, 0x52, 0xf9, 0xad, 0x82, 0xcb, 0xb7, 0xb6, 0x58, 0xec, 0x2f, 0x2a, 0x8b, 0x6c, 0x78, 0x19, 0x55, 0xc5, 0x77, 0x90, 0x14, 0x93, 0x3f, 0xae, 0x1e, 0xb8, 0xb7, 0xfb, 0x0b, 0xac, 0x72, 0x5e, 0xde, 0x28, 0xfb, 0x63, 0xe2, 0x63, 0x07, 0x04, 0x32, 0x0c, 0x53, 0xff, 0x39, 0x36, 0x6e]);
}

#[test]
fn to_bytes_known_vector_two_shielded() {
    let ua = Address(vec![Receiver::Orchard([1; 43]), Receiver::Sapling([2; 43])]);
    assert_eq!(ua.to_bytes(TESTNET), vec![0x5d, 0x64, 0x7f, 0x61, 0x28, 0x33, 0x71, 0x74, 0xe6, 0x9c, 0x1a, 0xc2, 0x30, 0xcf, 0xca, 0xef, 0xaf, 0x2f, 0x7a, 0xd1, 0x7a, 0x6f, 0xfd, 0x0a, 0x7b, 0x4f, 0xe9, 0x3d, 0x0f, 0x0a, 0x61, 0x45, 0x43, 0xa5, 0xf6, 0xf8, 0x97, 0x44, 0x63, 0x59, 0x0e, 0xb1, 0xe1, 0x9d, 0x33, 0x21, 0xd3, 0xa0, 0x30, 0x43, 0xe7, 0x87, 0xeb, 0x18, 0x2f, 0x43, 0x65, 0x55, 0xc5, 0xcc, 0xc9, 0x4d, 0x9d, 0x0b, 0x48, 0xd8, 0xc2, 0x05, 0x44, 0xa5, 0x29, 0x95, 0xc7, 0x17, 0xb6, 0x71, 0xba, 0xca, 0x5c, 0x93, 0xd7, 0xd5, 0xb8, 0x93, 0x17, 0x9c, 0x75, 0xc9, 0xd8, 0x88, 0xe2, 0xb0, 0x9b, 0x67, 0x62, 0x7c, 0xba, 0xd7, 0xea, 0xab, 0xf8, 0x11, 0x05, 0x04, 0xb9, 0x5c]);
}

#[test]
fn to_bytes_known_vector_several_blocks() {
    let ua = Address(vec![
        Receiver::Orchard([1; 43]),
        Receiver::Unknown { typecode: 0x10, data: vec![7; 100] },
    ]);
    assert_eq!(ua.to_bytes(REGTEST), vec![0x8c, 0x05, 0x32, 0x4e, 0x70, 0xfe, 0x42, 0xe3, 0xf4, 0x70, 0xc5, 0x6b, 0x3d, 0x41, 0xb7, 0xee, 0x03, 0x4a, 0x2f, 0x53, 0xcf, 0xa3, 0x4b, 0x16, 0x7b, 0xb4, 0x1b, 0xb7, 0x97, 0x9d, 0x74, 0x71, 0xf1, 0x89, 0x6f, 0xf0, 0x16, 0x9c, 0xf7, 0x67, 0x84, 0x3e, 0x08, 0xc7, 0x4b, 0x8a, 0x33, 0xdc, 0x9e, 0xcf, 0x43, 0x80, 0xfa, 0x1e, 0x8f, 0x54, 0xb5, 0xa2, 0xc7, 0x06, 0x78, 0xac, 0x97, 0x40, 0x44, 0xca, 0x15, 0xd6, 0x7d, 0x36, 0x7c, 0xf3, 0x2a, 0x80, 0x6e, 0x9a, 0x8d, 0x6c, 0x05, 0x9e, 0xe1, 0x5a, 0x71, 0x2b, 0x21, 0xf4, 0xcb, 0x37, 0x16, 0x4f, 0x29, 0xa3, 0x1f, 0x99, 0x15, 0x67, 0xc6, 0x3c, 0x66, 0xf1, 0xac, 0x87, 0x57, 0x2c, 0x08, 0x6e, 0x37, 0x45, 0x0a, 0xfc, 0x72, 0x18, 0x98, 0x34, 0x12, 0x61, 0x87, 0xda, 0x53, 0x29, 0x72, 0xee, 0x91, 0x89, 0x96, 0xfd, 0x4b, 0x3b, 0x9b, 0xa1, 0x56, 0x9e, 0x07, 0x20, 0x83, 0xa6, 0x2d, 0x39, 0x45, 0x8e, 0xfb, 0xc7, 0x06, 0xd3, 0xc3, 0xf3, 0x97, 0xfe, 0x53, 0xa3, 0xf2, 0x8e, 0x69, 0xbf, 0xca, 0x7d, 0xa6, 0xe2, 0x7d, 0x08, 0x4a, 0xfa, 0xf2]);
}

#[test]
fn f4jumble_inverts() {
    let msg: Vec<u8> = (0..200u32).map(|i| (i * 7 % 251) as u8).collect();
    let jumbled = f4jumble(&msg).unwrap();
    assert_eq!(jumbled.len(), msg.len());
    assert_ne!(jumbled, msg);
    assert_eq!(f4jumble_inv(&jumbled), Some(msg.clone()));
    let unjumbled = f4jumble_inv(&msg).unwrap();
    assert_eq!(f4jumble(&unjumbled), Some(msg));
}

#[test]
fn f4jumble_length_bounds() {
    assert_eq!(f4jumble(&[0u8; 47]), None);
    assert_eq!(f4jumble_inv(&[0u8; 47]), None);
    assert!(f4jumble(&[0u8; 48]).is_some());
    assert!(f4jumble(&vec![0u8; 16448]).is_some());
    assert_eq!(f4jumble(&vec![0u8; 16449]), None);
    assert_eq!(f4jumble_inv(&vec![0u8; 16449]), None);
}

#[test]
fn f4jumble_inv_recovers_padding_vector() {
    // The jumbled encoding of an Orchard receiver of [1; 43] followed by a padding of 0xff.
    let invalid_padding = [
        0xe6, 0x59, 0xd1, 0xed, 0xf7, 0x4b, 0xe3, 0x5e, 0x5a, 0x54, 0x0e, 0x41, 0x5d, 0x2f,
        0x0c, 0x0d, 0x33, 0x42, 0xbd, 0xbe, 0x9f, 0x82, 0x62, 0x01, 0xc1, 0x1b, 0xd4, 0x1e,
        0x42, 0x47, 0x86, 0x23, 0x05, 0x4b, 0x98, 0xd7, 0x76, 0x86, 0xa5, 0xe3, 0x1b, 0xd3,
        0x03, 0xca, 0x24, 0x44, 0x8e, 0x72, 0xc1, 0x4a, 0xc6, 0xbf, 0x3f, 0x2b, 0xce, 0xa7,
        0x7b, 0x28, 0x69, 0xc9, 0x84,
    ];
    let mut expected = vec![0x03, 43];
    expected.extend_from_slice(&[1; 43]);
    expected.extend_from_slice(&[0xff; 16]);
    assert_eq!(f4jumble_inv(&invalid_padding), Some(expected));
}

#[test]
fn wrong_hrp_is_invalid_encoding() {
    let ua = Address(vec![Receiver::Orchard([1; 43])]);
    let bytes = ua.to_bytes(MAINNET);
    assert_eq!(Address::try_from((TESTNET, &bytes[..])), Err(ParseError::InvalidEncoding));
    assert_eq!(
        Address::try_from(("an_hrp_of_17_byte", &bytes[..])),
        Err(ParseError::InvalidEncoding)
    );
}

#[test]
fn receiver_with_wrong_length_is_invalid_encoding() {
    assert_eq!(Receiver::try_from((0u8, &[0u8; 19][..])), Err(ParseError::InvalidEncoding));
    assert_eq!(Receiver::try_from((1u8, &[0u8; 21][..])), Err(ParseError::InvalidEncoding));
    assert_eq!(Receiver::try_from((2u8, &[0u8; 42][..])), Err(ParseError::InvalidEncoding));
    assert_eq!(Receiver::try_from((3u8, &[0u8; 44][..])), Err(ParseError::InvalidEncoding));
}

#[test]
fn receiver_from_parts_known_and_unknown() {
    assert_eq!(Receiver::try_from((0u8, &[9u8; 20][..])), Ok(Receiver::P2pkh([9; 20])));
    assert_eq!(Receiver::try_from((1u8, &[9u8; 20][..])), Ok(Receiver::P2sh([9; 20])));
    assert_eq!(Receiver::try_from((2u8, &[9u8; 43][..])), Ok(Receiver::Sapling([9; 43])));
    assert_eq!(Receiver::try_from((3u8, &[9u8; 43][..])), Ok(Receiver::Orchard([9; 43])));
    assert_eq!(
        Receiver::try_from((0x42u8, &[1u8, 2, 3][..])),
        Ok(Receiver::Unknown { typecode: 0x42, data: vec![1, 2, 3] })
    );
}

#[test]
fn receiver_typecode_and_addr() {
    let r = Receiver::Unknown { typecode: 0x42, data: vec![1, 2, 3] };
    assert_eq!(r.typecode(), Typecode::Unknown(0x42));
    assert_eq!(r.addr(), &[1u8, 2, 3][..]);
    let s = Receiver::Sapling([4; 43]);
    assert_eq!(s.typecode(), Typecode::Sapling);
    assert_eq!(s.addr(), &[4u8; 43][..]);
    assert_eq!(s.clone(), s);
}

#[test]
fn only_transparent_receivers() {
    assert_eq!(
        Address::try_from(vec![Receiver::P2pkh([0; 20])]),
        Err(ParseError::OnlyTransparent)
    );
    assert_eq!(Address::try_from(Vec::<Receiver>::new()), Err(ParseError::OnlyTransparent));
    assert_eq!(
        Address::try_from(vec![Receiver::Unknown { typecode: 9, data: vec![] }]),
        Ok(Address(vec![Receiver::Unknown { typecode: 9, data: vec![] }]))
    );
}

#[test]
fn first_conflict_is_reported() {
    assert_eq!(
        Address::try_from(vec![
            Receiver::P2sh([0; 20]),
            Receiver::P2pkh([0; 20]),
            Receiver::P2sh([1; 20]),
        ]),
        Err(ParseError::BothP2phkAndP2sh)
    );
    assert_eq!(
        Address::try_from(vec![
            Receiver::Orchard([0; 43]),
            Receiver::Orchard([1; 43]),
            Receiver::P2pkh([0; 20]),
            Receiver::P2sh([0; 20]),
        ]),
        Err(ParseError::DuplicateTypecode(Typecode::Orchard))
    );
}

#[test]
fn receivers_as_parsed_keeps_order() {
    let ua = Address(vec![Receiver::P2pkh([0; 20]), Receiver::Orchard([0; 43])]);
    assert_eq!(
        ua.receivers_as_parsed(),
        &[Receiver::P2pkh([0; 20]), Receiver::Orchard([0; 43])][..]
    );
}

#[test]
fn receivers_sort_unknown_by_descending_typecode() {
    let ua = Address(vec![
        Receiver::Unknown { typecode: 0x05, data: vec![] },
        Receiver::P2sh([0; 20]),
        Receiver::Unknown { typecode: 0xf0, data: vec![1] },
        Receiver::Sapling([0; 43]),
    ]);
    assert_eq!(
        ua.receivers(),
        vec![
            Receiver::Sapling([0; 43]),
            Receiver::P2sh([0; 20]),
            Receiver::Unknown { typecode: 0xf0, data: vec![1] },
            Receiver::Unknown { typecode: 0x05, data: vec![] },
        ]
    );
}

#[test]
fn typecode_byte_conversions() {
    assert_eq!(Typecode::from(0u8), Typecode::P2pkh);
    assert_eq!(Typecode::from(1u8), Typecode::P2sh);
    assert_eq!(Typecode::from(2u8), Typecode::Sapling);
    assert_eq!(Typecode::from(3u8), Typecode::Orchard);
    assert_eq!(Typecode::from(4u8), Typecode::Unknown(4));
    for b in 0..=255u8 {
        assert_eq!(u8::from(Typecode::from(b)), b);
    }
}

#[test]
fn typecode_transparency() {
    assert!(Typecode::P2pkh.is_transparent());
    assert!(Typecode::P2sh.is_transparent());
    assert!(!Typecode::Sapling.is_transparent());
    assert!(!Typecode::Orchard.is_transparent());
    assert!(!Typecode::Unknown(0x30).is_transparent());
}

#[test]
fn typecode_preference_order() {
    let order = [
        Typecode::Orchard,
        Typecode::Sapling,
        Typecode::P2sh,
        Typecode::P2pkh,
        Typecode::Unknown(0xff),
        Typecode::Unknown(0x04),
    ];
    for (i, a) in order.iter().enumerate() {
        for (j, b) in order.iter().enumerate() {
            assert_eq!(a.cmp(b), i.cmp(&j));
            assert_eq!(a.partial_cmp(b), Some(i.cmp(&j)));
        }
    }
    assert_eq!(Typecode::Unknown(7).cmp(&Typecode::Unknown(7)), Ordering::Equal);
    assert!(Typecode::Orchard < Typecode::P2pkh);
}

#[test]
fn receiver_order() {
    let a = Receiver::Orchard([1; 43]);
    let b = Receiver::Orchard([2; 43]);
    let c = Receiver::Sapling([0; 43]);
    assert_eq!(a.cmp(&b), Ordering::Less);
    assert_eq!(b.cmp(&a), Ordering::Greater);
    assert_eq!(a.cmp(&a), Ordering::Equal);
    assert_eq!(b.cmp(&c), Ordering::Less);
    let short = Receiver::Unknown { typecode: 9, data: vec![1, 2] };
    let long = Receiver::Unknown { typecode: 9, data: vec![1, 2, 0] };
    assert_eq!(short.cmp(&long), Ordering::Less);
    assert_eq!(long.partial_cmp(&short), Some(Ordering::Greater));
}

#[test]
fn error_messages() {
    assert_eq!(
        ParseError::BothP2phkAndP2sh.to_string(),
        "UA contains both P2PKH and P2SH receivers"
    );
    assert_eq!(ParseError::DuplicateTypecode(Typecode::Sapling).to_string(), "Duplicate typecode 2");
    assert_eq!(
        ParseError::DuplicateTypecode(Typecode::Unknown(42)).to_string(),
        "Duplicate typecode 42"
    );
    assert_eq!(
        ParseError::DuplicateTypecode(Typecode::Unknown(200)).to_string(),
        "Duplicate typecode 200"
    );
    assert_eq!(ParseError::InvalidEncoding.to_string(), "Invalid encoding");
    assert_eq!(ParseError::OnlyTransparent.to_string(), "UA only contains transparent receivers");
}

#[test]
fn totals_of_inputs() {
    assert_eq!(checked_total(&[]), Some(0));
    assert_eq!(checked_total(&[5, 7, 11]), Some(23));
    assert_eq!(checked_total(&[u64::MAX, 0]), Some(u64::MAX));
    assert_eq!(checked_total(&[u64::MAX, 1]), None);
}

#[test]
fn output_plans() {
    let p = plan_outputs(&[3000, 2000], 1500, true);
    assert_eq!(p.total, 5000);
    assert_eq!(p.output_index, 0);
    assert_eq!(p.output_amount, 1500);
    assert_eq!(p.change_index, 1);
    assert_eq!(p.change_amount, 2500);
    assert!(p.has_change_output);

    let q = plan_outputs(&[2500], 1500, false);
    assert_eq!(q.change_index, 0);
    assert_eq!(q.change_amount, 0);
    assert!(!q.has_change_output);
    assert_eq!(DEFAULT_FEE, 1000);
}

fn raw_orchard_ones(padding: &[u8]) -> Vec<u8> {
    let mut raw = vec![0x03, 43];
    raw.extend_from_slice(&[1; 43]);
    raw.extend_from_slice(padding);
    raw
}

#[test]
fn to_raw_bytes_layout() {
    let ua = Address(vec![Receiver::Orchard([1; 43]), Receiver::P2sh([2; 20])]);
    let mut expected = raw_orchard_ones(&[]);
    expected.extend_from_slice(&[0x01, 20]);
    expected.extend_from_slice(&[2; 20]);
    expected.extend_from_slice(b"utest");
    expected.extend_from_slice(&[0; 11]);
    assert_eq!(ua.to_raw_bytes(TESTNET), expected);
}

#[test]
fn from_raw_bytes_cases() {
    let mut padding = b"u".to_vec();
    padding.extend_from_slice(&[0; 15]);
    let good = raw_orchard_ones(&padding);
    assert_eq!(
        Address::from_raw_bytes(MAINNET, &good),
        Ok(Address(vec![Receiver::Orchard([1; 43])]))
    );
    assert_eq!(
        Address::from_raw_bytes(MAINNET, &raw_orchard_ones(&[0xff; 16])),
        Err(ParseError::InvalidEncoding)
    );
    assert_eq!(Address::from_raw_bytes(MAINNET, &good[1..]), Err(ParseError::InvalidEncoding));
    assert_eq!(Address::from_raw_bytes(MAINNET, &[0; 15]), Err(ParseError::InvalidEncoding));
    let mut truncated = vec![0x03, 43];
    truncated.extend_from_slice(&[1; 42]);
    truncated.extend_from_slice(&padding);
    assert_eq!(Address::from_raw_bytes(MAINNET, &truncated), Err(ParseError::InvalidEncoding));
    let mut dup = raw_orchard_ones(&[]);
    dup.extend_from_slice(&raw_orchard_ones(&padding));
    assert_eq!(
        Address::from_raw_bytes(MAINNET, &dup),
        Err(ParseError::DuplicateTypecode(Typecode::Orchard))
    );
}

#[test]
fn address_clone_is_equal() {
    let ua = Address(vec![
        Receiver::Sapling([3; 43]),
        Receiver::Unknown { typecode: 77, data: vec![1, 2, 3] },
    ]);
    assert_eq!(ua.clone(), ua);
}

#[test]
fn receivers_do_not_depend_on_order() {
    let a = Address(vec![
        Receiver::P2sh([1; 20]),
        Receiver::Unknown { typecode: 0x20, data: vec![5] },
        Receiver::Orchard([2; 43]),
        Receiver::Sapling([3; 43]),
    ]);
    let b = Address(vec![
        Receiver::Sapling([3; 43]),
        Receiver::Orchard([2; 43]),
        Receiver::P2sh([1; 20]),
        Receiver::Unknown { typecode: 0x20, data: vec![5] },
    ]);
    assert_eq!(a.receivers(), b.receivers());
    assert_eq!(Address(a.receivers()).receivers(), a.receivers());
}
