use std::convert::TryFrom;

use libzcash::{Address, ParseError, Receiver, Typecode, MAINNET};

#[test]
fn padding() {
    // The test cases below use `Address(vec![Receiver::Orchard([1; 43])])` as base.

    // Invalid padding ([0xff; 16] instead of [b'u', 0x00, 0x00, 0x00...])
    let invalid_padding = [
        0xe6, 0x59, 0xd1, 0xed, 0xf7, 0x4b, 0xe3, 0x5e, 0x5a, 0x54, 0x0e, 0x41, 0x5d, 0x2f,
        0x0c, 0x0d, 0x33, 0x42, 0xbd, 0xbe, 0x9f, 0x82, 0x62, 0x01, 0xc1, 0x1b, 0xd4, 0x1e,
        0x42, 0x47, 0x86, 0x23, 0x05, 0x4b, 0x98, 0xd7, 0x76, 0x86, 0xa5, 0xe3, 0x1b, 0xd3,
        0x03, 0xca, 0x24, 0x44, 0x8e, 0x72, 0xc1, 0x4a, 0xc6, 0xbf, 0x3f, 0x2b, 0xce, 0xa7,
        0x7b, 0x28, 0x69, 0xc9, 0x84,
    ];
    assert_eq!(
        Address::try_from((MAINNET, &invalid_padding[..])),
        Err(ParseError::InvalidEncoding)
    );

    // Short padding (padded to 15 bytes instead of 16)
    let truncated_padding = [
        0x9a, 0x56, 0x12, 0xa3, 0x43, 0x45, 0xe0, 0x82, 0x6c, 0xac, 0x24, 0x8b, 0x3b, 0x45,
        0x72, 0x9a, 0x53, 0xd5, 0xf8, 0xda, 0xec, 0x07, 0x7c, 0xba, 0x9f, 0xa8, 0xd2, 0x97,
        0x5b, 0xda, 0x73, 0x1b, 0xd2, 0xd1, 0x32, 0x6b, 0x7b, 0x36, 0xdd, 0x57, 0x84, 0x2a,
        0xa0, 0x21, 0x23, 0x89, 0x73, 0x85, 0xe1, 0x4b, 0x3e, 0x95, 0xb7, 0xd4, 0x67, 0xbc,
        0x4b, 0x31, 0xee, 0x5a,
    ];
    assert_eq!(
        Address::try_from((MAINNET, &truncated_padding[..])),
        Err(ParseError::InvalidEncoding)
    );
}

#[test]
fn truncated() {
    // The test cases below start from an encoding of
    //     `Address(vec![Receiver::Orchard([1; 43]), Receiver::Sapling([2; 43])])`
    // with the receiver data truncated, but valid padding.

    // - Missing the last data byte of the Sapling receiver.
    let truncated_sapling_data = [
        0xaa, 0xb0, 0x6e, 0x7b, 0x26, 0x7a, 0x22, 0x17, 0x39, 0xfa, 0x07, 0x69, 0xe9, 0x32,
        0x2b, 0xac, 0x8c, 0x9e, 0x5e, 0x8a, 0xd9, 0x24, 0x06, 0x5a, 0x13, 0x79, 0x3a, 0x8d,
        0xb4, 0x52, 0xfa, 0x18, 0x4e, 0x33, 0x4d, 0x8c, 0x17, 0x77, 0x4d, 0x63, 0x69, 0x34,
        0x22, 0x70, 0x3a, 0xea, 0x30, 0x82, 0x5a, 0x6b, 0x37, 0xd1, 0x0d, 0xbe, 0x20, 0xab,
        0x82, 0x86, 0x98, 0x34, 0x6a, 0xd8, 0x45, 0x40, 0xd0, 0x25, 0x60, 0xbf, 0x1e, 0xb6,
        0xeb, 0x06, 0x85, 0x70, 0x4c, 0x42, 0xbc, 0x19, 0x14, 0xef, 0x7a, 0x05, 0xa0, 0x71,
        0xb2, 0x63, 0x80, 0xbb, 0xdc, 0x12, 0x08, 0x48, 0x28, 0x8f, 0x1c, 0x9e, 0xc3, 0x42,
        0xc6, 0x5e, 0x68, 0xa2, 0x78, 0x6c, 0x9e,
    ];
    assert_eq!(
        Address::try_from((MAINNET, &truncated_sapling_data[..])),
        Err(ParseError::InvalidEncoding)
    );

    // - Truncated after the typecode of the Sapling receiver.
    let truncated_after_sapling_typecode = [
        0x87, 0x7a, 0xdf, 0x79, 0x6b, 0xe3, 0xb3, 0x40, 0xef, 0xe4, 0x5d, 0xc2, 0x91, 0xa2,
        0x81, 0xfc, 0x7d, 0x76, 0xbb, 0xb0, 0x58, 0x98, 0x53, 0x59, 0xd3, 0x3f, 0xbc, 0x4b,
        0x86, 0x59, 0x66, 0x62, 0x75, 0x92, 0xba, 0xcc, 0x31, 0x1e, 0x60, 0x02, 0x3b, 0xd8,
        0x4c, 0xdf, 0x36, 0xa1, 0xac, 0x82, 0x57, 0xed, 0x0c, 0x98, 0x49, 0x8f, 0x49, 0x7e,
        0xe6, 0x70, 0x36, 0x5b, 0x7b, 0x9e,
    ];
    assert_eq!(
        Address::try_from((MAINNET, &truncated_after_sapling_typecode[..])),
        Err(ParseError::InvalidEncoding)
    );
}

#[test]
fn duplicate_typecode() {
    // Construct and serialize an invalid UA.
    let ua = Address(vec![Receiver::Sapling([1; 43]), Receiver::Sapling([2; 43])]);
    let encoded = ua.to_bytes(MAINNET);
    assert_eq!(
        Address::try_from((MAINNET, &encoded[..])),
        Err(ParseError::DuplicateTypecode(Typecode::Sapling))
    );
}

#[test]
fn p2pkh_and_p2sh() {
    // Construct and serialize an invalid UA.
    let ua = Address(vec![Receiver::P2pkh([0; 20]), Receiver::P2sh([0; 20])]);
    let encoded = ua.to_bytes(MAINNET);
    assert_eq!(
        Address::try_from((MAINNET, &encoded[..])),
        Err(ParseError::BothP2phkAndP2sh)
    );
}

#[test]
fn only_transparent() {
    // Encoding of `Address(vec![Receiver::P2pkh([0; 20])])`.
    let encoded = vec![
        0xf0, 0x9e, 0x9d, 0x6e, 0xf5, 0xa6, 0xac, 0x16, 0x50, 0xf0, 0xdb, 0xe1, 0x2c, 0xa5,
        0x36, 0x22, 0xa2, 0x04, 0x89, 0x86, 0xe9, 0x6a, 0x9b, 0xf3, 0xff, 0x6d, 0x2f, 0xe6,
        0xea, 0xdb, 0xc5, 0x20, 0x62, 0xf9, 0x6f, 0xa9, 0x86, 0xcc,
    ];

    // We can't actually exercise this error, because at present the only transparent
    // receivers we can use are P2PKH and P2SH (which cannot be used together), and
    // with only one of them we don't have sufficient data for F4Jumble (so we hit a
    // different error).
    assert_eq!(
        Address::try_from((MAINNET, &encoded[..])),
        Err(ParseError::InvalidEncoding)
    );
}

#[test]
fn receivers_are_sorted() {
    // Construct a UA with receivers in an unsorted order.
    let ua = Address(vec![
        Receiver::P2pkh([0; 20]),
        Receiver::Orchard([0; 43]),
        Receiver::Unknown {
            typecode: 0xff,
            data: vec![],
        },
        Receiver::Sapling([0; 43]),
    ]);

    // `Address::receivers` sorts the receivers in priority order.
    assert_eq!(
        ua.receivers(),
        vec![
            Receiver::Orchard([0; 43]),
            Receiver::Sapling([0; 43]),
            Receiver::P2pkh([0; 20]),
            Receiver::Unknown {
                typecode: 0xff,
                data: vec![],
            },
        ]
    )
}
