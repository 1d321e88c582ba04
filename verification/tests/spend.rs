use libzcash::spend::{
    decode_input, describe_transaction, prepare_builder, AssembleError, InputError, InputText,
    Recipient,
};
use libzcash::transaction::plan_outputs;
use zcash_primitives::legacy::TransparentAddress;

const ORDER: &str = "fffffffffffffffffffffffffffffffebaaedce6af48a03bbfd25e8cd0364141";
const ORDER_MINUS_ONE: &str = "FFFFFFFFFFFFFFFFFFFFFFFFFFFFFFFEBAAEDCE6AF48A03BBFD25E8CD0364140";

fn hash_text() -> String {
    "00112233445566778899aabbccddeeff00112233445566778899AABBCCDDEEFF".to_string()
}

fn hash_bytes() -> [u8; 32] {
    let mut h = [0u8; 32];
    for i in 0..16 {
        h[i] = (i as u8) * 0x11;
        h[16 + i] = (i as u8) * 0x11;
    }
    h
}

#[test]
fn decode_input_valid() {
    let key_text = "01".repeat(32);
    let d = decode_input(&hash_text(), 7, &key_text).unwrap();
    assert_eq!(d.txid, hash_bytes());
    assert_eq!(d.index, 7);
    assert_eq!(d.secret_key, secp256k1::SecretKey::from_slice(&[1u8; 32]).unwrap());
    let high = decode_input(&hash_text(), 0, ORDER_MINUS_ONE).unwrap();
    let mut expected = [0xffu8; 32];
    expected[15] = 0xfe;
    expected[16..].copy_from_slice(&[
        0xba, 0xae, 0xdc, 0xe6, 0xaf, 0x48, 0xa0, 0x3b, 0xbf, 0xd2, 0x5e, 0x8c, 0xd0, 0x36, 0x41,
        0x40,
    ]);
    assert_eq!(high.secret_key, secp256k1::SecretKey::from_slice(&expected).unwrap());
}

#[test]
fn decode_input_bad_hash() {
    let key_text = "01".repeat(32);
    assert_eq!(
        decode_input(&hash_text()[1..], 0, &key_text),
        Err(InputError::InvalidTransactionHash)
    );
    assert_eq!(
        decode_input(&hash_text()[2..], 0, &key_text),
        Err(InputError::InvalidTransactionHash)
    );
    let mut bad = hash_text();
    bad.replace_range(0..1, "g");
    assert_eq!(decode_input(&bad, 0, &key_text), Err(InputError::InvalidTransactionHash));
    assert_eq!(decode_input("zz", 0, "x"), Err(InputError::InvalidTransactionHash));
}

#[test]
fn decode_input_bad_key() {
    assert_eq!(decode_input(&hash_text(), 0, "abc"), Err(InputError::InvalidPrivateKeyHex));
    assert_eq!(decode_input(&hash_text(), 0, "0x01"), Err(InputError::InvalidPrivateKeyHex));
    assert_eq!(decode_input(&hash_text(), 0, "0101"), Err(InputError::InvalidSecretKey));
    assert_eq!(
        decode_input(&hash_text(), 0, &"00".repeat(32)),
        Err(InputError::InvalidSecretKey)
    );
    assert_eq!(decode_input(&hash_text(), 0, ORDER), Err(InputError::InvalidSecretKey));
}

#[test]
fn describe_transaction_is_lowercase_hex() {
    let t = describe_transaction(&hash_bytes(), &[0x00, 0xab, 0x7f]);
    assert_eq!(
        t.transaction_id,
        "00112233445566778899aabbccddeeff00112233445566778899aabbccddeeff"
    );
    assert_eq!(t.raw, "00ab7f");
}

fn input(key: &str) -> InputText {
    InputText { transaction_hash: hash_text(), index: 0, private_key: key.to_string() }
}

#[test]
fn prepare_builder_rejects_inputs() {
    let plan = plan_outputs(&[5000], 1500, true);
    let recipient = Recipient::Transparent(TransparentAddress::PublicKey([3; 20]));
    let change = Some(TransparentAddress::PublicKey([4; 20]));
    let r = prepare_builder(1_000_000, &[input(&"01".repeat(32))], plan, recipient, change);
    assert_eq!(r.err(), Some(AssembleError::InputRejected));
}

#[test]
fn prepare_builder_without_inputs() {
    let plan = plan_outputs(&[5000], 1500, true);
    let recipient = Recipient::Transparent(TransparentAddress::Script([3; 20]));
    let change = Some(TransparentAddress::PublicKey([4; 20]));
    assert!(prepare_builder(1_000_000, &[], plan, recipient, change).is_ok());
}
