//! Decoding the inputs of a transparent spend and assembling its transaction.

use vstd::prelude::*;
use vstd::string::StringSliceAdditionalSpecFns;
use vstd::utf8::encode_utf8;
use zcash_primitives::legacy::TransparentAddress;
use zcash_primitives::primitives::PaymentAddress;
use zcash_proofs::prover::LocalTxProver;
use crate::hexadecimal::{is_hex, hex_value, hex_text, hex_decode, hex_decode_32, hex_encode};
use crate::keys::{secret_key_valid, secret_key_of, secret_key_from_slice};
use crate::builder::{
    TxBuilder, MAX_MONEY, builder_new, builder_add_transparent_input,
    builder_add_transparent_output, builder_add_sapling_output, builder_build,
    transaction_bytes_and_id, builder_transparent_inputs, builder_transparent_outputs,
    builder_sapling_outputs, balance_in_range, sha256d, MAX_HEIGHT, BUILDER_FEE,
};
use crate::transaction::{OutputPlan, sum_amounts};

verus! {

/// An input as its caller gives it: the hexadecimal id of the transaction that
/// holds the coin, the index of the coin, and the hexadecimal secret key.
pub struct InputText {
    pub transaction_hash: String,
    pub index: u32,
    pub private_key: String,
}

/// Why an input's text is refused.
#[derive(Clone, Copy, Debug, PartialEq, Eq, Structural)]
pub enum InputError {
    /// The transaction id is not 64 hexadecimal digits.
    InvalidTransactionHash,
    /// The secret key is not hexadecimal text of even length.
    InvalidPrivateKeyHex,
    /// The secret key's bytes are not a secp256k1 secret key.
    InvalidSecretKey,
}

/// An input decoded from its text.
#[derive(Debug, PartialEq)]
pub struct DecodedInput {
    pub txid: [u8; 32],
    pub index: u32,
    pub secret_key: secp256k1::SecretKey,
}

/// The first reason, in the order the text is read, to refuse an input.
pub open spec fn input_error(hash: Seq<u8>, key: Seq<u8>) -> Option<InputError> {
    if !(is_hex(hash) && hash.len() == 64) {
        Some(InputError::InvalidTransactionHash)
    } else if !is_hex(key) {
        Some(InputError::InvalidPrivateKeyHex)
    } else if !secret_key_valid(hex_value(key)) {
        Some(InputError::InvalidSecretKey)
    } else {
        None
    }
}

/// Decodes an input: the transaction id from 64 hexadecimal digits, then the
/// secret key from hexadecimal text.
pub fn decode_input(transaction_hash: &str, index: u32, private_key: &str) -> (r: Result<
    DecodedInput,
    InputError,
>)
    ensures
        match input_error(transaction_hash.spec_bytes(), private_key.spec_bytes()) {
            Some(e) => r == Err::<DecodedInput, InputError>(e),
            None => r matches Ok(d) && d.txid@ == hex_value(transaction_hash.spec_bytes())
                && d.secret_key == secret_key_of(hex_value(private_key.spec_bytes()))
                && d.index == index,
        },
{
    let txid = match hex_decode_32(transaction_hash) {
        Ok(t) => t,
        Err(_) => {
            return Err(InputError::InvalidTransactionHash);
        },
    };
    let secret = match hex_decode(private_key) {
        Ok(s) => s,
        Err(_) => {
            return Err(InputError::InvalidPrivateKeyHex);
        },
    };
    match secret_key_from_slice(secret.as_slice()) {
        Ok(secret_key) => Ok(DecodedInput { txid, index, secret_key }),
        Err(_) => Err(InputError::InvalidSecretKey),
    }
}

/// The recipient of a spend.
pub enum Recipient {
    Shielded(PaymentAddress),
    Transparent(TransparentAddress),
}

/// Why a transaction could not be assembled.
#[derive(Clone, Copy, Debug, PartialEq, Eq, Structural)]
pub enum AssembleError {
    /// The builder refused an input.
    InputRejected,
    /// The builder refused the recipient's output.
    OutputRejected,
    /// The builder could not build the transaction.
    BuildFailed,
    /// The transaction could not be serialized.
    WriteFailed,
}

/// A built transaction as lowercase hexadecimal text: its id and its bytes.
pub struct BuiltTransaction {
    pub transaction_id: String,
    pub raw: String,
}

/// Every input's text decodes.
pub open spec fn inputs_decode(inputs: Seq<InputText>) -> bool {
    forall|i: int|
        0 <= i < inputs.len() ==> input_error(
            encode_utf8(#[trigger] inputs[i].transaction_hash@),
            encode_utf8(inputs[i].private_key@),
        ) is None
}

/// The transparent outputs of a spend, as (address, value): the amount sent
/// to the recipient when it is transparent, then the change to the change
/// address when there is change.
pub open spec fn expected_transparent_outputs(
    plan: OutputPlan,
    recipient: Recipient,
    change: Option<TransparentAddress>,
) -> Seq<(TransparentAddress, u64)> {
    (match recipient {
        Recipient::Transparent(a) => seq![(a, plan.output_amount)],
        Recipient::Shielded(_) => Seq::empty(),
    }) + (if plan.has_change_output {
        seq![(change.unwrap(), plan.change_amount)]
    } else {
        Seq::empty()
    })
}

/// Values of the Sapling outputs: the recipient's when it is shielded.
pub open spec fn expected_sapling_outputs(plan: OutputPlan, recipient_is_transparent: bool) -> Seq<u64> {
    if recipient_is_transparent {
        Seq::empty()
    } else {
        seq![plan.output_amount]
    }
}

/// What a spend needs of its plan: the amount sent, the change when there is
/// one and the fee sum to at most `MAX_MONEY`, and a change address exists
/// whenever there is change.
pub open spec fn plan_spendable(plan: OutputPlan, change: Option<TransparentAddress>) -> bool {
    &&& plan.output_amount + (if plan.has_change_output { plan.change_amount as int } else { 0 })
        + BUILDER_FEE <= MAX_MONEY
    &&& plan.has_change_output ==> change is Some
}

/// Fills a builder for the main network at `height`: each input with a coin of
/// the amount sent, locked by the empty script, which the builder refuses;
/// then the recipient's output; then the change output exactly when the plan
/// has one.
pub fn prepare_builder(
    height: u32,
    inputs: &[InputText],
    plan: OutputPlan,
    recipient: Recipient,
    change: Option<TransparentAddress>,
) -> (r: Result<TxBuilder, AssembleError>)
    requires
        height <= MAX_HEIGHT,
        inputs_decode(inputs@),
        plan_spendable(plan, change),
    ensures
        inputs@.len() > 0 ==> r == Err::<TxBuilder, AssembleError>(AssembleError::InputRejected),
        inputs@.len() == 0 ==> match r {
            Ok(b) => {
                &&& builder_transparent_inputs(b) == Seq::<(Seq<u8>, u32, u64)>::empty()
                &&& builder_transparent_outputs(b) == expected_transparent_outputs(plan, recipient, change)
                &&& builder_sapling_outputs(b) == expected_sapling_outputs(plan, recipient is Transparent)
            },
            Err(e) => e == AssembleError::OutputRejected && recipient is Shielded,
        },
{
    let mut b = builder_new(height);
    let no_script: Vec<u8> = Vec::new();
    let mut i: usize = 0;
    while i < inputs.len()
        invariant
            i == 0,
            inputs_decode(inputs@),
            plan_spendable(plan, change),
            no_script@.len() == 0,
            builder_transparent_inputs(b) == Seq::<(Seq<u8>, u32, u64)>::empty(),
            builder_transparent_outputs(b) == Seq::<(TransparentAddress, u64)>::empty(),
            builder_sapling_outputs(b) == Seq::<u64>::empty(),
        decreases inputs@.len() - i,
    {
        let input = &inputs[i];
        let decoded = match decode_input(input.transaction_hash.as_str(), input.index, input.private_key.as_str()) {
            Ok(d) => d,
            Err(e) => {
                assert(input_error(
                    encode_utf8(inputs@[i as int].transaction_hash@),
                    encode_utf8(inputs@[i as int].private_key@),
                ) is None);
                return Err(AssembleError::InputRejected);
            },
        };
        match builder_add_transparent_input(
            &mut b,
            decoded.secret_key,
            decoded.txid,
            decoded.index,
            plan.output_amount,
            no_script.as_slice(),
        ) {
            Ok(()) => {},
            Err(_) => {
                return Err(AssembleError::InputRejected);
            },
        }
        i = i + 1;
    }
    let ghost recipient_is_transparent = recipient is Transparent;
    let ghost whom = recipient;
    match recipient {
        Recipient::Shielded(addr) => {
            match builder_add_sapling_output(&mut b, addr, plan.output_amount) {
                Ok(()) => {},
                Err(_) => {
                    return Err(AssembleError::OutputRejected);
                },
            }
        },
        Recipient::Transparent(addr) => {
            match builder_add_transparent_output(&mut b, &addr, plan.output_amount) {
                Ok(()) => {},
                Err(_) => {
                    return Err(AssembleError::OutputRejected);
                },
            }
        },
    }
    if plan.has_change_output {
        match change {
            Some(addr) => {
                match builder_add_transparent_output(&mut b, &addr, plan.change_amount) {
                    Ok(()) => {},
                    Err(_) => {
                        return Err(AssembleError::OutputRejected);
                    },
                }
            },
            None => {},
        }
    }
    assert(builder_transparent_outputs(b) =~= expected_transparent_outputs(plan, whom, change));
    assert(builder_sapling_outputs(b) =~= expected_sapling_outputs(plan, recipient_is_transparent));
    Ok(b)
}

/// A transaction's id and bytes as lowercase hexadecimal text.
pub fn describe_transaction(id: &[u8; 32], raw: &[u8]) -> (t: BuiltTransaction)
    ensures
        t.transaction_id@ == hex_text(id@),
        t.raw@ == hex_text(raw@),
{
    BuiltTransaction { transaction_id: hex_encode(id.as_slice()), raw: hex_encode(raw) }
}

/// Hexadecimal text of some bytes and of their SHA-256d: the bytes of a
/// transaction and its id.
pub open spec fn is_transaction_text(t: BuiltTransaction) -> bool {
    exists|raw: Seq<u8>|
        #![trigger hex_text(raw)]
        t.raw@ == hex_text(raw) && t.transaction_id@ == hex_text(sha256d(raw))
}

/// Builds the filled builder's transaction and writes its bytes and its id as
/// lowercase hexadecimal text. The transaction depends on fresh randomness:
/// whatever comes back, the id is the SHA-256d of the bytes.
pub fn finish_transaction(b: TxBuilder, height: u32, prover: &LocalTxProver) -> (r: Result<
    BuiltTransaction,
    AssembleError,
>)
    requires
        balance_in_range(b),
    ensures
        r matches Err(e) ==> (e == AssembleError::BuildFailed || e == AssembleError::WriteFailed),
        r matches Ok(t) ==> is_transaction_text(t),
{
    let tx = match builder_build(b, height, prover) {
        Ok(tx) => tx,
        Err(_) => {
            return Err(AssembleError::BuildFailed);
        },
    };
    let (raw, id) = match transaction_bytes_and_id(&tx) {
        Ok(written) => written,
        Err(_) => {
            return Err(AssembleError::WriteFailed);
        },
    };
    let t = describe_transaction(&id, raw.as_slice());
    assert(is_transaction_text(t));
    Ok(t)
}

/// Assembles and builds the transaction of a spend: `prepare_builder`, then
/// `finish_transaction`.
pub fn assemble_transaction(
    height: u32,
    inputs: &[InputText],
    plan: OutputPlan,
    recipient: Recipient,
    change: Option<TransparentAddress>,
    prover: &LocalTxProver,
) -> (r: Result<BuiltTransaction, AssembleError>)
    requires
        height <= MAX_HEIGHT,
        inputs_decode(inputs@),
        plan_spendable(plan, change),
    ensures
        inputs@.len() > 0 ==> r == Err::<BuiltTransaction, AssembleError>(AssembleError::InputRejected),
        inputs@.len() == 0 ==> (r matches Err(e) ==> ((e == AssembleError::OutputRejected && recipient is Shielded)
            || e == AssembleError::BuildFailed || e == AssembleError::WriteFailed)),
        r matches Ok(t) ==> is_transaction_text(t),
{
    let ghost whom = recipient;
    let b = match prepare_builder(height, inputs, plan, recipient, change) {
        Ok(b) => b,
        Err(e) => {
            return Err(e);
        },
    };
    proof {
        lemma_plan_balance(b, plan, whom, change);
    }
    finish_transaction(b, height, prover)
}

/// Where the transparent outputs of a spend go: the recipient, when
/// transparent, is paid the amount sent by the first output; the change
/// address, when there is change, is paid the change by the last output; and
/// there are no other transparent outputs.
pub proof fn lemma_spend_output_addresses(plan: OutputPlan, recipient: Recipient, change: Option<TransparentAddress>)
    requires
        plan_spendable(plan, change),
    ensures
        expected_transparent_outputs(plan, recipient, change).len() == (if recipient is Transparent {
            1int
        } else {
            0int
        }) + (if plan.has_change_output {
            1int
        } else {
            0int
        }),
        recipient matches Recipient::Transparent(a) ==> expected_transparent_outputs(plan, recipient, change)[0]
            == (a, plan.output_amount),
        plan.has_change_output ==> (change matches Some(c) && expected_transparent_outputs(
            plan,
            recipient,
            change,
        ).last() == (c, plan.change_amount)),
        recipient is Shielded ==> expected_sapling_outputs(plan, recipient is Transparent) == seq![
            plan.output_amount,
        ],
        recipient is Transparent ==> expected_sapling_outputs(plan, recipient is Transparent).len() == 0,
{
}

/// A builder holding no inputs and the outputs of a spendable plan keeps its
/// balance in range.
proof fn lemma_plan_balance(b: TxBuilder, plan: OutputPlan, recipient: Recipient, change: Option<TransparentAddress>)
    requires
        builder_transparent_inputs(b) == Seq::<(Seq<u8>, u32, u64)>::empty(),
        builder_transparent_outputs(b) == expected_transparent_outputs(plan, recipient, change),
        builder_sapling_outputs(b) == expected_sapling_outputs(plan, recipient is Transparent),
        plan.output_amount + (if plan.has_change_output { plan.change_amount as int } else { 0 })
            + BUILDER_FEE <= MAX_MONEY,
    ensures
        balance_in_range(b),
{
    reveal_with_fuel(sum_amounts, 3);
    assert(crate::builder::builder_input_values(b) =~= Seq::<u64>::empty());
    let t = crate::builder::builder_output_values(b);
    let s = builder_sapling_outputs(b);
    if recipient is Transparent {
        if plan.has_change_output {
            assert(t =~= seq![plan.output_amount, plan.change_amount]);
            assert(t.drop_last() =~= seq![plan.output_amount]);
            assert(t.drop_last().drop_last() =~= Seq::<u64>::empty());
        } else {
            assert(t =~= seq![plan.output_amount]);
            assert(t.drop_last() =~= Seq::<u64>::empty());
        }
        assert(s =~= Seq::<u64>::empty());
    } else {
        if plan.has_change_output {
            assert(t =~= seq![plan.change_amount]);
            assert(t.drop_last() =~= Seq::<u64>::empty());
        } else {
            assert(t =~= Seq::<u64>::empty());
        }
        assert(s =~= seq![plan.output_amount]);
        assert(s.drop_last() =~= Seq::<u64>::empty());
    }
}

} // verus!
