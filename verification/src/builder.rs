//! The transaction builder of `zcash_primitives`.

use vstd::prelude::*;
use zcash_primitives::consensus::{BlockHeight, BranchId, Network};
use zcash_primitives::legacy::{Script, TransparentAddress};
use zcash_primitives::primitives::PaymentAddress;
use zcash_primitives::transaction::builder::{Builder, Error};
use zcash_primitives::transaction::components::{Amount, OutPoint, TxOut};
use zcash_primitives::transaction::Transaction;
use zcash_proofs::prover::LocalTxProver;
use rand::rngs::OsRng;
use crate::transaction::sum_amounts;

verus! {

#[verifier::external_type_specification]
#[verifier::external_body]
pub struct ExBuilderError(Error);

#[verifier::external_type_specification]
#[verifier::external_body]
pub struct ExTransparentAddress(TransparentAddress);

#[verifier::external_type_specification]
#[verifier::external_body]
pub struct ExPaymentAddress(PaymentAddress);

#[verifier::external_type_specification]
#[verifier::external_body]
pub struct ExLocalTxProver(LocalTxProver);

#[verifier::external_type_specification]
#[verifier::external_body]
pub struct ExTransaction(Transaction);

#[verifier::external_type_specification]
#[verifier::external_body]
pub struct ExIoError(std::io::Error);

/// Largest amount, in zatoshis, that an `Amount` can hold (21 000 000 ZEC).
pub const MAX_MONEY: u64 = 2100000000000000;

/// Highest block height a builder accepts: the expiry height, 20 blocks
/// later, must fit a `u32`.
pub const MAX_HEIGHT: u32 = 4294967275;

/// The fee a builder charges, in zatoshis.
pub const BUILDER_FEE: u64 = 1000;

/// A transaction builder for the main network, drawing randomness from the OS.
///
/// Its fields are hidden from Verus: what it holds is known through
/// `builder_transparent_inputs`, `builder_transparent_outputs` and
/// `builder_sapling_outputs`.
#[verifier::external_body]
pub struct TxBuilder {
    inner: Builder<'static, Network, OsRng>,
}

/// The transparent inputs added to a builder: previous transaction id, output
/// index and coin value, in order.
pub uninterp spec fn builder_transparent_inputs(b: TxBuilder) -> Seq<(Seq<u8>, u32, u64)>;

/// The transparent outputs added to a builder, in order: for each, the
/// address it pays (the one whose script is the output's `script_pubkey`) and
/// its value.
pub uninterp spec fn builder_transparent_outputs(b: TxBuilder) -> Seq<(TransparentAddress, u64)>;

/// The values of the transparent outputs added to a builder, in order.
pub open spec fn builder_output_values(b: TxBuilder) -> Seq<u64> {
    builder_transparent_outputs(b).map_values(|o: (TransparentAddress, u64)| o.1)
}

/// The values of the Sapling outputs added to a builder, in order.
pub uninterp spec fn builder_sapling_outputs(b: TxBuilder) -> Seq<u64>;

/// The coin values of the transparent inputs added to a builder.
pub open spec fn builder_input_values(b: TxBuilder) -> Seq<u64> {
    builder_transparent_inputs(b).map_values(|e: (Seq<u8>, u32, u64)| e.2)
}

/// The builder's balance stays within the range of an `Amount` when `build`
/// computes it: Sapling outputs and fee, transparent inputs and transparent
/// outputs each sum to at most `MAX_MONEY`, and so does what the outputs and
/// fee take beyond the inputs.
pub open spec fn balance_in_range(b: TxBuilder) -> bool {
    let s = sum_amounts(builder_sapling_outputs(b));
    let t = sum_amounts(builder_output_values(b));
    let i = sum_amounts(builder_input_values(b));
    &&& s + BUILDER_FEE <= MAX_MONEY
    &&& t <= MAX_MONEY
    &&& i <= MAX_MONEY
    &&& s + BUILDER_FEE + t <= MAX_MONEY + i
}

/// SHA-256 applied twice.
pub uninterp spec fn sha256d(data: Seq<u8>) -> Seq<u8>;

/// A standard pay-to-public-key-hash script: `OP_DUP OP_HASH160 <20 bytes>
/// OP_EQUALVERIFY OP_CHECKSIG`.
pub open spec fn is_p2pkh_script(s: Seq<u8>) -> bool {
    &&& s.len() == 25
    &&& s[0] == 0x76u8
    &&& s[1] == 0xa9u8
    &&& s[2] == 0x14u8
    &&& s[23] == 0x88u8
    &&& s[24] == 0xacu8
}

/// Calls `Builder::new` for the main network at a block height.
///
/// Trusted: a new builder holds no inputs and no outputs. The crate adds 20
/// to the height for the expiry height, which overflows above `MAX_HEIGHT`,
/// so `requires` leaves those heights out.
#[verifier::external_body]
pub(crate) fn builder_new(height: u32) -> (b: TxBuilder)
    requires
        height <= MAX_HEIGHT,
    ensures
        builder_transparent_inputs(b) == Seq::<(Seq<u8>, u32, u64)>::empty(),
        builder_transparent_outputs(b) == Seq::<(TransparentAddress, u64)>::empty(),
        builder_sapling_outputs(b) == Seq::<u64>::empty(),
{
    TxBuilder { inner: Builder::new(Network::MainNetwork, BlockHeight::from_u32(height)) }
}

/// Calls `Builder::add_transparent_input` with the outpoint `(txid, index)` and
/// a coin of `value` locked by `script`.
///
/// Trusted: the crate accepts the input only when the script is a P2PKH script
/// (for which it compares the key's hash, not stated here); an accepted input
/// is recorded, a refused one leaves the builder as it was. `Amount::from_u64`
/// refuses values above `MAX_MONEY`, so `requires` leaves them out.
#[verifier::external_body]
pub(crate) fn builder_add_transparent_input(
    b: &mut TxBuilder,
    sk: secp256k1::SecretKey,
    txid: [u8; 32],
    index: u32,
    value: u64,
    script: &[u8],
) -> (r: Result<(), Error>)
    requires
        value <= MAX_MONEY,
    ensures
        !is_p2pkh_script(script@) ==> r is Err,
        r is Ok ==> builder_transparent_inputs(*final(b)) == builder_transparent_inputs(*old(b)).push(
            (txid@, index, value),
        ),
        r is Err ==> builder_transparent_inputs(*final(b)) == builder_transparent_inputs(*old(b)),
        builder_transparent_outputs(*final(b)) == builder_transparent_outputs(*old(b)),
        builder_sapling_outputs(*final(b)) == builder_sapling_outputs(*old(b)),
{
    let coin = TxOut { value: Amount::from_u64(value).unwrap(), script_pubkey: Script(script.to_vec()) };
    b.inner.add_transparent_input(sk, OutPoint::new(txid, index), coin)
}

/// Calls `Builder::add_transparent_output`.
///
/// Trusted: a non-negative amount is always accepted, and recorded as an
/// output paying `to` (the crate pushes a `TxOut` with `to.script()`).
#[verifier::external_body]
pub(crate) fn builder_add_transparent_output(
    b: &mut TxBuilder,
    to: &TransparentAddress,
    value: u64,
) -> (r: Result<(), Error>)
    requires
        value <= MAX_MONEY,
    ensures
        r is Ok,
        builder_transparent_outputs(*final(b)) == builder_transparent_outputs(*old(b)).push((*to, value)),
        builder_transparent_inputs(*final(b)) == builder_transparent_inputs(*old(b)),
        builder_sapling_outputs(*final(b)) == builder_sapling_outputs(*old(b)),
{
    b.inner.add_transparent_output(to, Amount::from_u64(value).unwrap())
}

/// Calls `Builder::add_sapling_output` with no outgoing viewing key and no memo.
///
/// Trusted: an accepted output is recorded and a refused one (an address with
/// no valid diversifier) leaves the recorded outputs as they were; which
/// addresses are refused is not stated. The crate subtracts each value from
/// the value balance, an `Amount` whose subtraction panics out of range, so
/// `requires` keeps the Sapling outputs' sum within `MAX_MONEY`.
#[verifier::external_body]
pub(crate) fn builder_add_sapling_output(
    b: &mut TxBuilder,
    to: PaymentAddress,
    value: u64,
) -> (r: Result<(), Error>)
    requires
        sum_amounts(builder_sapling_outputs(*old(b))) + value <= MAX_MONEY,
    ensures
        r is Ok ==> builder_sapling_outputs(*final(b)) == builder_sapling_outputs(*old(b)).push(value),
        r is Err ==> builder_sapling_outputs(*final(b)) == builder_sapling_outputs(*old(b)),
        builder_transparent_inputs(*final(b)) == builder_transparent_inputs(*old(b)),
        builder_transparent_outputs(*final(b)) == builder_transparent_outputs(*old(b)),
{
    b.inner.add_sapling_output(None, to, Amount::from_u64(value).unwrap(), None)
}

/// Calls `Builder::build` with the consensus branch of the main network at
/// `height`, keeping the transaction and dropping its metadata.
///
/// Trusted for nothing of the result: the transaction depends on the OS
/// randomness and its success on the proving parameters. `build` computes the
/// change with `Amount` arithmetic that panics out of range, so `requires`
/// keeps that balance in range.
#[verifier::external_body]
pub(crate) fn builder_build(b: TxBuilder, height: u32, prover: &LocalTxProver) -> (r: Result<Transaction, Error>)
    requires
        balance_in_range(b),
{
    let branch = BranchId::for_height(&Network::MainNetwork, BlockHeight::from_u32(height));
    b.inner.build(branch, prover).map(|(tx, _)| tx)
}

/// Calls `Transaction::write` into a new vector, then `Transaction::txid`.
///
/// Trusted: the id is SHA-256d of the bytes that `write` produces (the crate
/// computes the id in `Transaction::from_data` by writing the transaction
/// through a SHA-256d `HashWriter`, and `write` is deterministic).
#[verifier::external_body]
pub(crate) fn transaction_bytes_and_id(tx: &Transaction) -> (r: Result<(Vec<u8>, [u8; 32]), std::io::Error>)
    ensures
        r matches Ok((raw, id)) ==> id@ == sha256d(raw@),
{
    let mut raw = vec![];
    tx.write(&mut raw).map(|_| (raw, tx.txid().0))
}

} // verus!
