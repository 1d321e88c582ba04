//! F4Jumble: the unkeyed 4-round Feistel permutation that a Unified Address
//! applies to its raw encoding, built on personalized BLAKE2b.

use vstd::prelude::*;
use crate::blake2b::{blake2b_personal, blake2b_hash};

verus! {

/// Output length of BLAKE2b-512.
pub const OUTBYTES: usize = 64;

/// Shortest message that F4Jumble accepts.
pub const MIN_LENGTH: usize = 48;

/// Longest message that F4Jumble accepts.
pub const MAX_LENGTH: usize = 16448;

/// Whether F4Jumble accepts a message of length `n`.
pub open spec fn valid_length(n: nat) -> bool {
    MIN_LENGTH <= n <= MAX_LENGTH
}

/// Length of the left half: `min(64, n / 2)`.
pub open spec fn left_len(n: nat) -> nat {
    if n / 2 < OUTBYTES { n / 2 } else { OUTBYTES as nat }
}

/// Personalization of the round function `H_i`: "UA_F4Jumble_H_" || i || 0.
pub open spec fn h_personal(i: u8) -> Seq<u8> {
    seq![85u8, 65, 95, 70, 52, 74, 117, 109, 98, 108, 101, 95, 72, 95, i, 0]
}

/// Personalization of block `j` of the round function `G_i`: "UA_F4Jumble_G_" || i || j.
pub open spec fn g_personal(i: u8, j: u8) -> Seq<u8> {
    seq![85u8, 65, 95, 70, 52, 74, 117, 109, 98, 108, 101, 95, 71, 95, i, j]
}

/// `H_i(u)`: BLAKE2b of `u` with output length `l_l`.
pub open spec fn round_h(i: u8, l_l: nat, u: Seq<u8>) -> Seq<u8> {
    blake2b_personal(l_l as usize, h_personal(i), u)
}

/// The first `n` 64-byte blocks of `G_i(u)`.
pub open spec fn g_blocks(i: u8, u: Seq<u8>, n: nat) -> Seq<u8>
    decreases n,
{
    if n == 0 {
        Seq::empty()
    } else {
        g_blocks(i, u, (n - 1) as nat) + blake2b_personal(OUTBYTES, g_personal(i, (n - 1) as u8), u)
    }
}

/// `ceil(num / 64)`.
pub open spec fn block_count(num: nat) -> nat {
    (num + 63) / 64
}

/// `G_i(u)`: the first `l_r` bytes of the concatenated 64-byte blocks.
pub open spec fn round_g(i: u8, l_r: nat, u: Seq<u8>) -> Seq<u8> {
    g_blocks(i, u, block_count(l_r)).take(l_r as int)
}

/// Bytewise exclusive or of `a` with the first `a.len()` bytes of `k`.
pub open spec fn xor_with(a: Seq<u8>, k: Seq<u8>) -> Seq<u8> {
    Seq::new(a.len(), |n: int| a[n] ^ k[n])
}

/// F4Jumble of `m`, or `None` when its length is out of range.
pub open spec fn spec_f4jumble(m: Seq<u8>) -> Option<Seq<u8>> {
    if !valid_length(m.len()) {
        None
    } else {
        let l_l = left_len(m.len());
        let l_r = (m.len() - l_l) as nat;
        let a = m.take(l_l as int);
        let b = m.skip(l_l as int);
        let x = xor_with(b, round_g(0, l_r, a));
        let y = xor_with(a, round_h(0, l_l, x));
        let d = xor_with(x, round_g(1, l_r, y));
        let c = xor_with(y, round_h(1, l_l, d));
        Some(c + d)
    }
}

/// Inverse F4Jumble of `c`, or `None` when its length is out of range.
pub open spec fn spec_f4jumble_inv(m: Seq<u8>) -> Option<Seq<u8>> {
    if !valid_length(m.len()) {
        None
    } else {
        let l_l = left_len(m.len());
        let l_r = (m.len() - l_l) as nat;
        let c = m.take(l_l as int);
        let d = m.skip(l_l as int);
        let y = xor_with(c, round_h(1, l_l, d));
        let x = xor_with(d, round_g(1, l_r, y));
        let a = xor_with(y, round_h(0, l_l, x));
        let b = xor_with(x, round_g(0, l_r, a));
        Some(a + b)
    }
}

/// The bytes held by an optional vector.
pub open spec fn option_bytes(r: Option<Vec<u8>>) -> Option<Seq<u8>> {
    match r {
        Some(v) => Some(v@),
        None => None,
    }
}

proof fn lemma_xor_twice(a: Seq<u8>, k: Seq<u8>)
    ensures
        xor_with(xor_with(a, k), k) =~= a,
{
    assert forall|n: int| 0 <= n < a.len() implies #[trigger] xor_with(xor_with(a, k), k)[n] == a[n] by {
        let (p, q) = (a[n], k[n]);
        assert((p ^ q) ^ q == p) by (bit_vector);
    }
}

/// F4Jumble keeps the length of the message.
pub proof fn lemma_f4jumble_len(m: Seq<u8>)
    ensures
        spec_f4jumble(m) matches Some(c) ==> c.len() == m.len(),
        spec_f4jumble_inv(m) matches Some(c) ==> c.len() == m.len(),
{
}

/// Inverse F4Jumble undoes F4Jumble.
pub proof fn lemma_f4jumble_inv_of_f4jumble(m: Seq<u8>)
    requires
        valid_length(m.len()),
    ensures
        spec_f4jumble(m) matches Some(c) && spec_f4jumble_inv(c) == Some(m),
{
    let l_l = left_len(m.len());
    let l_r = (m.len() - l_l) as nat;
    let a = m.take(l_l as int);
    let b = m.skip(l_l as int);
    let x = xor_with(b, round_g(0, l_r, a));
    let y = xor_with(a, round_h(0, l_l, x));
    let d = xor_with(x, round_g(1, l_r, y));
    let c = xor_with(y, round_h(1, l_l, d));
    let e = c + d;
    assert(e.take(l_l as int) =~= c);
    assert(e.skip(l_l as int) =~= d);
    lemma_xor_twice(y, round_h(1, l_l, d));
    lemma_xor_twice(x, round_g(1, l_r, y));
    lemma_xor_twice(a, round_h(0, l_l, x));
    lemma_xor_twice(b, round_g(0, l_r, a));
    assert(a + b =~= m);
}

/// F4Jumble undoes inverse F4Jumble.
pub proof fn lemma_f4jumble_of_f4jumble_inv(m: Seq<u8>)
    requires
        valid_length(m.len()),
    ensures
        spec_f4jumble_inv(m) matches Some(a) && spec_f4jumble(a) == Some(m),
{
    let l_l = left_len(m.len());
    let l_r = (m.len() - l_l) as nat;
    let c = m.take(l_l as int);
    let d = m.skip(l_l as int);
    let y = xor_with(c, round_h(1, l_l, d));
    let x = xor_with(d, round_g(1, l_r, y));
    let a = xor_with(y, round_h(0, l_l, x));
    let b = xor_with(x, round_g(0, l_r, a));
    let e = a + b;
    assert(e.take(l_l as int) =~= a);
    assert(e.skip(l_l as int) =~= b);
    lemma_xor_twice(x, round_g(0, l_r, a));
    lemma_xor_twice(y, round_h(0, l_l, x));
    lemma_xor_twice(d, round_g(1, l_r, y));
    lemma_xor_twice(c, round_h(1, l_l, d));
    assert(c + d =~= m);
}

/// The first `n` blocks of `G_i(u)`, one digest per block.
proof fn lemma_g_blocks_flatten(i: u8, u: Seq<u8>, n: nat)
    requires
        n <= 256,
    ensures
        g_blocks(i, u, n) == Seq::new(
            n,
            |j: int|
                blake2b_personal(
                    64usize,
                    seq![85u8, 65, 95, 70, 52, 74, 117, 109, 98, 108, 101, 95, 71, 95, i, j as u8],
                    u,
                ),
        ).flatten(),
    decreases n,
{
    let blocks = Seq::new(
        n,
        |j: int|
            blake2b_personal(
                64usize,
                seq![85u8, 65, 95, 70, 52, 74, 117, 109, 98, 108, 101, 95, 71, 95, i, j as u8],
                u,
            ),
    );
    blocks.lemma_flatten_and_flatten_alt_are_equivalent();
    if n == 0 {
        assert(blocks.flatten_alt() =~= Seq::<u8>::empty());
    } else {
        let m = (n - 1) as nat;
        lemma_g_blocks_flatten(i, u, m);
        let prefix = Seq::new(
            m,
            |j: int|
                blake2b_personal(
                    64usize,
                    seq![85u8, 65, 95, 70, 52, 74, 117, 109, 98, 108, 101, 95, 71, 95, i, j as u8],
                    u,
                ),
        );
        assert(blocks.drop_last() =~= prefix);
        prefix.lemma_flatten_and_flatten_alt_are_equivalent();
        assert(g_personal(i, m as u8) =~= seq![
            85u8, 65, 95, 70, 52, 74, 117, 109, 98, 108, 101, 95, 71, 95, i, m as u8,
        ]);
    }
}

/// The round function `G_i` spelled out: its keystream is the concatenation,
/// for block indices `j = 0, 1, ...` up to `ceil(l_r / 64)`, of the BLAKE2b-512
/// digest of `u` personalized "UA_F4Jumble_G_" || i || j, truncated to `l_r`
/// bytes.
pub proof fn lemma_round_g_blocks(i: u8, l_r: nat, u: Seq<u8>)
    requires
        l_r <= 256 * 64,
    ensures
        round_g(i, l_r, u) == Seq::new(
            (l_r + 63) / 64,
            |j: int|
                blake2b_personal(
                    64usize,
                    seq![85u8, 65, 95, 70, 52, 74, 117, 109, 98, 108, 101, 95, 71, 95, i, j as u8],
                    u,
                ),
        ).flatten().take(l_r as int),
{
    lemma_g_blocks_flatten(i, u, block_count(l_r));
}

/// The round function `H_i` spelled out: the BLAKE2b digest of `u` of length
/// `l_l`, personalized "UA_F4Jumble_H_" || i || 0.
pub proof fn lemma_round_h_digest(i: u8, l_l: nat, u: Seq<u8>)
    ensures
        round_h(i, l_l, u) == blake2b_personal(
            l_l as usize,
            seq![85u8, 65, 95, 70, 52, 74, 117, 109, 98, 108, 101, 95, 72, 95, i, 0u8],
            u,
        ),
{
    assert(h_personal(i) =~= seq![85u8, 65, 95, 70, 52, 74, 117, 109, 98, 108, 101, 95, 72, 95, i, 0u8]);
}

/// Bytewise exclusive or of `a` with the first `a.len()` bytes of `k`.
fn xor(a: &[u8], k: &[u8]) -> (r: Vec<u8>)
    requires
        a@.len() <= k@.len(),
    ensures
        r@ == xor_with(a@, k@),
{
    let mut r: Vec<u8> = Vec::with_capacity(a.len());
    let mut n: usize = 0;
    while n < a.len()
        invariant
            n <= a@.len() <= k@.len(),
            r@ =~= xor_with(a@, k@).take(n as int),
        decreases a@.len() - n,
    {
        r.push(a[n] ^ k[n]);
        n = n + 1;
    }
    r
}

/// `H_i(u)` with output length `l_l`.
fn round_h_exec(i: u8, l_l: usize, u: &[u8]) -> (r: Vec<u8>)
    requires
        1 <= l_l <= OUTBYTES,
    ensures
        r@ == round_h(i, l_l as nat, u@),
        r@.len() == l_l,
{
    let personal: [u8; 16] = [85u8, 65, 95, 70, 52, 74, 117, 109, 98, 108, 101, 95, 72, 95, i, 0];
    assert(personal@ =~= h_personal(i));
    blake2b_hash(l_l, &personal, u)
}

/// `G_i(u)` truncated to `l_r` bytes.
fn round_g_exec(i: u8, l_r: usize, u: &[u8]) -> (r: Vec<u8>)
    requires
        l_r <= 256 * OUTBYTES,
    ensures
        r@ == round_g(i, l_r as nat, u@),
        r@.len() == l_r,
{
    let blocks: usize = (l_r + 63) / 64;
    let mut r: Vec<u8> = Vec::with_capacity(blocks * 64);
    let mut j: usize = 0;
    while j < blocks
        invariant
            blocks == block_count(l_r as nat),
            blocks <= 256,
            j <= blocks,
            r@ == g_blocks(i, u@, j as nat),
            r@.len() == j * 64,
        decreases blocks - j,
    {
        let personal: [u8; 16] = [85u8, 65, 95, 70, 52, 74, 117, 109, 98, 108, 101, 95, 71, 95, i, j as u8];
        assert(personal@ =~= g_personal(i, j as u8));
        let mut block = blake2b_hash(OUTBYTES, &personal, u);
        r.append(&mut block);
        j = j + 1;
    }
    r.truncate(l_r);
    r
}

/// F4Jumble of `a`, or `None` when its length is outside `48..=16448`.
pub fn f4jumble(a: &[u8]) -> (r: Option<Vec<u8>>)
    ensures
        option_bytes(r) == spec_f4jumble(a@),
{
    if a.len() < MIN_LENGTH || a.len() > MAX_LENGTH {
        return None;
    }
    let l_l: usize = if a.len() / 2 < OUTBYTES { a.len() / 2 } else { OUTBYTES };
    let l_r: usize = a.len() - l_l;
    let (a, b) = a.split_at(l_l);
    let gx = round_g_exec(0, l_r, a);
    let x = xor(b, &gx);
    let hy = round_h_exec(0, l_l, &x);
    let y = xor(a, &hy);
    let gd = round_g_exec(1, l_r, &y);
    let d = xor(&x, &gd);
    let hc = round_h_exec(1, l_l, &d);
    let mut c = xor(&y, &hc);
    let mut d = d;
    c.append(&mut d);
    Some(c)
}

/// Inverse F4Jumble of `c`, or `None` when its length is outside `48..=16448`.
pub fn f4jumble_inv(c: &[u8]) -> (r: Option<Vec<u8>>)
    ensures
        option_bytes(r) == spec_f4jumble_inv(c@),
{
    if c.len() < MIN_LENGTH || c.len() > MAX_LENGTH {
        return None;
    }
    let l_l: usize = if c.len() / 2 < OUTBYTES { c.len() / 2 } else { OUTBYTES };
    let l_r: usize = c.len() - l_l;
    let (c, d) = c.split_at(l_l);
    let hy = round_h_exec(1, l_l, d);
    let y = xor(c, &hy);
    let gx = round_g_exec(1, l_r, &y);
    let x = xor(d, &gx);
    let ha = round_h_exec(0, l_l, &x);
    let mut a = xor(&y, &ha);
    let gb = round_g_exec(0, l_r, &a);
    let mut b = xor(&x, &gb);
    a.append(&mut b);
    Some(a)
}

} // verus!
