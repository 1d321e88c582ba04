//! Unified Addresses: their receivers, raw encoding and validation.

use vstd::prelude::*;
use vstd::std_specs::convert::TryFromSpecImpl;
use vstd::string::StringSliceAdditionalSpecFns;
use crate::typecode::{Typecode, byte_of_typecode, typecode_rank};
use crate::receiver::{Receiver, ReceiverView, receiver_from_parts, lemma_receiver_parts_roundtrip, lemma_receiver_from_parts_inverse};
use crate::error::ParseError;
use crate::f4jumble::{f4jumble, f4jumble_inv, spec_f4jumble, spec_f4jumble_inv, valid_length, lemma_f4jumble_len, lemma_f4jumble_inv_of_f4jumble, lemma_f4jumble_of_f4jumble_inv};

verus! {

/// The HRP for a Bech32m-encoded mainnet Unified Address (ZIP 316).
pub const MAINNET: &'static str = "u";

/// The HRP for a Bech32m-encoded testnet Unified Address (ZIP 316).
pub const TESTNET: &'static str = "utest";

/// The HRP for a Bech32m-encoded regtest Unified Address.
pub const REGTEST: &'static str = "uregtest";

/// Length of the padding that ends a raw encoding.
pub const PADDING_LEN: usize = 16;

/// A Unified Address.
#[derive(Debug, PartialEq, Eq, Hash)]
pub struct Address(pub Vec<Receiver>);

/// The views of a sequence of receivers.
pub open spec fn receiver_views(rs: Seq<Receiver>) -> Seq<ReceiverView> {
    rs.map_values(|r: Receiver| r@)
}

impl View for Address {
    type V = Seq<ReceiverView>;

    open spec fn view(&self) -> Seq<ReceiverView> {
        receiver_views(self.0@)
    }
}

impl Clone for Address {
    fn clone(&self) -> (r: Address)
        ensures
            r@ == self@,
    {
        let mut receivers: Vec<Receiver> = Vec::with_capacity(self.0.len());
        let mut i: usize = 0;
        while i < self.0.len()
            invariant
                i <= self.0@.len(),
                receiver_views(receivers@) =~= self@.take(i as int),
            decreases self.0@.len() - i,
        {
            let r = self.0[i].clone();
            let ghost before = receiver_views(receivers@);
            receivers.push(r);
            assert(receiver_views(receivers@) =~= before.push(r@));
            assert(self@.take(i as int + 1) =~= self@.take(i as int).push(self@[i as int]));
            i = i + 1;
        }
        assert(self@.take(self@.len() as int) =~= self@);
        Address(receivers)
    }
}

/// Raw encoding of one receiver: typecode byte, length byte, address bytes.
pub open spec fn encode_receiver(r: ReceiverView) -> Seq<u8> {
    seq![byte_of_typecode(r.typecode()), r.addr().len() as u8] + r.addr()
}

/// Raw encoding of a sequence of receivers, in order.
pub open spec fn encode_receivers(rs: Seq<ReceiverView>) -> Seq<u8>
    decreases rs.len(),
{
    if rs.len() == 0 {
        Seq::empty()
    } else {
        encode_receiver(rs[0]) + encode_receivers(rs.drop_first())
    }
}

/// The padding that ends a raw encoding: the HRP bytes, then zeros up to 16 bytes.
pub open spec fn padding(hrp: Seq<u8>) -> Seq<u8> {
    hrp + Seq::new((PADDING_LEN - hrp.len()) as nat, |i: int| 0u8)
}

/// The raw encoding of an address under an HRP, before F4Jumble.
pub open spec fn raw_encoding(hrp: Seq<u8>, rs: Seq<ReceiverView>) -> Seq<u8> {
    encode_receivers(rs) + padding(hrp)
}

/// Every receiver's address bytes fit in a length byte.
pub open spec fn addrs_fit(rs: Seq<ReceiverView>) -> bool {
    forall|i: int| 0 <= i < rs.len() ==> #[trigger] rs[i].addr().len() < 256
}

/// What `Address::to_bytes` needs: a short HRP, address lengths that fit a
/// byte, and a raw encoding of a length that F4Jumble accepts.
pub open spec fn encodable(hrp: Seq<u8>, rs: Seq<ReceiverView>) -> bool {
    &&& hrp.len() <= PADDING_LEN
    &&& addrs_fit(rs)
    &&& valid_length(raw_encoding(hrp, rs).len())
}

/// The encoding of an address under an HRP: F4Jumble of its raw encoding.
pub open spec fn encode_address(hrp: Seq<u8>, rs: Seq<ReceiverView>) -> Seq<u8> {
    spec_f4jumble(raw_encoding(hrp, rs)).unwrap()
}

/// The encoding splits at any receiver boundary.
pub proof fn lemma_encode_split(rs: Seq<ReceiverView>, i: int)
    requires
        0 <= i <= rs.len(),
    ensures
        encode_receivers(rs) == encode_receivers(rs.take(i)) + encode_receivers(rs.skip(i)),
    decreases i,
{
    if i == 0 {
        assert(rs.take(0) =~= Seq::<ReceiverView>::empty());
        assert(rs.skip(0) =~= rs);
        assert(encode_receivers(rs.take(0)) + encode_receivers(rs) =~= encode_receivers(rs));
    } else {
        let t = rs.drop_first();
        lemma_encode_split(t, i - 1);
        assert(rs.take(i).drop_first() =~= t.take(i - 1));
        assert(rs.take(i)[0] == rs[0]);
        assert(t.skip(i - 1) =~= rs.skip(i));
        assert(encode_receivers(rs) =~= encode_receiver(rs[0]) + (encode_receivers(t.take(i - 1))
            + encode_receivers(t.skip(i - 1))));
    }
}

/// The encoding of one receiver more.
pub proof fn lemma_encode_step(rs: Seq<ReceiverView>, i: int)
    requires
        0 <= i < rs.len(),
    ensures
        encode_receivers(rs.take(i + 1)) == encode_receivers(rs.take(i)) + encode_receiver(rs[i]),
{
    let p = rs.take(i + 1);
    lemma_encode_split(p, i);
    assert(p.take(i) =~= rs.take(i));
    let q = p.skip(i);
    assert(q.len() == 1);
    assert(q.drop_first() =~= Seq::<ReceiverView>::empty());
    assert(q[0] == rs[i]);
    assert(encode_receivers(q.drop_first()) == Seq::<u8>::empty());
    assert(encode_receivers(q) =~= encode_receiver(rs[i]));
}

/// Appends `src` to `dst`.
fn push_all(dst: &mut Vec<u8>, src: &[u8])
    requires
        old(dst)@.len() + src@.len() <= usize::MAX,
    ensures
        final(dst)@ == old(dst)@ + src@,
{
    let mut i: usize = 0;
    while i < src.len()
        invariant
            i <= src@.len(),
            dst@ =~= old(dst)@ + src@.take(i as int),
        decreases src@.len() - i,
    {
        dst.push(src[i]);
        i = i + 1;
    }
    assert(src@.take(src@.len() as int) =~= src@);
}

/// Receivers in preference order of their typecodes.
pub open spec fn sorted_by_preference(s: Seq<ReceiverView>) -> bool {
    forall|i: int, j: int|
        0 <= i < j < s.len() ==> typecode_rank(#[trigger] s[i].typecode()) <= typecode_rank(
            #[trigger] s[j].typecode(),
        )
}

/// Receivers in strictly increasing preference order of their typecodes.
pub open spec fn strictly_sorted_by_preference(s: Seq<ReceiverView>) -> bool {
    forall|i: int, j: int|
        0 <= i < j < s.len() ==> typecode_rank(#[trigger] s[i].typecode()) < typecode_rank(
            #[trigger] s[j].typecode(),
        )
}

impl Address {
    /// Returns the receivers contained within this address, sorted in
    /// preference order: the same receivers, as a multiset, ordered by the
    /// preference rank of their typecodes; with distinct typecodes, as every
    /// valid address has, the order is strict.
    pub fn receivers(&self) -> (r: Vec<Receiver>)
        ensures
            receiver_views(r@).to_multiset() == self@.to_multiset(),
            sorted_by_preference(receiver_views(r@)),
            distinct_typecodes(self@, self@.len() as int) ==> strictly_sorted_by_preference(
                receiver_views(r@),
            ),
    {
        let ghost all = self@;
        let mut out: Vec<Receiver> = Vec::new();
        let mut i: usize = 0;
        assert(all.take(0) =~= Seq::<ReceiverView>::empty());
        assert(receiver_views(out@) =~= Seq::<ReceiverView>::empty());
        while i < self.0.len()
            invariant
                all == self@,
                i <= all.len(),
                receiver_views(out@).to_multiset() == all.take(i as int).to_multiset(),
                sorted_by_preference(receiver_views(out@)),
                forall|m: int|
                    0 <= m < out@.len() ==> has_typecode_before(
                        all,
                        i as int,
                        #[trigger] receiver_views(out@)[m].typecode(),
                    ),
                distinct_typecodes(all, all.len() as int) ==> strictly_sorted_by_preference(
                    receiver_views(out@),
                ),
            decreases all.len() - i,
        {
            let r = self.0[i].clone();
            let key = r.typecode().preference_rank();
            let ghost before = receiver_views(out@);
            let mut k: usize = out.len();
            while k > 0 && out[k - 1].typecode().preference_rank() > key
                invariant
                    before == receiver_views(out@),
                    k <= out@.len(),
                    key == typecode_rank(r@.typecode()),
                    forall|m: int| k <= m < before.len() ==> typecode_rank(#[trigger] before[m].typecode()) > key,
                decreases k,
            {
                k = k - 1;
            }
            proof {
                if k > 0 {
                    assert(typecode_rank(before[k - 1].typecode()) <= key);
                }
                if distinct_typecodes(all, all.len() as int) {
                    assert forall|m: int| 0 <= m < before.len() implies typecode_rank(
                        #[trigger] before[m].typecode(),
                    ) != key by {
                        assert(has_typecode_before(all, i as int, before[m].typecode()));
                        let p = choose|p: int| 0 <= p < i && #[trigger] all[p].typecode() == before[m].typecode();
                        assert(all[p].typecode() != all[i as int].typecode());
                        crate::order::lemma_typecode_rank_injective(before[m].typecode(), r@.typecode());
                    }
                }
            }
            out.insert(k, r);
            proof {
                let after = receiver_views(out@);
                assert(after =~= before.insert(k as int, r@));
                vstd::seq_lib::to_multiset_insert(before, k as int, r@);
                assert(r@ == all[i as int]);
                assert(all.take(i as int + 1) =~= all.take(i as int).push(all[i as int]));
                vstd::seq_lib::to_multiset_build(all.take(i as int), all[i as int]);
                assert forall|a: int, b: int| 0 <= a < b < after.len() implies typecode_rank(
                    #[trigger] after[a].typecode(),
                ) <= typecode_rank(#[trigger] after[b].typecode()) by {
                    if a < k && b < k {
                        assert(after[a] == before[a] && after[b] == before[b]);
                    } else if a < k && b == k {
                        assert(after[a] == before[a]);
                        assert(typecode_rank(before[a].typecode()) <= typecode_rank(before[k - 1].typecode()));
                    } else if a < k {
                        assert(after[a] == before[a] && after[b] == before[b - 1]);
                    } else if a == k {
                        assert(after[b] == before[b - 1]);
                    } else {
                        assert(after[a] == before[a - 1] && after[b] == before[b - 1]);
                    }
                }
                assert forall|m: int| 0 <= m < after.len() implies has_typecode_before(
                    all,
                    i as int + 1,
                    #[trigger] after[m].typecode(),
                ) by {
                    if m < k {
                        assert(after[m] == before[m]);
                        assert(has_typecode_before(all, i as int, before[m].typecode()));
                    } else if m == k {
                        assert(all[i as int].typecode() == after[m].typecode());
                    } else {
                        assert(after[m] == before[m - 1]);
                        assert(has_typecode_before(all, i as int, before[m - 1].typecode()));
                    }
                }
                if distinct_typecodes(all, all.len() as int) {
                    assert forall|a: int, b: int| 0 <= a < b < after.len() implies typecode_rank(
                        #[trigger] after[a].typecode(),
                    ) < typecode_rank(#[trigger] after[b].typecode()) by {
                        if a < k && b < k {
                            assert(after[a] == before[a] && after[b] == before[b]);
                        } else if a < k && b == k {
                            assert(after[a] == before[a]);
                            assert(typecode_rank(before[a].typecode()) <= typecode_rank(before[k - 1].typecode()));
                            assert(typecode_rank(before[k - 1].typecode()) != key);
                        } else if a < k {
                            assert(after[a] == before[a] && after[b] == before[b - 1]);
                        } else if a == k {
                            assert(after[b] == before[b - 1]);
                        } else {
                            assert(after[a] == before[a - 1] && after[b] == before[b - 1]);
                        }
                    }
                }
            }
            i = i + 1;
        }
        assert(all.take(all.len() as int) =~= all);
        out
    }

    /// Returns the receivers contained within this address, in the order they
    /// were parsed from the string encoding.
    pub fn receivers_as_parsed(&self) -> (r: &[Receiver])
        ensures
            r@ == self.0@,
    {
        self.0.as_slice()
    }

    /// The raw encoding of this Unified Address under an HRP: the encodings
    /// of its receivers, in order, then the HRP padded with zeros to 16 bytes.
    pub fn to_raw_bytes(&self, hrp: &str) -> (r: Vec<u8>)
        requires
            hrp.spec_bytes().len() <= PADDING_LEN,
            addrs_fit(self@),
            raw_encoding(hrp.spec_bytes(), self@).len() <= usize::MAX,
        ensures
            r@ == raw_encoding(hrp.spec_bytes(), self@),
    {
        let ghost rs = self@;
        let ghost total = raw_encoding(hrp.spec_bytes(), rs).len();
        let mut encoded: Vec<u8> = Vec::new();
        let mut i: usize = 0;
        while i < self.0.len()
            invariant
                rs == self@,
                i <= rs.len(),
                hrp.spec_bytes().len() <= PADDING_LEN,
                addrs_fit(rs),
                total == raw_encoding(hrp.spec_bytes(), rs).len(),
                total <= usize::MAX,
                encoded@ == encode_receivers(rs.take(i as int)),
            decreases rs.len() - i,
        {
            let receiver = &self.0[i];
            let addr = receiver.addr();
            proof {
                assert(rs[i as int] == receiver@);
                assert(rs[i as int].addr().len() < 256);
                lemma_encode_step(rs, i as int);
                lemma_encode_split(rs, i as int + 1);
            }
            encoded.push(u8::from(receiver.typecode()));
            encoded.push(addr.len() as u8);
            push_all(&mut encoded, addr);
            assert(encoded@ =~= encode_receivers(rs.take(i as int)) + encode_receiver(rs[i as int]));
            i = i + 1;
        }
        assert(rs.take(rs.len() as int) =~= rs);
        let hrp_bytes = hrp.as_bytes();
        push_all(&mut encoded, hrp_bytes);
        let mut k: usize = hrp_bytes.len();
        while k < PADDING_LEN
            invariant
                hrp_bytes@ == hrp.spec_bytes(),
                hrp_bytes@.len() <= k <= PADDING_LEN,
                encoded@ =~= encode_receivers(rs) + hrp_bytes@ + Seq::new((k - hrp_bytes@.len()) as nat, |j: int| 0u8),
            decreases PADDING_LEN - k,
        {
            encoded.push(0);
            k = k + 1;
        }
        assert(encoded@ =~= raw_encoding(hrp.spec_bytes(), rs));
        encoded
    }

    /// Returns the encoding of this Unified Address: F4Jumble of its raw
    /// encoding under the HRP.
    pub fn to_bytes(&self, hrp: &str) -> (r: Vec<u8>)
        requires
            encodable(hrp.spec_bytes(), self@),
        ensures
            spec_f4jumble(raw_encoding(hrp.spec_bytes(), self@)) == Some(r@),
            r@ == encode_address(hrp.spec_bytes(), self@),
    {
        let encoded = self.to_raw_bytes(hrp);
        match f4jumble(&encoded) {
            Some(v) => v,
            None => {
                assert(false);
                Vec::new()
            },
        }
    }
}


/// A parse result with `p` put in front of its receivers.
pub open spec fn prepend_parsed(
    p: Seq<ReceiverView>,
    r: Result<Seq<ReceiverView>, ParseError>,
) -> Result<Seq<ReceiverView>, ParseError> {
    match r {
        Ok(rest) => Ok(p + rest),
        Err(e) => Err(e),
    }
}

/// Parses a concatenation of receiver encodings (typecode byte, length byte,
/// address bytes), in order; the first error ends the parse.
pub open spec fn parse_receivers(s: Seq<u8>) -> Result<Seq<ReceiverView>, ParseError>
    decreases s.len(),
{
    if s.len() == 0 {
        Ok(Seq::empty())
    } else if s.len() >= 2 && s[1] <= s.len() - 2 {
        let n = s[1] as int;
        match receiver_from_parts(s[0], s.subrange(2, 2 + n)) {
            Err(e) => Err(e),
            Ok(r) => prepend_parsed(seq![r], parse_receivers(s.skip(2 + n))),
        }
    } else {
        Err(ParseError::InvalidEncoding)
    }
}

/// Whether a receiver before index `i` has typecode `t`.
pub open spec fn has_typecode_before(rs: Seq<ReceiverView>, i: int, t: Typecode) -> bool {
    exists|j: int| 0 <= j < i && #[trigger] rs[j].typecode() == t
}

/// The conflict that the receiver at index `i` makes with those before it.
pub open spec fn conflict_at(rs: Seq<ReceiverView>, i: int) -> Option<ParseError> {
    let t = rs[i].typecode();
    if has_typecode_before(rs, i, t) {
        Some(ParseError::DuplicateTypecode(t))
    } else if (t == Typecode::P2pkh && has_typecode_before(rs, i, Typecode::P2sh)) || (t
        == Typecode::P2sh && has_typecode_before(rs, i, Typecode::P2pkh)) {
        Some(ParseError::BothP2phkAndP2sh)
    } else {
        None
    }
}

/// The first conflict among the first `n` receivers.
pub open spec fn first_conflict(rs: Seq<ReceiverView>, n: nat) -> Option<ParseError>
    decreases n,
{
    if n == 0 {
        None
    } else {
        match first_conflict(rs, (n - 1) as nat) {
            Some(e) => Some(e),
            None => conflict_at(rs, n - 1),
        }
    }
}

/// Whether every receiver is transparent (true of no receivers at all).
pub open spec fn all_transparent(rs: Seq<ReceiverView>) -> bool {
    forall|i: int| 0 <= i < rs.len() ==> #[trigger] rs[i].typecode().spec_is_transparent()
}

/// The error that makes a sequence of receivers an invalid address, if any.
pub open spec fn validation_error(rs: Seq<ReceiverView>) -> Option<ParseError> {
    match first_conflict(rs, rs.len()) {
        Some(e) => Some(e),
        None => if all_transparent(rs) {
            Some(ParseError::OnlyTransparent)
        } else {
            None
        },
    }
}

/// The receivers as an address, or the error that makes them invalid.
pub open spec fn validated(rs: Seq<ReceiverView>) -> Result<Seq<ReceiverView>, ParseError> {
    match validation_error(rs) {
        Some(e) => Err(e),
        None => Ok(rs),
    }
}

/// Decodes a raw encoding under an HRP: check and strip the padding, parse
/// the receivers, validate them.
pub open spec fn decode_raw(hrp: Seq<u8>, e: Seq<u8>) -> Result<Seq<ReceiverView>, ParseError> {
    if hrp.len() > PADDING_LEN || e.len() < PADDING_LEN {
        Err(ParseError::InvalidEncoding)
    } else if e.skip(e.len() - PADDING_LEN) != padding(hrp) {
        Err(ParseError::InvalidEncoding)
    } else {
        match parse_receivers(e.take(e.len() - PADDING_LEN)) {
            Ok(rs) => validated(rs),
            Err(x) => Err(x),
        }
    }
}

/// Decodes the encoding of an address under an HRP: inverse F4Jumble, then
/// the raw encoding.
pub open spec fn decode_address(hrp: Seq<u8>, buf: Seq<u8>) -> Result<Seq<ReceiverView>, ParseError> {
    match spec_f4jumble_inv(buf) {
        None => Err(ParseError::InvalidEncoding),
        Some(e) => decode_raw(hrp, e),
    }
}

/// The views of a result that holds receivers.
pub open spec fn receivers_result_view(r: Result<Vec<Receiver>, ParseError>) -> Result<Seq<ReceiverView>, ParseError> {
    match r {
        Ok(v) => Ok(receiver_views(v@)),
        Err(e) => Err(e),
    }
}

/// The view of a result that holds an address.
pub open spec fn address_result_view(r: Result<Address, ParseError>) -> Result<Seq<ReceiverView>, ParseError> {
    match r {
        Ok(a) => Ok(a@),
        Err(e) => Err(e),
    }
}

/// Parses the receivers of a raw encoding whose padding has been stripped.
fn parse_receivers_exec(s: &[u8]) -> (r: Result<Vec<Receiver>, ParseError>)
    ensures
        receivers_result_view(r) == parse_receivers(s@),
{
    let mut out: Vec<Receiver> = Vec::new();
    let mut pos: usize = 0;
    assert(s@.skip(0) =~= s@);
    assert(receiver_views(out@) =~= Seq::<ReceiverView>::empty());
    assert(prepend_parsed(receiver_views(out@), parse_receivers(s@)) =~= parse_receivers(s@)) by {
        match parse_receivers(s@) {
            Ok(rest) => { assert(Seq::<ReceiverView>::empty() + rest =~= rest); },
            Err(_) => {},
        }
    }
    while pos < s.len()
        invariant
            pos <= s@.len(),
            parse_receivers(s@) == prepend_parsed(receiver_views(out@), parse_receivers(s@.skip(pos as int))),
        decreases s@.len() - pos,
    {
        let ghost rest = s@.skip(pos as int);
        if s.len() - pos < 2 {
            return Err(ParseError::InvalidEncoding);
        }
        let typecode = s[pos];
        let length = s[pos + 1] as usize;
        if s.len() - pos - 2 < length {
            return Err(ParseError::InvalidEncoding);
        }
        let addr = &s[pos + 2..pos + 2 + length];
        assert(rest[0] == typecode && rest[1] == length);
        assert(rest.subrange(2, 2 + length) =~= addr@);
        match Receiver::from_parts(typecode, addr) {
            Err(e) => {
                return Err(e);
            },
            Ok(r) => {
                let ghost before = receiver_views(out@);
                out.push(r);
                pos = pos + 2 + length;
                assert(rest.skip(2 + length) =~= s@.skip(pos as int));
                assert(receiver_views(out@) =~= before + seq![r@]);
                assert(prepend_parsed(receiver_views(out@), parse_receivers(s@.skip(pos as int)))
                    =~= prepend_parsed(before, prepend_parsed(seq![r@], parse_receivers(s@.skip(pos as int))))) by {
                    match parse_receivers(s@.skip(pos as int)) {
                        Ok(t) => { assert(before + seq![r@] + t =~= before + (seq![r@] + t)); },
                        Err(_) => {},
                    }
                }
            },
        }
    }
    assert(s@.skip(pos as int) =~= Seq::<u8>::empty());
    assert(receiver_views(out@) + Seq::<ReceiverView>::empty() =~= receiver_views(out@));
    Ok(out)
}

/// Once a conflict is found among the first `i` receivers, it stays the first.
proof fn lemma_first_conflict_stable(rs: Seq<ReceiverView>, i: nat, n: nat)
    requires
        i <= n,
        first_conflict(rs, i) is Some,
    ensures
        first_conflict(rs, n) == first_conflict(rs, i),
    decreases n,
{
    if n > i {
        lemma_first_conflict_stable(rs, i, (n - 1) as nat);
    }
}

/// The error that makes the receivers an invalid address, if any.
fn validation_error_exec(rs: &Vec<Receiver>) -> (r: Option<ParseError>)
    ensures
        r == validation_error(receiver_views(rs@)),
{
    let ghost v = receiver_views(rs@);
    let mut i: usize = 0;
    while i < rs.len()
        invariant
            v == receiver_views(rs@),
            i <= rs@.len(),
            first_conflict(v, i as nat) == None::<ParseError>,
        decreases rs@.len() - i,
    {
        let t = rs[i].typecode();
        let mut dup = false;
        let mut pkh = false;
        let mut sh = false;
        let mut j: usize = 0;
        while j < i
            invariant
                v == receiver_views(rs@),
                j <= i < rs@.len(),
                t == v[i as int].typecode(),
                dup == has_typecode_before(v, j as int, t),
                pkh == has_typecode_before(v, j as int, Typecode::P2pkh),
                sh == has_typecode_before(v, j as int, Typecode::P2sh),
            decreases i - j,
        {
            let u = rs[j].typecode();
            assert(u == v[j as int].typecode());
            if u == t {
                dup = true;
            }
            if u == Typecode::P2pkh {
                pkh = true;
            }
            if u == Typecode::P2sh {
                sh = true;
            }
            assert(dup == has_typecode_before(v, j + 1, t));
            assert(pkh == has_typecode_before(v, j + 1, Typecode::P2pkh));
            assert(sh == has_typecode_before(v, j + 1, Typecode::P2sh));
            j = j + 1;
        }
        assert(first_conflict(v, (i + 1) as nat) == conflict_at(v, i as int));
        if dup {
            proof {
                lemma_first_conflict_stable(v, (i + 1) as nat, v.len());
            }
            return Some(ParseError::DuplicateTypecode(t));
        }
        if (t == Typecode::P2pkh && sh) || (t == Typecode::P2sh && pkh) {
            proof {
                lemma_first_conflict_stable(v, (i + 1) as nat, v.len());
            }
            return Some(ParseError::BothP2phkAndP2sh);
        }
        i = i + 1;
    }
    let mut all = true;
    let mut k: usize = 0;
    while k < rs.len()
        invariant
            v == receiver_views(rs@),
            k <= rs@.len(),
            first_conflict(v, v.len()) == None::<ParseError>,
            all == (forall|m: int| 0 <= m < k ==> #[trigger] v[m].typecode().spec_is_transparent()),
        decreases rs@.len() - k,
    {
        let t = rs[k].typecode();
        assert(t == v[k as int].typecode());
        if !t.is_transparent() {
            all = false;
        }
        k = k + 1;
        assert(all == (forall|m: int| 0 <= m < k ==> #[trigger] v[m].typecode().spec_is_transparent()));
    }
    if all {
        Some(ParseError::OnlyTransparent)
    } else {
        None
    }
}

/// Whether `tail` is the padding of `hrp`.
fn padding_matches(hrp: &[u8], tail: &[u8]) -> (b: bool)
    requires
        hrp@.len() <= PADDING_LEN,
    ensures
        b == (tail@ == padding(hrp@)),
{
    if tail.len() != PADDING_LEN {
        assert(padding(hrp@).len() == PADDING_LEN);
        return false;
    }
    let mut k: usize = 0;
    while k < PADDING_LEN
        invariant
            hrp@.len() <= PADDING_LEN,
            tail@.len() == PADDING_LEN,
            k <= PADDING_LEN,
            forall|m: int| 0 <= m < k ==> tail@[m] == #[trigger] padding(hrp@)[m],
        decreases PADDING_LEN - k,
    {
        let expected: u8 = if k < hrp.len() { hrp[k] } else { 0 };
        if tail[k] != expected {
            assert(tail@[k as int] != padding(hrp@)[k as int]);
            return false;
        }
        k = k + 1;
    }
    assert(tail@ =~= padding(hrp@));
    true
}

impl TryFrom<Vec<Receiver>> for Address {
    type Error = ParseError;

    fn try_from(receivers: Vec<Receiver>) -> (r: Result<Address, ParseError>) {
        match validation_error_exec(&receivers) {
            Some(e) => Err(e),
            None => Ok(Address(receivers)),
        }
    }
}

impl TryFromSpecImpl<Vec<Receiver>> for Address {
    open spec fn obeys_try_from_spec() -> bool {
        true
    }

    open spec fn try_from_spec(receivers: Vec<Receiver>) -> Result<Address, ParseError> {
        match validation_error(receiver_views(receivers@)) {
            Some(e) => Err(e),
            None => Ok(Address(receivers)),
        }
    }
}

impl Address {
    /// Parses the raw encoding of a Unified Address under an HRP: checks and
    /// strips the padding, parses the receivers and validates them.
    pub fn from_raw_bytes(hrp: &str, encoded: &[u8]) -> (r: Result<Address, ParseError>)
        ensures
            address_result_view(r) == decode_raw(hrp.spec_bytes(), encoded@),
    {
        let hrp_bytes = hrp.as_bytes();
        if hrp_bytes.len() > PADDING_LEN || encoded.len() < PADDING_LEN {
            return Err(ParseError::InvalidEncoding);
        }
        let split = encoded.len() - PADDING_LEN;
        let (body, tail) = encoded.split_at(split);
        assert(tail@ =~= encoded@.skip(split as int));
        assert(body@ =~= encoded@.take(split as int));
        if !padding_matches(hrp_bytes, tail) {
            return Err(ParseError::InvalidEncoding);
        }
        match parse_receivers_exec(body) {
            Err(e) => Err(e),
            Ok(receivers) => Address::try_from(receivers),
        }
    }
}

impl<'a, 'b> TryFrom<(&'a str, &'b [u8])> for Address {
    type Error = ParseError;

    fn try_from(parts: (&'a str, &'b [u8])) -> (r: Result<Address, ParseError>)
        ensures
            address_result_view(r) == decode_address(parts.0.spec_bytes(), parts.1@),
    {
        let (hrp, buf) = parts;
        let encoded = match f4jumble_inv(buf) {
            Some(e) => e,
            None => {
                return Err(ParseError::InvalidEncoding);
            },
        };
        Address::from_raw_bytes(hrp, &encoded)
    }
}

impl<'a, 'b> TryFromSpecImpl<(&'a str, &'b [u8])> for Address {
    open spec fn obeys_try_from_spec() -> bool {
        false
    }

    open spec fn try_from_spec(parts: (&'a str, &'b [u8])) -> Result<Address, ParseError> {
        Err(ParseError::InvalidEncoding)
    }
}

/// Every receiver is well-formed.
pub open spec fn all_wf(rs: Seq<ReceiverView>) -> bool {
    forall|i: int| 0 <= i < rs.len() ==> #[trigger] rs[i].wf()
}

/// Parsing the encoding of well-formed receivers gives them back.
pub proof fn lemma_parse_encode_receivers(rs: Seq<ReceiverView>)
    requires
        all_wf(rs),
        addrs_fit(rs),
    ensures
        parse_receivers(encode_receivers(rs)) == Ok::<Seq<ReceiverView>, ParseError>(rs),
    decreases rs.len(),
{
    if rs.len() == 0 {
        assert(encode_receivers(rs) =~= Seq::<u8>::empty());
        assert(rs =~= Seq::<ReceiverView>::empty());
    } else {
        let r = rs[0];
        let rest = rs.drop_first();
        assert(r.wf() && r.addr().len() < 256);
        assert forall|i: int| 0 <= i < rest.len() implies #[trigger] rest[i].wf() && rest[i].addr().len() < 256 by {
            assert(rest[i] == rs[i + 1]);
        }
        lemma_parse_encode_receivers(rest);
        lemma_receiver_parts_roundtrip(r);
        let s = encode_receivers(rs);
        let n = r.addr().len() as int;
        assert(s =~= encode_receiver(r) + encode_receivers(rest));
        assert(s[1] as int == n);
        assert(s.subrange(2, 2 + n) =~= r.addr());
        assert(s.skip(2 + n) =~= encode_receivers(rest));
        assert(seq![r] + rest =~= rs);
    }
}

/// Receivers parsed from bytes are well-formed, fit a length byte, and
/// encode back to those bytes.
pub proof fn lemma_encode_parse_receivers(s: Seq<u8>)
    ensures
        parse_receivers(s) matches Ok(rs) ==> {
            &&& all_wf(rs)
            &&& addrs_fit(rs)
            &&& encode_receivers(rs) == s
        },
    decreases s.len(),
{
    if s.len() == 0 {
        if let Ok(rs) = parse_receivers(s) {
            assert(rs =~= Seq::<ReceiverView>::empty());
            assert(s =~= Seq::<u8>::empty());
        }
    } else if s.len() >= 2 && s[1] <= s.len() - 2 {
        let n = s[1] as int;
        let addr = s.subrange(2, 2 + n);
        lemma_receiver_from_parts_inverse(s[0], addr);
        lemma_encode_parse_receivers(s.skip(2 + n));
        if let Ok(rs) = parse_receivers(s) {
            let r = receiver_from_parts(s[0], addr).unwrap();
            let rest = parse_receivers(s.skip(2 + n)).unwrap();
            assert(rs == seq![r] + rest);
            assert(rs[0] == r);
            assert(rs.drop_first() =~= rest);
            assert forall|i: int| 0 <= i < rs.len() implies #[trigger] rs[i].wf() && rs[i].addr().len() < 256 by {
                if i > 0 {
                    assert(rs[i] == rest[i - 1]);
                }
            }
            assert(encode_receiver(r) =~= s.take(2 + n));
            assert(s =~= s.take(2 + n) + s.skip(2 + n));
        }
    }
}

/// Decoding the raw encoding of well-formed receivers under an HRP gives
/// them back when they are a valid address, and otherwise the error that
/// validation gives them.
pub proof fn lemma_decode_raw_encoding(hrp: Seq<u8>, rs: Seq<ReceiverView>)
    requires
        hrp.len() <= PADDING_LEN,
        addrs_fit(rs),
        all_wf(rs),
    ensures
        decode_raw(hrp, raw_encoding(hrp, rs)) == validated(rs),
{
    let raw = raw_encoding(hrp, rs);
    let k = raw.len() - PADDING_LEN;
    assert(padding(hrp).len() == PADDING_LEN);
    assert(raw.skip(k) =~= padding(hrp));
    assert(raw.take(k) =~= encode_receivers(rs));
    lemma_parse_encode_receivers(rs);
}

/// A raw encoding that decodes under an HRP is the raw encoding of the
/// decoded receivers.
pub proof fn lemma_raw_encoding_of_decoded(hrp: Seq<u8>, e: Seq<u8>)
    ensures
        decode_raw(hrp, e) matches Ok(rs) ==> {
            &&& hrp.len() <= PADDING_LEN
            &&& addrs_fit(rs)
            &&& all_wf(rs)
            &&& raw_encoding(hrp, rs) == e
        },
{
    if let Ok(rs) = decode_raw(hrp, e) {
        let k = e.len() - PADDING_LEN;
        lemma_encode_parse_receivers(e.take(k));
        assert(e =~= e.take(k) + e.skip(k));
    }
}

/// Decoding the encoding of an address under an HRP gives back its receivers
/// when they are a valid address, and otherwise the error that validation
/// gives them.
pub proof fn lemma_decode_encode_address(hrp: Seq<u8>, rs: Seq<ReceiverView>)
    requires
        encodable(hrp, rs),
        all_wf(rs),
    ensures
        decode_address(hrp, encode_address(hrp, rs)) == validated(rs),
{
    lemma_f4jumble_inv_of_f4jumble(raw_encoding(hrp, rs));
    lemma_decode_raw_encoding(hrp, rs);
}

/// An encoding that decodes under an HRP is the encoding of the decoded
/// receivers: the encoding is canonical.
pub proof fn lemma_encode_decode_address(hrp: Seq<u8>, buf: Seq<u8>)
    ensures
        decode_address(hrp, buf) matches Ok(rs) ==> {
            &&& encodable(hrp, rs)
            &&& all_wf(rs)
            &&& encode_address(hrp, rs) == buf
        },
{
    if let Ok(rs) = decode_address(hrp, buf) {
        let e = spec_f4jumble_inv(buf).unwrap();
        lemma_f4jumble_len(buf);
        lemma_f4jumble_of_f4jumble_inv(buf);
        lemma_raw_encoding_of_decoded(hrp, e);
    }
}

/// The typecodes of the first `n` receivers are pairwise distinct.
pub open spec fn distinct_typecodes(rs: Seq<ReceiverView>, n: int) -> bool {
    forall|i: int, j: int| 0 <= i < j < n ==> #[trigger] rs[i].typecode() != #[trigger] rs[j].typecode()
}

/// Receivers that form a valid Unified Address: pairwise distinct typecodes,
/// not both a P2PKH and a P2SH receiver, and some receiver that is not transparent.
pub open spec fn is_valid_address(rs: Seq<ReceiverView>) -> bool {
    &&& distinct_typecodes(rs, rs.len() as int)
    &&& !(has_typecode_before(rs, rs.len() as int, Typecode::P2pkh) && has_typecode_before(
        rs,
        rs.len() as int,
        Typecode::P2sh,
    ))
    &&& !all_transparent(rs)
}

proof fn lemma_first_conflict_none(rs: Seq<ReceiverView>, n: nat)
    requires
        n <= rs.len(),
    ensures
        first_conflict(rs, n) is None <==> (distinct_typecodes(rs, n as int) && !(
        has_typecode_before(rs, n as int, Typecode::P2pkh) && has_typecode_before(
            rs,
            n as int,
            Typecode::P2sh,
        ))),
    decreases n,
{
    if n > 0 {
        let m = (n - 1) as nat;
        lemma_first_conflict_none(rs, m);
        let t = rs[m as int].typecode();
        if first_conflict(rs, n) is None {
            assert forall|i: int, j: int| 0 <= i < j < n implies #[trigger] rs[i].typecode()
                != #[trigger] rs[j].typecode() by {
                if j == m && rs[i].typecode() == t {
                    assert(has_typecode_before(rs, m as int, t));
                }
            }
            if has_typecode_before(rs, n as int, Typecode::P2pkh) && has_typecode_before(
                rs,
                n as int,
                Typecode::P2sh,
            ) {
                let a = choose|j: int| 0 <= j < n && #[trigger] rs[j].typecode() == Typecode::P2pkh;
                let b = choose|j: int| 0 <= j < n && #[trigger] rs[j].typecode() == Typecode::P2sh;
                if a < m && b < m {
                    assert(has_typecode_before(rs, m as int, Typecode::P2pkh));
                    assert(has_typecode_before(rs, m as int, Typecode::P2sh));
                } else if a == m {
                    assert(has_typecode_before(rs, m as int, Typecode::P2sh));
                } else {
                    assert(has_typecode_before(rs, m as int, Typecode::P2pkh));
                }
            }
        } else {
            if first_conflict(rs, m) is None {
                if has_typecode_before(rs, m as int, t) {
                    let j = choose|j: int| 0 <= j < m && #[trigger] rs[j].typecode() == t;
                    assert(rs[j].typecode() == rs[m as int].typecode());
                } else if t == Typecode::P2pkh {
                    assert(has_typecode_before(rs, n as int, Typecode::P2pkh));
                    let j = choose|j: int| 0 <= j < m && #[trigger] rs[j].typecode() == Typecode::P2sh;
                    assert(has_typecode_before(rs, n as int, Typecode::P2sh));
                } else {
                    assert(has_typecode_before(rs, n as int, Typecode::P2sh));
                    let j = choose|j: int| 0 <= j < m && #[trigger] rs[j].typecode() == Typecode::P2pkh;
                    assert(has_typecode_before(rs, n as int, Typecode::P2pkh));
                }
            } else {
                if distinct_typecodes(rs, n as int) {
                    assert(distinct_typecodes(rs, m as int));
                }
                if has_typecode_before(rs, m as int, Typecode::P2pkh) {
                    let j = choose|j: int| 0 <= j < m && #[trigger] rs[j].typecode() == Typecode::P2pkh;
                    assert(has_typecode_before(rs, n as int, Typecode::P2pkh));
                }
                if has_typecode_before(rs, m as int, Typecode::P2sh) {
                    let j = choose|j: int| 0 <= j < m && #[trigger] rs[j].typecode() == Typecode::P2sh;
                    assert(has_typecode_before(rs, n as int, Typecode::P2sh));
                }
            }
        }
    }
}

/// Validation accepts exactly the receivers that form a valid Unified Address.
pub proof fn lemma_validation_accepts_valid(rs: Seq<ReceiverView>)
    ensures
        validation_error(rs) is None <==> is_valid_address(rs),
{
    lemma_first_conflict_none(rs, rs.len());
}

/// The first `n` receivers hold no clash: their typecodes are pairwise
/// distinct and they are not both a P2PKH and a P2SH receiver.
pub open spec fn clash_free(rs: Seq<ReceiverView>, n: int) -> bool {
    &&& distinct_typecodes(rs, n)
    &&& !(has_typecode_before(rs, n, Typecode::P2pkh) && has_typecode_before(rs, n, Typecode::P2sh))
}

/// The first conflict among the first `n` receivers is the one at the first
/// index whose receiver conflicts with those before it.
proof fn lemma_first_conflict_at(rs: Seq<ReceiverView>, n: nat, e: ParseError)
    requires
        n <= rs.len(),
    ensures
        first_conflict(rs, n) == Some(e) <==> exists|j: int|
            0 <= j < n && first_conflict(rs, j as nat) is None && #[trigger] conflict_at(rs, j) == Some(e),
    decreases n,
{
    if n > 0 {
        let m = (n - 1) as nat;
        lemma_first_conflict_at(rs, m, e);
        if first_conflict(rs, n) == Some(e) {
            if first_conflict(rs, m) is None {
                assert(conflict_at(rs, m as int) == Some(e));
            }
        }
        if exists|j: int|
            0 <= j < n && first_conflict(rs, j as nat) is None && #[trigger] conflict_at(rs, j) == Some(e) {
            let j = choose|j: int|
                0 <= j < n && first_conflict(rs, j as nat) is None && #[trigger] conflict_at(rs, j) == Some(e);
            if j < m {
                assert(first_conflict(rs, m) == Some(e));
            } else if first_conflict(rs, m) is Some {
                lemma_first_conflict_stable(rs, m, m);
            }
        }
    }
}

/// What validation reports, spelled out over the receivers. It reports
/// `DuplicateTypecode(t)` exactly when, at the first index `j` where the
/// receivers stop being clash free, receiver `j` has typecode `t` and an
/// earlier receiver has it too; `BothP2phkAndP2sh` exactly when there
/// receiver `j` repeats no typecode but is the P2PKH receiver after a P2SH
/// one or the other way round; `OnlyTransparent` exactly when the receivers
/// are clash free and all transparent.
pub proof fn lemma_validation_error_cases(rs: Seq<ReceiverView>, t: Typecode)
    ensures
        validation_error(rs) == Some(ParseError::DuplicateTypecode(t)) <==> exists|j: int|
            0 <= j < rs.len() && clash_free(rs, j) && #[trigger] rs[j].typecode() == t
                && has_typecode_before(rs, j, t),
        validation_error(rs) == Some(ParseError::DuplicateTypecode(t)) ==> exists|i: int, j: int|
            0 <= i < j < rs.len() && #[trigger] rs[i].typecode() == t && #[trigger] rs[j].typecode() == t,
        validation_error(rs) == Some(ParseError::BothP2phkAndP2sh) <==> exists|j: int|
            0 <= j < rs.len() && clash_free(rs, j) && !has_typecode_before(rs, j, #[trigger] rs[j].typecode())
                && ((rs[j].typecode() == Typecode::P2pkh && has_typecode_before(rs, j, Typecode::P2sh)) || (
                rs[j].typecode() == Typecode::P2sh && has_typecode_before(rs, j, Typecode::P2pkh))),
        validation_error(rs) == Some(ParseError::OnlyTransparent) <==> clash_free(rs, rs.len() as int)
            && all_transparent(rs),
        validation_error(rs) != Some(ParseError::InvalidEncoding),
{
    let n = rs.len();
    lemma_first_conflict_none(rs, n);
    lemma_first_conflict_at(rs, n, ParseError::DuplicateTypecode(t));
    lemma_first_conflict_at(rs, n, ParseError::BothP2phkAndP2sh);
    lemma_first_conflict_at(rs, n, ParseError::OnlyTransparent);
    lemma_first_conflict_at(rs, n, ParseError::InvalidEncoding);
    assert forall|j: int| 0 <= j <= n implies (first_conflict(rs, j as nat) is None <==> #[trigger] clash_free(
        rs,
        j,
    )) by {
        lemma_first_conflict_none(rs, j as nat);
    }
    if validation_error(rs) == Some(ParseError::DuplicateTypecode(t)) {
        let j = choose|j: int|
            0 <= j < n && first_conflict(rs, j as nat) is None && #[trigger] conflict_at(rs, j) == Some(
                ParseError::DuplicateTypecode(t),
            );
        assert(clash_free(rs, j));
        assert(rs[j].typecode() == t);
        let i = choose|i: int| 0 <= i < j && #[trigger] rs[i].typecode() == t;
        assert(rs[i].typecode() == t && rs[j].typecode() == t);
    }
    if exists|j: int|
        0 <= j < rs.len() && clash_free(rs, j) && #[trigger] rs[j].typecode() == t && has_typecode_before(rs, j, t) {
        let j = choose|j: int|
            0 <= j < rs.len() && clash_free(rs, j) && #[trigger] rs[j].typecode() == t && has_typecode_before(
                rs,
                j,
                t,
            );
        assert(first_conflict(rs, j as nat) is None);
        assert(conflict_at(rs, j) == Some(ParseError::DuplicateTypecode(t)));
    }
    if validation_error(rs) == Some(ParseError::BothP2phkAndP2sh) {
        let j = choose|j: int|
            0 <= j < n && first_conflict(rs, j as nat) is None && #[trigger] conflict_at(rs, j) == Some(
                ParseError::BothP2phkAndP2sh,
            );
        assert(clash_free(rs, j));
    }
    if exists|j: int|
        0 <= j < rs.len() && clash_free(rs, j) && !has_typecode_before(rs, j, #[trigger] rs[j].typecode()) && ((
        rs[j].typecode() == Typecode::P2pkh && has_typecode_before(rs, j, Typecode::P2sh)) || (rs[j].typecode()
            == Typecode::P2sh && has_typecode_before(rs, j, Typecode::P2pkh))) {
        let j = choose|j: int|
            0 <= j < rs.len() && clash_free(rs, j) && !has_typecode_before(rs, j, #[trigger] rs[j].typecode())
                && ((rs[j].typecode() == Typecode::P2pkh && has_typecode_before(rs, j, Typecode::P2sh)) || (
                rs[j].typecode() == Typecode::P2sh && has_typecode_before(rs, j, Typecode::P2pkh)));
        assert(first_conflict(rs, j as nat) is None);
        assert(conflict_at(rs, j) == Some(ParseError::BothP2phkAndP2sh));
    }
    if validation_error(rs) == Some(ParseError::InvalidEncoding) {
        let j = choose|j: int|
            0 <= j < n && first_conflict(rs, j as nat) is None && #[trigger] conflict_at(rs, j) == Some(
                ParseError::InvalidEncoding,
            );
    }
}

/// A sequence strictly sorted by preference and a sorted one with the same
/// receivers are the same sequence.
proof fn lemma_sorted_same_multiset_equal(a: Seq<ReceiverView>, b: Seq<ReceiverView>)
    requires
        strictly_sorted_by_preference(a),
        sorted_by_preference(b),
        a.to_multiset() == b.to_multiset(),
    ensures
        a == b,
    decreases a.len(),
{
    vstd::seq_lib::to_multiset_len(a);
    vstd::seq_lib::to_multiset_len(b);
    if a.len() == 0 {
        assert(a =~= b);
    } else {
        vstd::seq_lib::to_multiset_contains(a, a[0]);
        vstd::seq_lib::to_multiset_contains(b, a[0]);
        vstd::seq_lib::to_multiset_contains(a, b[0]);
        vstd::seq_lib::to_multiset_contains(b, b[0]);
        assert(a.contains(a[0]));
        assert(b.contains(b[0]));
        let j = choose|j: int| 0 <= j < b.len() && b[j] == a[0];
        let k = choose|k: int| 0 <= k < a.len() && a[k] == b[0];
        if j > 0 {
            assert(typecode_rank(b[0].typecode()) <= typecode_rank(b[j].typecode()));
        }
        if k > 0 {
            assert(typecode_rank(a[0].typecode()) < typecode_rank(a[k].typecode()));
        }
        assert(k == 0);
        assert(a[0] == b[0]);
        vstd::seq_lib::to_multiset_remove(a, 0);
        vstd::seq_lib::to_multiset_remove(b, 0);
        assert(a.remove(0) =~= a.drop_first());
        assert(b.remove(0) =~= b.drop_first());
        let a1 = a.drop_first();
        let b1 = b.drop_first();
        assert(strictly_sorted_by_preference(a1)) by {
            assert forall|i: int, m: int| 0 <= i < m < a1.len() implies typecode_rank(
                #[trigger] a1[i].typecode(),
            ) < typecode_rank(#[trigger] a1[m].typecode()) by {
                assert(a1[i] == a[i + 1] && a1[m] == a[m + 1]);
            }
        }
        assert(sorted_by_preference(b1)) by {
            assert forall|i: int, m: int| 0 <= i < m < b1.len() implies typecode_rank(
                #[trigger] b1[i].typecode(),
            ) <= typecode_rank(#[trigger] b1[m].typecode()) by {
                assert(b1[i] == b[i + 1] && b1[m] == b[m + 1]);
            }
        }
        lemma_sorted_same_multiset_equal(a1, b1);
        assert(a =~= b) by {
            assert forall|i: int| 0 <= i < a.len() implies a[i] == b[i] by {
                if i > 0 {
                    assert(a[i] == a1[i - 1] && b[i] == b1[i - 1]);
                }
            }
        }
    }
}

/// For receivers with distinct typecodes, as every valid address has,
/// `receivers` does not depend on their order: two results of it, for the same
/// receivers in any two orders, are the same sequence.
pub proof fn lemma_receivers_order_independent(
    x: Seq<ReceiverView>,
    y: Seq<ReceiverView>,
    rx: Seq<ReceiverView>,
    ry: Seq<ReceiverView>,
)
    requires
        distinct_typecodes(x, x.len() as int),
        y.to_multiset() == x.to_multiset(),
        rx.to_multiset() == x.to_multiset(),
        strictly_sorted_by_preference(rx),
        ry.to_multiset() == y.to_multiset(),
        sorted_by_preference(ry),
    ensures
        rx == ry,
{
    lemma_sorted_same_multiset_equal(rx, ry);
}

/// For receivers with distinct typecodes, sorting the result of `receivers`
/// again gives it back.
pub proof fn lemma_receivers_idempotent(x: Seq<ReceiverView>, rx: Seq<ReceiverView>, rrx: Seq<ReceiverView>)
    requires
        distinct_typecodes(x, x.len() as int),
        rx.to_multiset() == x.to_multiset(),
        strictly_sorted_by_preference(rx),
        rrx.to_multiset() == rx.to_multiset(),
        sorted_by_preference(rrx),
    ensures
        rrx == rx,
{
    lemma_sorted_same_multiset_equal(rx, rrx);
}

} // verus!
