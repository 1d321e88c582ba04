//! Receivers of a Unified Address.

use vstd::prelude::*;
use vstd::std_specs::convert::TryFromSpecImpl;
use crate::typecode::{Typecode, typecode_of_byte, byte_of_typecode, lemma_typecode_byte_roundtrip, lemma_byte_typecode_roundtrip};
use crate::error::ParseError;

verus! {

/// Length of a Sapling or Orchard receiver.
pub const SHIELDED_LEN: usize = 43;

/// Length of a P2PKH or P2SH receiver.
pub const TRANSPARENT_LEN: usize = 20;

/// The set of known Receivers for Unified Addresses.
#[derive(Debug, PartialEq, Eq, Hash)]
pub enum Receiver {
    Orchard([u8; 43]),
    Sapling([u8; 43]),
    P2pkh([u8; 20]),
    P2sh([u8; 20]),
    Unknown { typecode: u8, data: Vec<u8> },
}

/// A receiver as mathematical values.
pub enum ReceiverView {
    Orchard(Seq<u8>),
    Sapling(Seq<u8>),
    P2pkh(Seq<u8>),
    P2sh(Seq<u8>),
    Unknown(u8, Seq<u8>),
}

impl ReceiverView {
    /// The typecode of the receiver.
    pub open spec fn typecode(self) -> Typecode {
        match self {
            ReceiverView::Orchard(_) => Typecode::Orchard,
            ReceiverView::Sapling(_) => Typecode::Sapling,
            ReceiverView::P2pkh(_) => Typecode::P2pkh,
            ReceiverView::P2sh(_) => Typecode::P2sh,
            ReceiverView::Unknown(t, _) => Typecode::Unknown(t),
        }
    }

    /// The address bytes of the receiver.
    pub open spec fn addr(self) -> Seq<u8> {
        match self {
            ReceiverView::Orchard(a) => a,
            ReceiverView::Sapling(a) => a,
            ReceiverView::P2pkh(a) => a,
            ReceiverView::P2sh(a) => a,
            ReceiverView::Unknown(_, a) => a,
        }
    }

    /// The address bytes have the length that their kind fixes.
    pub open spec fn has_kind_len(self) -> bool {
        match self {
            ReceiverView::Orchard(a) => a.len() == SHIELDED_LEN,
            ReceiverView::Sapling(a) => a.len() == SHIELDED_LEN,
            ReceiverView::P2pkh(a) => a.len() == TRANSPARENT_LEN,
            ReceiverView::P2sh(a) => a.len() == TRANSPARENT_LEN,
            ReceiverView::Unknown(_, _) => true,
        }
    }

    /// A receiver that its typecode byte and address bytes denote again:
    /// fixed lengths are kept and an unknown typecode is not a known one.
    pub open spec fn wf(self) -> bool {
        &&& self.has_kind_len()
        &&& self.typecode().is_canonical()
    }
}

/// The receiver that a typecode byte and address bytes denote, or the error.
pub open spec fn receiver_from_parts(typecode: u8, addr: Seq<u8>) -> Result<ReceiverView, ParseError> {
    match typecode_of_byte(typecode) {
        Typecode::P2pkh => if addr.len() == TRANSPARENT_LEN {
            Ok(ReceiverView::P2pkh(addr))
        } else {
            Err(ParseError::InvalidEncoding)
        },
        Typecode::P2sh => if addr.len() == TRANSPARENT_LEN {
            Ok(ReceiverView::P2sh(addr))
        } else {
            Err(ParseError::InvalidEncoding)
        },
        Typecode::Sapling => if addr.len() == SHIELDED_LEN {
            Ok(ReceiverView::Sapling(addr))
        } else {
            Err(ParseError::InvalidEncoding)
        },
        Typecode::Orchard => if addr.len() == SHIELDED_LEN {
            Ok(ReceiverView::Orchard(addr))
        } else {
            Err(ParseError::InvalidEncoding)
        },
        Typecode::Unknown(_) => Ok(ReceiverView::Unknown(typecode, addr)),
    }
}

/// The bytes of `s` from index `i` on.
pub open spec fn suffix(s: Seq<u8>, i: usize) -> Seq<u8> {
    s.skip(i as int)
}

/// The views of a result of receiver parsing.
pub open spec fn receiver_result_view(r: Result<Receiver, ParseError>) -> Result<ReceiverView, ParseError> {
    match r {
        Ok(v) => Ok(v@),
        Err(e) => Err(e),
    }
}

impl View for Receiver {
    type V = ReceiverView;

    open spec fn view(&self) -> ReceiverView {
        match self {
            Receiver::Orchard(a) => ReceiverView::Orchard(a@),
            Receiver::Sapling(a) => ReceiverView::Sapling(a@),
            Receiver::P2pkh(a) => ReceiverView::P2pkh(a@),
            Receiver::P2sh(a) => ReceiverView::P2sh(a@),
            Receiver::Unknown { typecode, data } => ReceiverView::Unknown(*typecode, data@),
        }
    }
}

fn array_43(s: &[u8]) -> (a: [u8; 43])
    requires
        s@.len() == 43,
    ensures
        a@ == s@,
{
    let mut a = [0u8; 43];
    let mut i: usize = 0;
    while i < 43
        invariant
            s@.len() == 43,
            i <= 43,
            a@.len() == 43,
            forall|k: int| 0 <= k < i ==> a@[k] == s@[k],
        decreases 43 - i,
    {
        a[i] = s[i];
        i = i + 1;
    }
    assert(a@ =~= s@);
    a
}

fn array_20(s: &[u8]) -> (a: [u8; 20])
    requires
        s@.len() == 20,
    ensures
        a@ == s@,
{
    let mut a = [0u8; 20];
    let mut i: usize = 0;
    while i < 20
        invariant
            s@.len() == 20,
            i <= 20,
            a@.len() == 20,
            forall|k: int| 0 <= k < i ==> a@[k] == s@[k],
        decreases 20 - i,
    {
        a[i] = s[i];
        i = i + 1;
    }
    assert(a@ =~= s@);
    a
}

fn bytes_to_vec(s: &[u8]) -> (v: Vec<u8>)
    ensures
        v@ == s@,
{
    let mut v: Vec<u8> = Vec::with_capacity(s.len());
    let mut i: usize = 0;
    while i < s.len()
        invariant
            i <= s@.len(),
            v@ =~= s@.take(i as int),
        decreases s@.len() - i,
    {
        v.push(s[i]);
        i = i + 1;
    }
    v
}

impl Clone for Receiver {
    fn clone(&self) -> (r: Receiver)
        ensures
            r@ == self@,
    {
        match self {
            Receiver::Orchard(a) => Receiver::Orchard(*a),
            Receiver::Sapling(a) => Receiver::Sapling(*a),
            Receiver::P2pkh(a) => Receiver::P2pkh(*a),
            Receiver::P2sh(a) => Receiver::P2sh(*a),
            Receiver::Unknown { typecode, data } => Receiver::Unknown {
                typecode: *typecode,
                data: bytes_to_vec(data.as_slice()),
            },
        }
    }
}

impl Receiver {
    /// The typecode of the receiver.
    pub fn typecode(&self) -> (t: Typecode)
        ensures
            t == self@.typecode(),
    {
        match self {
            Receiver::P2pkh(_) => Typecode::P2pkh,
            Receiver::P2sh(_) => Typecode::P2sh,
            Receiver::Sapling(_) => Typecode::Sapling,
            Receiver::Orchard(_) => Typecode::Orchard,
            Receiver::Unknown { typecode, .. } => Typecode::Unknown(*typecode),
        }
    }

    /// The address bytes of the receiver.
    pub fn addr(&self) -> (a: &[u8])
        ensures
            a@ == self@.addr(),
    {
        match self {
            Receiver::P2pkh(data) => data.as_slice(),
            Receiver::P2sh(data) => data.as_slice(),
            Receiver::Sapling(data) => data.as_slice(),
            Receiver::Orchard(data) => data.as_slice(),
            Receiver::Unknown { data, .. } => data.as_slice(),
        }
    }

    /// The receiver that a typecode byte and its address bytes denote.
    pub fn from_parts(typecode: u8, addr: &[u8]) -> (r: Result<Receiver, ParseError>)
        ensures
            receiver_result_view(r) == receiver_from_parts(typecode, addr@),
    {
        match Typecode::from(typecode) {
            Typecode::P2pkh => if addr.len() == TRANSPARENT_LEN {
                Ok(Receiver::P2pkh(array_20(addr)))
            } else {
                Err(ParseError::InvalidEncoding)
            },
            Typecode::P2sh => if addr.len() == TRANSPARENT_LEN {
                Ok(Receiver::P2sh(array_20(addr)))
            } else {
                Err(ParseError::InvalidEncoding)
            },
            Typecode::Sapling => if addr.len() == SHIELDED_LEN {
                Ok(Receiver::Sapling(array_43(addr)))
            } else {
                Err(ParseError::InvalidEncoding)
            },
            Typecode::Orchard => if addr.len() == SHIELDED_LEN {
                Ok(Receiver::Orchard(array_43(addr)))
            } else {
                Err(ParseError::InvalidEncoding)
            },
            Typecode::Unknown(_) => Ok(Receiver::Unknown { typecode, data: bytes_to_vec(addr) }),
        }
    }
}

impl<'a> TryFrom<(u8, &'a [u8])> for Receiver {
    type Error = ParseError;

    fn try_from(parts: (u8, &'a [u8])) -> (r: Result<Receiver, ParseError>)
        ensures
            receiver_result_view(r) == receiver_from_parts(parts.0, parts.1@),
    {
        Receiver::from_parts(parts.0, parts.1)
    }
}

impl<'a> TryFromSpecImpl<(u8, &'a [u8])> for Receiver {
    open spec fn obeys_try_from_spec() -> bool {
        false
    }

    open spec fn try_from_spec(parts: (u8, &'a [u8])) -> Result<Receiver, ParseError> {
        Err(ParseError::InvalidEncoding)
    }
}

/// Writing a well-formed receiver as its typecode byte and address bytes and
/// reading them back gives the receiver.
pub proof fn lemma_receiver_parts_roundtrip(r: ReceiverView)
    requires
        r.wf(),
    ensures
        receiver_from_parts(byte_of_typecode(r.typecode()), r.addr()) == Ok::<ReceiverView, ParseError>(r),
{
    lemma_typecode_byte_roundtrip(r.typecode());
}

/// A receiver read from a typecode byte and address bytes is well-formed and
/// gives back that byte and those bytes.
pub proof fn lemma_receiver_from_parts_inverse(typecode: u8, addr: Seq<u8>)
    ensures
        receiver_from_parts(typecode, addr) matches Ok(r) ==> {
            &&& r.wf()
            &&& byte_of_typecode(r.typecode()) == typecode
            &&& r.addr() == addr
        },
{
    lemma_byte_typecode_roundtrip(typecode);
}

/// A receiver value always has the address length that its kind fixes.
pub proof fn lemma_receiver_has_kind_len(r: Receiver)
    ensures
        r@.has_kind_len(),
{
}

} // verus!
