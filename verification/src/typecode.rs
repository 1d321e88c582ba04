//! Receiver typecodes of a Unified Address.

use vstd::prelude::*;
use vstd::std_specs::convert::FromSpecImpl;

verus! {

/// The typecode of a receiver within a Unified Address.
#[derive(Clone, Copy, Debug, PartialEq, Eq, Hash, Structural)]
pub enum Typecode {
    P2pkh,
    P2sh,
    Sapling,
    Orchard,
    Unknown(u8),
}

/// The typecode that a raw typecode byte denotes.
pub open spec fn typecode_of_byte(b: u8) -> Typecode {
    if b == 0 {
        Typecode::P2pkh
    } else if b == 1 {
        Typecode::P2sh
    } else if b == 2 {
        Typecode::Sapling
    } else if b == 3 {
        Typecode::Orchard
    } else {
        Typecode::Unknown(b)
    }
}

/// The raw byte of a typecode.
pub open spec fn byte_of_typecode(t: Typecode) -> u8 {
    match t {
        Typecode::P2pkh => 0,
        Typecode::P2sh => 1,
        Typecode::Sapling => 2,
        Typecode::Orchard => 3,
        Typecode::Unknown(b) => b,
    }
}

impl From<u8> for Typecode {
    fn from(typecode: u8) -> (t: Typecode) {
        match typecode {
            0 => Typecode::P2pkh,
            1 => Typecode::P2sh,
            2 => Typecode::Sapling,
            3 => Typecode::Orchard,
            _ => Typecode::Unknown(typecode),
        }
    }
}

impl FromSpecImpl<u8> for Typecode {
    open spec fn obeys_from_spec() -> bool {
        true
    }

    open spec fn from_spec(v: u8) -> Typecode {
        typecode_of_byte(v)
    }
}

impl From<Typecode> for u8 {
    fn from(t: Typecode) -> (b: u8) {
        match t {
            Typecode::P2pkh => 0,
            Typecode::P2sh => 1,
            Typecode::Sapling => 2,
            Typecode::Orchard => 3,
            Typecode::Unknown(typecode) => typecode,
        }
    }
}

impl FromSpecImpl<Typecode> for u8 {
    open spec fn obeys_from_spec() -> bool {
        true
    }

    open spec fn from_spec(v: Typecode) -> u8 {
        byte_of_typecode(v)
    }
}

/// Position of a typecode in preference order: Orchard, Sapling, P2SH, P2PKH,
/// then unknown typecodes from the highest byte down.
pub open spec fn typecode_rank(t: Typecode) -> int {
    match t {
        Typecode::Orchard => 0,
        Typecode::Sapling => 1,
        Typecode::P2sh => 2,
        Typecode::P2pkh => 3,
        Typecode::Unknown(b) => 4 + (255 - b),
    }
}

impl Typecode {
    /// Whether the typecode denotes a transparent receiver (P2PKH or P2SH).
    /// Unknown typecodes count as not transparent.
    pub open spec fn spec_is_transparent(self) -> bool {
        self is P2pkh || self is P2sh
    }

    /// Whether the typecode denotes a transparent receiver.
    pub fn is_transparent(&self) -> (b: bool)
        ensures
            b == self.spec_is_transparent(),
    {
        match self {
            Typecode::P2pkh | Typecode::P2sh => true,
            _ => false,
        }
    }

    /// The position of the typecode in preference order.
    pub fn preference_rank(&self) -> (r: u16)
        ensures
            r == typecode_rank(*self),
    {
        match self {
            Typecode::Orchard => 0,
            Typecode::Sapling => 1,
            Typecode::P2sh => 2,
            Typecode::P2pkh => 3,
            Typecode::Unknown(b) => 4 + (255 - *b as u16),
        }
    }

    /// Whether a typecode is the canonical reading of its own byte, that is
    /// not `Unknown` of a byte that a known typecode owns.
    pub open spec fn is_canonical(self) -> bool {
        self matches Typecode::Unknown(b) ==> b > 3
    }
}

/// Reading a byte as a typecode and writing it back gives the byte.
pub proof fn lemma_byte_typecode_roundtrip(b: u8)
    ensures
        byte_of_typecode(typecode_of_byte(b)) == b,
        typecode_of_byte(b).is_canonical(),
{
}

/// Writing a canonical typecode as a byte and reading it back gives the typecode.
pub proof fn lemma_typecode_byte_roundtrip(t: Typecode)
    requires
        t.is_canonical(),
    ensures
        typecode_of_byte(byte_of_typecode(t)) == t,
{
}

} // verus!
