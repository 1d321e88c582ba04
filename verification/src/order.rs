//! Preference order of typecodes and receivers.

use vstd::prelude::*;
use core::cmp::Ordering;
use vstd::std_specs::cmp::PartialOrdSpecImpl;
use crate::typecode::{Typecode, typecode_rank};
use crate::receiver::{Receiver, ReceiverView, suffix};

verus! {

/// The ordering of two integers.
pub open spec fn ordering_of(a: int, b: int) -> Ordering {
    if a < b {
        Ordering::Less
    } else if a == b {
        Ordering::Equal
    } else {
        Ordering::Greater
    }
}

/// Two typecodes of equal rank are equal: the preference order is total and
/// its equality is that of typecodes.
pub proof fn lemma_typecode_rank_injective(a: Typecode, b: Typecode)
    ensures
        typecode_rank(a) == typecode_rank(b) <==> a == b,
{
}

impl Typecode {
    /// Compares two typecodes by preference: the preferred one is `Less`.
    pub fn cmp(&self, other: &Self) -> (o: Ordering)
        ensures
            o == ordering_of(typecode_rank(*self), typecode_rank(*other)),
            (o == Ordering::Equal) <==> *self == *other,
    {
        match (self, other) {
            (Typecode::Orchard, Typecode::Orchard)
            | (Typecode::Sapling, Typecode::Sapling)
            | (Typecode::P2sh, Typecode::P2sh)
            | (Typecode::P2pkh, Typecode::P2pkh) => Ordering::Equal,
            (Typecode::Unknown(a), Typecode::Unknown(b)) => {
                if *b < *a {
                    Ordering::Less
                } else if *b == *a {
                    Ordering::Equal
                } else {
                    Ordering::Greater
                }
            },
            (Typecode::Orchard, _) => Ordering::Less,
            (_, Typecode::Orchard) => Ordering::Greater,
            (Typecode::Sapling, _) => Ordering::Less,
            (_, Typecode::Sapling) => Ordering::Greater,
            (Typecode::P2sh, _) => Ordering::Less,
            (_, Typecode::P2sh) => Ordering::Greater,
            (Typecode::P2pkh, _) => Ordering::Less,
            (_, Typecode::P2pkh) => Ordering::Greater,
        }
    }
}

impl PartialOrd for Typecode {
    fn partial_cmp(&self, other: &Self) -> (o: Option<Ordering>) {
        Some(self.cmp(other))
    }
}

impl PartialOrdSpecImpl for Typecode {
    open spec fn obeys_partial_cmp_spec() -> bool {
        true
    }

    open spec fn partial_cmp_spec(&self, other: &Self) -> Option<Ordering> {
        Some(ordering_of(typecode_rank(*self), typecode_rank(*other)))
    }
}

/// Lexicographic order of byte strings, a proper prefix first.
pub open spec fn bytes_ordering(a: Seq<u8>, b: Seq<u8>) -> Ordering
    decreases a.len(),
{
    if a.len() == 0 {
        if b.len() == 0 {
            Ordering::Equal
        } else {
            Ordering::Less
        }
    } else if b.len() == 0 {
        Ordering::Greater
    } else if a[0] < b[0] {
        Ordering::Less
    } else if a[0] > b[0] {
        Ordering::Greater
    } else {
        bytes_ordering(a.drop_first(), b.drop_first())
    }
}

/// Order of receivers: by typecode preference, then by address bytes.
pub open spec fn receiver_ordering(a: ReceiverView, b: ReceiverView) -> Ordering {
    match ordering_of(typecode_rank(a.typecode()), typecode_rank(b.typecode())) {
        Ordering::Equal => bytes_ordering(a.addr(), b.addr()),
        o => o,
    }
}

/// Compares two byte strings lexicographically.
fn compare_bytes(a: &[u8], b: &[u8]) -> (o: Ordering)
    ensures
        o == bytes_ordering(a@, b@),
{
    let mut i: usize = 0;
    assert(suffix(a@, 0) =~= a@ && suffix(b@, 0) =~= b@);
    while i < a.len() && i < b.len()
        invariant
            i <= a@.len(),
            i <= b@.len(),
            bytes_ordering(a@, b@) == bytes_ordering(suffix(a@, i), suffix(b@, i)),
        decreases a@.len() - i,
    {
        if a[i] < b[i] {
            return Ordering::Less;
        }
        if a[i] > b[i] {
            return Ordering::Greater;
        }
        let ghost j = i;
        i = i + 1;
        assert(suffix(a@, j).drop_first() =~= suffix(a@, i));
        assert(suffix(b@, j).drop_first() =~= suffix(b@, i));
    }
    if i < a.len() {
        Ordering::Greater
    } else if i < b.len() {
        Ordering::Less
    } else {
        Ordering::Equal
    }
}

impl Receiver {
    /// Compares two receivers by the preference of their typecodes, then by
    /// their address bytes.
    pub fn cmp(&self, other: &Self) -> (o: Ordering)
        ensures
            o == receiver_ordering(self@, other@),
    {
        match self.typecode().cmp(&other.typecode()) {
            Ordering::Equal => compare_bytes(self.addr(), other.addr()),
            res => res,
        }
    }
}

impl PartialOrd for Receiver {
    fn partial_cmp(&self, other: &Self) -> (o: Option<Ordering>) {
        Some(self.cmp(other))
    }
}

impl PartialOrdSpecImpl for Receiver {
    open spec fn obeys_partial_cmp_spec() -> bool {
        true
    }

    open spec fn partial_cmp_spec(&self, other: &Self) -> Option<Ordering> {
        Some(receiver_ordering(self@, other@))
    }
}

/// The reverse of an ordering.
pub open spec fn reversed(o: Ordering) -> Ordering {
    match o {
        Ordering::Less => Ordering::Greater,
        Ordering::Equal => Ordering::Equal,
        Ordering::Greater => Ordering::Less,
    }
}

/// Lexicographic order is antisymmetric and its equality is that of byte strings.
pub proof fn lemma_bytes_ordering_antisymmetric(a: Seq<u8>, b: Seq<u8>)
    ensures
        bytes_ordering(b, a) == reversed(bytes_ordering(a, b)),
        bytes_ordering(a, b) == Ordering::Equal <==> a == b,
    decreases a.len(),
{
    if a.len() == 0 && b.len() == 0 {
        assert(a =~= b);
    } else if a.len() > 0 && b.len() > 0 && a[0] == b[0] {
        lemma_bytes_ordering_antisymmetric(a.drop_first(), b.drop_first());
        if a.drop_first() == b.drop_first() {
            assert(a =~= seq![a[0]] + a.drop_first());
            assert(b =~= seq![b[0]] + b.drop_first());
        }
    } else if a.len() > 0 && b.len() > 0 {
        assert(a != b);
    } else {
        assert(a.len() != b.len());
    }
}

/// Lexicographic order is transitive.
pub proof fn lemma_bytes_ordering_transitive(a: Seq<u8>, b: Seq<u8>, c: Seq<u8>)
    requires
        bytes_ordering(a, b) == Ordering::Less,
        bytes_ordering(b, c) == Ordering::Less,
    ensures
        bytes_ordering(a, c) == Ordering::Less,
    decreases a.len(),
{
    if a.len() > 0 && b.len() > 0 && c.len() > 0 && a[0] == b[0] && b[0] == c[0] {
        lemma_bytes_ordering_transitive(a.drop_first(), b.drop_first(), c.drop_first());
    }
}

/// The order of receivers is antisymmetric and transitive, and it calls two
/// receivers equal exactly when they are equal.
pub proof fn lemma_receiver_ordering_laws(a: ReceiverView, b: ReceiverView, c: ReceiverView)
    ensures
        receiver_ordering(b, a) == reversed(receiver_ordering(a, b)),
        receiver_ordering(a, b) == Ordering::Equal <==> a == b,
        receiver_ordering(a, b) == Ordering::Less && receiver_ordering(b, c) == Ordering::Less
            ==> receiver_ordering(a, c) == Ordering::Less,
{
    lemma_typecode_rank_injective(a.typecode(), b.typecode());
    lemma_typecode_rank_injective(b.typecode(), c.typecode());
    lemma_bytes_ordering_antisymmetric(a.addr(), b.addr());
    if receiver_ordering(a, b) == Ordering::Less && receiver_ordering(b, c) == Ordering::Less {
        if a.typecode() == b.typecode() && b.typecode() == c.typecode() {
            lemma_bytes_ordering_transitive(a.addr(), b.addr(), c.addr());
        }
    }
}


/// Whether `x` comes strictly before `y` in lexicographic order: it is a
/// proper prefix of `y`, or at the first position where they differ its byte
/// is the smaller.
pub open spec fn lex_before(x: Seq<u8>, y: Seq<u8>) -> bool {
    ||| (x.len() < y.len() && y.take(x.len() as int) == x)
    ||| exists|k: int| 0 <= k < x.len() && k < y.len() && x.take(k) == y.take(k) && #[trigger] x[k] < y[k]
}

/// Whether typecode `a` is strictly preferred over typecode `b`: Orchard,
/// then Sapling, then P2SH, then P2PKH, then unknown typecodes from the
/// highest byte down.
pub open spec fn preferred(a: Typecode, b: Typecode) -> bool {
    match (a, b) {
        (Typecode::Orchard, Typecode::Orchard) => false,
        (Typecode::Orchard, _) => true,
        (Typecode::Sapling, Typecode::Orchard) | (Typecode::Sapling, Typecode::Sapling) => false,
        (Typecode::Sapling, _) => true,
        (Typecode::P2sh, Typecode::P2pkh) | (Typecode::P2sh, Typecode::Unknown(_)) => true,
        (Typecode::P2sh, _) => false,
        (Typecode::P2pkh, Typecode::Unknown(_)) => true,
        (Typecode::P2pkh, _) => false,
        (Typecode::Unknown(x), Typecode::Unknown(y)) => x > y,
        (Typecode::Unknown(_), _) => false,
    }
}

/// Byte strings with the same first byte compare as their remainders do
/// under `lex_before`.
proof fn lemma_lex_before_drop_first(x: Seq<u8>, y: Seq<u8>)
    requires
        x.len() > 0,
        y.len() > 0,
        x[0] == y[0],
    ensures
        lex_before(x, y) <==> lex_before(x.drop_first(), y.drop_first()),
{
    let (xs, ys) = (x.drop_first(), y.drop_first());
    assert(x =~= seq![x[0]] + xs);
    assert(y =~= seq![y[0]] + ys);
    if x.len() < y.len() && y.take(x.len() as int) == x {
        assert(ys.take(xs.len() as int) =~= y.take(x.len() as int).drop_first());
    }
    if xs.len() < ys.len() && ys.take(xs.len() as int) == xs {
        assert(y.take(x.len() as int) =~= seq![y[0]] + ys.take(xs.len() as int));
    }
    if exists|k: int| 0 <= k < x.len() && k < y.len() && x.take(k) == y.take(k) && #[trigger] x[k] < y[k] {
        let k = choose|k: int| 0 <= k < x.len() && k < y.len() && x.take(k) == y.take(k) && #[trigger] x[k] < y[k];
        assert(k > 0);
        assert(xs.take(k - 1) =~= x.take(k).drop_first());
        assert(ys.take(k - 1) =~= y.take(k).drop_first());
        assert(xs[k - 1] < ys[k - 1]);
    }
    if exists|k: int| 0 <= k < xs.len() && k < ys.len() && xs.take(k) == ys.take(k) && #[trigger] xs[k] < ys[k] {
        let k = choose|k: int| 0 <= k < xs.len() && k < ys.len() && xs.take(k) == ys.take(k) && #[trigger] xs[k] < ys[k];
        assert(x.take(k + 1) =~= seq![x[0]] + xs.take(k));
        assert(y.take(k + 1) =~= seq![y[0]] + ys.take(k));
        assert(x[k + 1] < y[k + 1]);
    }
}

/// A byte string whose first byte is the greater does not come first.
proof fn lemma_lex_before_first_greater(x: Seq<u8>, y: Seq<u8>)
    requires
        x.len() > 0,
        y.len() > 0,
        x[0] > y[0],
    ensures
        !lex_before(x, y),
{
    if x.len() < y.len() && y.take(x.len() as int) == x {
        assert(y.take(x.len() as int)[0] == x[0]);
    }
    if exists|k: int| 0 <= k < x.len() && k < y.len() && x.take(k) == y.take(k) && #[trigger] x[k] < y[k] {
        let k = choose|k: int| 0 <= k < x.len() && k < y.len() && x.take(k) == y.take(k) && #[trigger] x[k] < y[k];
        if k > 0 {
            assert(x.take(k)[0] == y.take(k)[0]);
        }
    }
}

/// `bytes_ordering` is lexicographic order: `Less` exactly when the first
/// string comes before the second.
proof fn lemma_bytes_ordering_less(x: Seq<u8>, y: Seq<u8>)
    ensures
        bytes_ordering(x, y) == Ordering::Less <==> lex_before(x, y),
    decreases x.len(),
{
    if x.len() == 0 {
        assert(y.take(0) =~= x);
    } else if y.len() == 0 {
    } else if x[0] < y[0] {
        assert(x.take(0) =~= y.take(0));
        assert(x[0] < y[0]);
    } else if x[0] > y[0] {
        lemma_lex_before_first_greater(x, y);
    } else {
        lemma_bytes_ordering_less(x.drop_first(), y.drop_first());
        lemma_lex_before_drop_first(x, y);
    }
}

/// The order of receivers spelled out: receivers of different typecodes
/// follow the preference of their typecodes; receivers of one typecode follow
/// the lexicographic order of their address bytes, and are `Equal` exactly
/// when those bytes are equal.
pub proof fn lemma_receiver_ordering_lexicographic(a: ReceiverView, b: ReceiverView)
    ensures
        a.typecode() != b.typecode() ==> (receiver_ordering(a, b) == Ordering::Less <==> preferred(
            a.typecode(),
            b.typecode(),
        )),
        a.typecode() != b.typecode() ==> (receiver_ordering(a, b) == Ordering::Greater <==> preferred(
            b.typecode(),
            a.typecode(),
        )),
        a.typecode() == b.typecode() ==> (receiver_ordering(a, b) == Ordering::Less <==> lex_before(
            a.addr(),
            b.addr(),
        )),
        a.typecode() == b.typecode() ==> (receiver_ordering(a, b) == Ordering::Greater <==> lex_before(
            b.addr(),
            a.addr(),
        )),
        a.typecode() == b.typecode() ==> (receiver_ordering(a, b) == Ordering::Equal <==> a.addr()
            == b.addr()),
{
    lemma_typecode_preference(a.typecode(), b.typecode());
    lemma_typecode_rank_injective(a.typecode(), b.typecode());
    lemma_bytes_ordering_less(a.addr(), b.addr());
    lemma_bytes_ordering_less(b.addr(), a.addr());
    lemma_bytes_ordering_antisymmetric(a.addr(), b.addr());
}

/// The order of typecodes spelled out: `Less` exactly when the first is
/// preferred, `Greater` exactly when the second is, `Equal` exactly when they
/// are the same typecode.
pub proof fn lemma_typecode_preference(a: Typecode, b: Typecode)
    ensures
        ordering_of(typecode_rank(a), typecode_rank(b)) == Ordering::Less <==> preferred(a, b),
        ordering_of(typecode_rank(a), typecode_rank(b)) == Ordering::Greater <==> preferred(b, a),
        ordering_of(typecode_rank(a), typecode_rank(b)) == Ordering::Equal <==> a == b,
{
}

} // verus!
