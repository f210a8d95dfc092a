//! Account and token identifiers.

use vstd::prelude::*;

verus! {

/// Balances, supply counters and enumeration indices are measured in this
/// type.
pub type Balance = u128;

/// An opaque fixed-size (256-bit) account identity, held as two halves.
///
/// The all-zero value is reserved: it can never own a token and can never be
/// the target of a mint or transfer.
#[derive(Clone, Copy, PartialEq, Eq, Structural, Hash, Debug)]
pub struct AccountId {
    pub hi: u128,
    pub lo: u128,
}

impl AccountId {
    /// The reserved all-zero account.
    pub open spec fn spec_zero() -> AccountId {
        AccountId { hi: 0, lo: 0 }
    }

    /// The reserved all-zero account.
    pub fn zero() -> (r: AccountId)
        ensures
            r == AccountId::spec_zero(),
    {
        AccountId { hi: 0, lo: 0 }
    }

    pub fn new(hi: u128, lo: u128) -> (r: AccountId)
        ensures
            r == (AccountId { hi, lo }),
    {
        AccountId { hi, lo }
    }

    /// Whether this is the reserved all-zero account.
    pub fn is_zero(&self) -> (r: bool)
        ensures
            r == (*self == AccountId::spec_zero()),
    {
        self.hi == 0 && self.lo == 0
    }
}

/// A token identifier: a tagged value, either an unsigned integer of 8, 16,
/// 32, 64 or 128 bits, or an arbitrary byte string.  Equality is structural;
/// identifiers with different tags are distinct even when their numeric
/// values agree.
#[derive(Clone, Debug)]
pub enum Id {
    U8(u8),
    U16(u16),
    U32(u32),
    U64(u64),
    U128(u128),
    Bytes(Vec<u8>),
}

/// The mathematical value of an [`Id`]: the same tagged value with the byte
/// string abstracted to a sequence.  Contracts throughout the crate speak of
/// identifiers through this type.
#[verifier::ext_equal]
pub enum IdView {
    U8(u8),
    U16(u16),
    U32(u32),
    U64(u64),
    U128(u128),
    Bytes(Seq<u8>),
}

impl View for Id {
    type V = IdView;

    open spec fn view(&self) -> IdView {
        match *self {
            Id::U8(v) => IdView::U8(v),
            Id::U16(v) => IdView::U16(v),
            Id::U32(v) => IdView::U32(v),
            Id::U64(v) => IdView::U64(v),
            Id::U128(v) => IdView::U128(v),
            Id::Bytes(b) => IdView::Bytes(b@),
        }
    }
}

/// Compares two byte vectors by value.
pub fn bytes_eq(a: &Vec<u8>, b: &Vec<u8>) -> (r: bool)
    ensures
        r == (a@ == b@),
{
    if a.len() != b.len() {
        return false;
    }
    let mut i: usize = 0;
    while i < a.len()
        invariant
            i <= a.len(),
            a@.len() == b@.len(),
            forall|j: int| 0 <= j < i ==> a@[j] == b@[j],
        decreases a.len() - i,
    {
        if a[i] != b[i] {
            return false;
        }
        i += 1;
    }
    proof {
        assert(a@ =~= b@);
    }
    true
}

/// Copies a byte vector.
pub fn clone_bytes(v: &Vec<u8>) -> (r: Vec<u8>)
    ensures
        r@ == v@,
{
    let mut r: Vec<u8> = Vec::new();
    let mut i: usize = 0;
    while i < v.len()
        invariant
            i <= v.len(),
            r@.len() == i,
            forall|j: int| 0 <= j < i ==> r@[j] == v@[j],
        decreases v.len() - i,
    {
        r.push(v[i]);
        i += 1;
    }
    proof {
        assert(r@ =~= v@);
    }
    r
}

impl PartialEq for Id {
    fn eq(&self, other: &Id) -> (r: bool) {
        match (self, other) {
            (Id::U8(a), Id::U8(b)) => *a == *b,
            (Id::U16(a), Id::U16(b)) => *a == *b,
            (Id::U32(a), Id::U32(b)) => *a == *b,
            (Id::U64(a), Id::U64(b)) => *a == *b,
            (Id::U128(a), Id::U128(b)) => *a == *b,
            (Id::Bytes(a), Id::Bytes(b)) => bytes_eq(a, b),
            _ => false,
        }
    }
}

impl vstd::std_specs::cmp::PartialEqSpecImpl for Id {
    open spec fn obeys_eq_spec() -> bool {
        true
    }

    open spec fn eq_spec(&self, other: &Id) -> bool {
        self@ == other@
    }
}

/// The value of a byte sequence read as a big-endian integer.
pub open spec fn be_value(s: Seq<u8>) -> nat
    decreases s.len(),
{
    if s.len() == 0 {
        0
    } else {
        (256 * be_value(s.drop_last()) + s.last()) as nat
    }
}

/// 256 to the power `n`.
pub open spec fn pow256(n: nat) -> nat
    decreases n,
{
    if n == 0 {
        1
    } else {
        256 * pow256((n - 1) as nat)
    }
}

proof fn lemma_pow256_pos(n: nat)
    ensures
        pow256(n) >= 1,
    decreases n,
{
    if n > 0 {
        lemma_pow256_pos((n - 1) as nat);
    }
}

proof fn lemma_pow256_le(m: nat, n: nat)
    requires
        m <= n,
    ensures
        pow256(m) <= pow256(n),
    decreases n,
{
    if m < n {
        lemma_pow256_le(m, (n - 1) as nat);
        lemma_pow256_pos((n - 1) as nat);
    }
}

/// A big-endian reading is bounded by 256 to the length.
proof fn lemma_be_value_bound(s: Seq<u8>)
    ensures
        be_value(s) < pow256(s.len()),
    decreases s.len(),
{
    if s.len() > 0 {
        lemma_be_value_bound(s.drop_last());
    }
}

/// The numeric value of an identifier, when it has one: integer tags give
/// their value, and a byte string of exactly 16 bytes is read big-endian.
/// Any other byte string has no numeric value.
pub open spec fn spec_id_to_u128(v: IdView) -> Option<u128> {
    match v {
        IdView::U8(x) => Some(x as u128),
        IdView::U16(x) => Some(x as u128),
        IdView::U32(x) => Some(x as u128),
        IdView::U64(x) => Some(x as u128),
        IdView::U128(x) => Some(x),
        IdView::Bytes(s) => if s.len() == 16 {
            Some(be_value(s) as u128)
        } else {
            None
        },
    }
}

impl Id {
    /// The numeric value of this identifier, when it has one: integer tags
    /// give their value, and a byte string of exactly 16 bytes is read as a
    /// big-endian integer.  Any other byte string has no numeric value.
    pub fn to_u128(&self) -> (r: Option<u128>)
        ensures
            r == spec_id_to_u128(self@),
    {
        match self {
            Id::U8(v) => Some(*v as u128),
            Id::U16(v) => Some(*v as u128),
            Id::U32(v) => Some(*v as u128),
            Id::U64(v) => Some(*v as u128),
            Id::U128(v) => Some(*v),
            Id::Bytes(b) => {
                if b.len() != 16 {
                    return None;
                }
                let mut acc: u128 = 0;
                let mut i: usize = 0;
                proof {
                    assert(pow256(16) == 0x100000000000000000000000000000000) by {
                        reveal_with_fuel(pow256, 17);
                    }
                }
                #[verifier::loop_isolation(false)]
                while i < 16
                    invariant
                        i <= 16,
                        b@.len() == 16,
                        acc as nat == be_value(b@.take(i as int)),
                    decreases 16 - i,
                {
                    proof {
                        lemma_be_value_bound(b@.take(i as int));
                        lemma_pow256_le(i as nat, 15);
                        assert(acc < pow256(15));
                    }
                    acc = acc * 256 + (b[i] as u128);
                    proof {
                        assert(b@.take(i + 1).drop_last() =~= b@.take(i as int));
                        assert(b@.take(i + 1).last() == b@[i as int]);
                    }
                    i += 1;
                }
                proof {
                    assert(b@.take(16) =~= b@);
                    lemma_be_value_bound(b@);
                }
                Some(acc)
            },
        }
    }

    /// Returns a copy of this identifier with the same value.
    pub fn duplicate(&self) -> (r: Id)
        ensures
            r@ == self@,
    {
        match self {
            Id::U8(v) => Id::U8(*v),
            Id::U16(v) => Id::U16(*v),
            Id::U32(v) => Id::U32(*v),
            Id::U64(v) => Id::U64(*v),
            Id::U128(v) => Id::U128(*v),
            Id::Bytes(b) => Id::Bytes(clone_bytes(b)),
        }
    }
}

} // verus!
