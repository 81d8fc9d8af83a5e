//! Digests, identifiers, amounts and slots.

use vstd::prelude::*;

verus! {

/// A value that can stand as the key of a [`VecMap`](crate::vec_map::VecMap).
pub trait Key: Copy + Sized {
    /// Whether both are the same value.
    fn same(&self, other: &Self) -> (equal: bool)
        ensures
            equal == (*self == *other),
    ;
}

/// A 32-byte digest.
#[derive(Clone, Copy, Debug, PartialEq, Eq, PartialOrd, Ord, Hash)]
pub struct Digest {
    pub bytes: [u8; 32],
}

impl Digest {
    /// The digest with these bytes.
    pub fn from_bytes(bytes: [u8; 32]) -> (digest: Digest)
        ensures
            digest.bytes == bytes,
    {
        Digest { bytes }
    }

    /// The bytes of the digest.
    pub fn to_bytes(&self) -> (bytes: [u8; 32])
        ensures
            bytes == self.bytes,
    {
        self.bytes
    }
}

impl Key for Digest {
    fn same(&self, other: &Self) -> (equal: bool) {
        let mut i: usize = 0;
        while i < 32
            invariant
                i <= 32,
                forall|j: int| 0 <= j < i ==> self.bytes[j] == other.bytes[j],
            decreases 32 - i,
        {
            if self.bytes[i] != other.bytes[i] {
                return false;
            }
            i = i + 1;
        }
        assert(self.bytes =~= other.bytes);
        true
    }
}

/// The address of an account or of a smart contract.
#[derive(Clone, Copy, Debug, PartialEq, Eq, PartialOrd, Ord, Hash)]
pub struct Address(pub Digest);

impl Key for Address {
    fn same(&self, other: &Self) -> (equal: bool) {
        self.0.same(&other.0)
    }
}

/// The identifier of a block.
#[derive(Clone, Copy, Debug, PartialEq, Eq, PartialOrd, Ord, Hash)]
pub struct BlockId(pub Digest);

impl Key for BlockId {
    fn same(&self, other: &Self) -> (equal: bool) {
        self.0.same(&other.0)
    }
}

/// The identifier of an operation.
#[derive(Clone, Copy, Debug, PartialEq, Eq, PartialOrd, Ord, Hash)]
pub struct OperationId(pub Digest);

impl Key for OperationId {
    fn same(&self, other: &Self) -> (equal: bool) {
        self.0.same(&other.0)
    }
}

/// The identifier of an output event.
#[derive(Clone, Copy, Debug, PartialEq, Eq, PartialOrd, Ord, Hash)]
pub struct SCOutputEventId(pub Digest);

impl Key for SCOutputEventId {
    fn same(&self, other: &Self) -> (equal: bool) {
        self.0.same(&other.0)
    }
}

/// A quantity of coins, counted in the smallest unit.
#[derive(Clone, Copy, Debug, PartialEq, Eq, Structural, PartialOrd, Ord, Hash)]
pub struct Amount {
    pub raw: u64,
}

impl Amount {
    /// No coins.
    pub fn zero() -> (amount: Amount)
        ensures
            amount.raw == 0,
    {
        Amount { raw: 0 }
    }

    /// The amount of `raw` smallest units.
    pub fn from_raw(raw: u64) -> (amount: Amount)
        ensures
            amount.raw == raw,
    {
        Amount { raw }
    }

    /// The number of smallest units.
    pub fn to_raw(&self) -> (raw: u64)
        ensures
            raw == self.raw,
    {
        self.raw
    }

    /// The sum, unless it does not fit.
    pub fn checked_add(self, other: Amount) -> (sum: Option<Amount>)
        ensures
            match sum {
                Some(sum) => sum.raw == self.raw + other.raw,
                None => self.raw + other.raw > u64::MAX,
            },
    {
        match self.raw.checked_add(other.raw) {
            Some(raw) => Some(Amount { raw }),
            None => None,
        }
    }

    /// The difference, unless it is negative.
    pub fn checked_sub(self, other: Amount) -> (difference: Option<Amount>)
        ensures
            match difference {
                Some(difference) => difference.raw == self.raw - other.raw,
                None => self.raw < other.raw,
            },
    {
        match self.raw.checked_sub(other.raw) {
            Some(raw) => Some(Amount { raw }),
            None => None,
        }
    }

    /// The amount times `factor`, or the greatest amount where the product does not fit.
    pub fn saturating_mul_u64(self, factor: u64) -> (product: Amount)
        ensures
            product.raw == self.spec_saturating_mul(factor),
    {
        match self.raw.checked_mul(factor) {
            Some(raw) => Amount { raw },
            None => Amount { raw: u64::MAX },
        }
    }

    /// The raw value of the amount times `factor`, capped at the greatest amount.
    pub open spec fn spec_saturating_mul(self, factor: u64) -> u64 {
        if self.raw * factor <= u64::MAX {
            (self.raw * factor) as u64
        } else {
            u64::MAX
        }
    }
}

/// The last `width` base-256 digits of `n`, most significant first.
pub open spec fn be_bytes(n: nat, width: nat) -> Seq<u8>
    decreases width,
{
    if width == 0 {
        Seq::empty()
    } else {
        be_bytes(n / 256, (width - 1) as nat).push((n % 256) as u8)
    }
}

/// 256 to the power `width`: how many numbers `width` bytes can hold.
pub open spec fn byte_range(width: nat) -> nat
    decreases width,
{
    if width == 0 {
        1
    } else {
        256 * byte_range((width - 1) as nat)
    }
}

/// Two numbers that fit in `width` bytes and have the same big-endian bytes are equal.
pub proof fn lemma_be_bytes_injective(a: nat, b: nat, width: nat)
    requires
        a < byte_range(width),
        b < byte_range(width),
        be_bytes(a, width) == be_bytes(b, width),
    ensures
        a == b,
    decreases width,
{
    if width > 0 {
        let tail_a = be_bytes(a / 256, (width - 1) as nat);
        let tail_b = be_bytes(b / 256, (width - 1) as nat);
        assert(tail_a == be_bytes(a, width).drop_last());
        assert(tail_b == be_bytes(b, width).drop_last());
        assert(be_bytes(a, width).last() == (a % 256) as u8);
        assert(be_bytes(b, width).last() == (b % 256) as u8);
        lemma_be_bytes_injective(a / 256, b / 256, (width - 1) as nat);
    }
}

/// `width` digits are `width` bytes.
pub proof fn lemma_be_bytes_len(n: nat, width: nat)
    ensures
        be_bytes(n, width).len() == width,
    decreases width,
{
    if width > 0 {
        lemma_be_bytes_len(n / 256, (width - 1) as nat);
    }
}

/// Every `u64` fits in eight bytes.
pub proof fn lemma_u64_fits(n: u64)
    ensures
        n < byte_range(8),
{
    reveal_with_fuel(byte_range, 9);
}

/// Appends the `width` low bytes of `n` to `data`, most significant first.
pub fn push_be_bytes(data: &mut Vec<u8>, n: u64, width: u64)
    ensures
        final(data)@ == old(data)@ + be_bytes(n as nat, width as nat),
    decreases width,
{
    if width > 0 {
        push_be_bytes(data, n / 256, width - 1);
        data.push((n % 256) as u8);
        assert(data@ =~= old(data)@ + be_bytes(n as nat, width as nat));
    } else {
        assert(data@ =~= old(data)@ + be_bytes(n as nat, width as nat));
    }
}

/// A point in time at which one block can be produced: a period and a thread within it.
/// Slots are ordered by period, then by thread.
#[derive(Clone, Copy, Debug, PartialEq, Eq, Structural, PartialOrd, Ord, Hash)]
pub struct Slot {
    pub period: u64,
    pub thread: u8,
}

impl Slot {
    /// The slot of `thread` in `period`.
    pub fn new(period: u64, thread: u8) -> (slot: Slot)
        ensures
            slot == (Slot { period, thread }),
    {
        Slot { period, thread }
    }

    /// Whether `self` comes strictly before `other`.
    pub open spec fn spec_before(self, other: Slot) -> bool {
        self.period < other.period || (self.period == other.period && self.thread < other.thread)
    }

    /// Whether `self` comes strictly before `other`.
    pub fn before(&self, other: &Slot) -> (earlier: bool)
        ensures
            earlier == self.spec_before(*other),
    {
        self.period < other.period || (self.period == other.period && self.thread < other.thread)
    }

    /// Whether `self` lies in `[start, end)`.
    pub open spec fn spec_within(self, start: Slot, end: Slot) -> bool {
        !self.spec_before(start) && self.spec_before(end)
    }

    /// Whether `self` lies in `[start, end)`.
    pub fn within(&self, start: &Slot, end: &Slot) -> (inside: bool)
        ensures
            inside == self.spec_within(*start, *end),
    {
        !self.before(start) && self.before(end)
    }

    /// The nine-byte key of the slot: the period, most significant byte first, then the thread.
    pub open spec fn spec_bytes_key(self) -> Seq<u8> {
        be_bytes(self.period as nat, 8).push(self.thread)
    }

    /// The nine-byte key of the slot: the period, most significant byte first, then the thread.
    pub fn to_bytes_key(&self) -> (key: Vec<u8>)
        ensures
            key@ == self.spec_bytes_key(),
    {
        let mut key: Vec<u8> = Vec::new();
        push_be_bytes(&mut key, self.period, 8);
        key.push(self.thread);
        assert(key@ =~= self.spec_bytes_key());
        key
    }
}

/// The key of a slot has nine bytes.
pub proof fn lemma_slot_key_len(slot: Slot)
    ensures
        slot.spec_bytes_key().len() == 9,
{
    lemma_be_bytes_len(slot.period as nat, 8);
}

/// Different slots have different keys.
pub proof fn lemma_slot_key_injective(a: Slot, b: Slot)
    requires
        a.spec_bytes_key() == b.spec_bytes_key(),
    ensures
        a == b,
{
    let key_a = a.spec_bytes_key();
    let key_b = b.spec_bytes_key();
    assert(key_a.drop_last() =~= be_bytes(a.period as nat, 8));
    assert(key_b.drop_last() =~= be_bytes(b.period as nat, 8));
    assert(key_a.last() == a.thread && key_b.last() == b.thread);
    lemma_u64_fits(a.period);
    lemma_u64_fits(b.period);
    lemma_be_bytes_injective(a.period as nat, b.period as nat, 8);
}

} // verus!
