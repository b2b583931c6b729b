//! The two fixed-width values a block summary is made of.

use vstd::prelude::*;
use vstd::std_specs::cmp::PartialEqSpecImpl;

verus! {

/// The number that a little-endian byte string stands for.
pub open spec fn le_value(bytes: Seq<u8>) -> nat
    decreases bytes.len(),
{
    if bytes.len() == 0 {
        0
    } else {
        bytes[0] as nat + 256 * le_value(bytes.drop_first())
    }
}

/// The first `len` little-endian digits of `n` in base 256.
pub open spec fn le_bytes(n: nat, len: nat) -> Seq<u8>
    decreases len,
{
    if len == 0 {
        Seq::empty()
    } else {
        seq![(n % 256) as u8] + le_bytes(n / 256, (len - 1) as nat)
    }
}

/// 256 to the power `k`.
pub open spec fn pow256(k: nat) -> nat
    decreases k,
{
    if k == 0 {
        1
    } else {
        256 * pow256((k - 1) as nat)
    }
}

/// Reading back what `le_bytes` wrote gives the number, if it fits.
pub proof fn lemma_le_value_of_le_bytes(n: nat, len: nat)
    requires
        n < pow256(len),
    ensures
        le_value(le_bytes(n, len)) == n,
    decreases len,
{
    if len > 0 {
        let rest = le_bytes(n / 256, (len - 1) as nat);
        let all = le_bytes(n, len);
        lemma_le_value_of_le_bytes(n / 256, (len - 1) as nat);
        assert(all.drop_first() =~= rest);
        assert(all[0] == (n % 256) as u8);
    }
}

/// Numbers that fit in `len` bytes and are written alike are equal.
pub proof fn lemma_le_bytes_injective(n: nat, m: nat, len: nat)
    requires
        n < pow256(len),
        m < pow256(len),
        le_bytes(n, len) == le_bytes(m, len),
    ensures
        n == m,
{
    lemma_le_value_of_le_bytes(n, len);
    lemma_le_value_of_le_bytes(m, len);
}

/// Every 64-bit number fits in 32 bytes.
pub proof fn lemma_u64_fits(x: u64)
    ensures
        (x as nat) < pow256(32),
{
    reveal_with_fuel(pow256, 33);
}

/// The 32 little-endian bytes of a 64-bit number.
pub fn le_bytes_32(x: u64) -> (bytes: [u8; 32])
    ensures
        bytes@ == le_bytes(x as nat, 32),
{
    let mut bytes = [0u8; 32];
    let mut rest: u64 = x;
    let mut i: usize = 0;
    while i < 32
        invariant
            i <= 32,
            bytes@.len() == 32,
            bytes@.take(i as int) + le_bytes(rest as nat, (32 - i) as nat) == le_bytes(x as nat, 32),
        decreases 32 - i,
    {
        let ghost before = bytes@;
        bytes[i] = (rest % 256) as u8;
        proof {
            let tail = le_bytes(rest as nat, (32 - i) as nat);
            let next = le_bytes((rest / 256) as nat, (32 - i - 1) as nat);
            assert(tail =~= seq![(rest % 256) as u8] + next);
            assert(bytes@.take(i as int + 1) =~= before.take(i as int).push((rest % 256) as u8));
            assert(bytes@.take(i as int + 1) + next =~= before.take(i as int) + tail);
        }
        rest = rest / 256;
        i += 1;
    }
    assert(bytes@.take(32) =~= bytes@);
    assert(le_bytes(rest as nat, 0) =~= Seq::<u8>::empty());
    assert(bytes@ + Seq::<u8>::empty() =~= bytes@);
    bytes
}

/// Every string of 32 bytes is the view of a chunk.
pub proof fn lemma_chunk_of(bytes: Seq<u8>, upto: nat) -> (chunk: [u8; 32])
    requires
        bytes.len() == 32,
        upto <= 32,
    ensures
        forall|i: int| 0 <= i < upto ==> chunk@[i] == bytes[i],
        upto == 32 ==> chunk@ == bytes,
    decreases upto,
{
    if upto == 0 {
        vstd::array::spec_array_fill_for_copy_type::<u8, 32>(0u8)
    } else {
        let below = lemma_chunk_of(bytes, (upto - 1) as nat);
        let chunk = vstd::array::spec_array_update(below, upto - 1, bytes[upto - 1]);
        assert(chunk@ == below@.update(upto - 1, bytes[upto - 1]));
        if upto == 32 {
            assert(chunk@ =~= bytes);
        }
        chunk
    }
}

/// Appends the 32 bytes of a chunk to a buffer.
pub fn append_chunk(chunk: &[u8; 32], out: &mut Vec<u8>)
    ensures
        final(out)@ == old(out)@ + chunk@,
{
    let mut i: usize = 0;
    while i < 32
        invariant
            i <= 32,
            out@ == old(out)@ + chunk@.take(i as int),
        decreases 32 - i,
    {
        out.push(chunk[i]);
        assert(chunk@.take(i as int + 1) =~= chunk@.take(i as int).push(chunk@[i as int]));
        i += 1;
    }
    assert(chunk@.take(32) =~= chunk@);
}

/// The 32 bytes of a buffer that start at `at`.
pub fn read_chunk(bytes: &Vec<u8>, at: usize) -> (chunk: [u8; 32])
    requires
        at + 32 <= bytes.len(),
    ensures
        chunk@ == bytes@.subrange(at as int, at + 32),
{
    let mut chunk = [0u8; 32];
    let mut i: usize = 0;
    while i < 32
        invariant
            i <= 32,
            at + 32 <= bytes.len(),
            chunk@.len() == 32,
            forall|j: int| 0 <= j < i ==> chunk@[j] == bytes@[at + j],
        decreases 32 - i,
    {
        chunk[i] = bytes[at + i];
        i += 1;
    }
    assert(chunk@ =~= bytes@.subrange(at as int, at + 32));
    chunk
}

/// A 32-byte identifier or digest.
#[derive(Clone, Copy, Debug)]
pub struct H256(pub [u8; 32]);

impl View for H256 {
    type V = Seq<u8>;

    open spec fn view(&self) -> Seq<u8> {
        self.0@
    }
}

impl H256 {
    /// The all-zero value.
    pub fn zero() -> (h: H256)
        ensures
            h@ == Seq::new(32, |i: int| 0u8),
    {
        let h = H256([0u8; 32]);
        assert(h@ =~= Seq::new(32, |i: int| 0u8));
        h
    }

    /// Two values with the same bytes are the same value.
    pub proof fn lemma_view_injective(a: H256, b: H256)
        requires
            a@ == b@,
        ensures
            a == b,
    {
        assert(a.0 =~= b.0);
    }
}

/// An unsigned 256-bit integer, held as its 32 little-endian bytes.
#[derive(Clone, Copy, Debug)]
pub struct U256(pub [u8; 32]);

impl View for U256 {
    type V = Seq<u8>;

    open spec fn view(&self) -> Seq<u8> {
        self.0@
    }
}

impl U256 {
    /// The integer that the bytes stand for.
    pub open spec fn value(&self) -> nat {
        le_value(self@)
    }

    /// The 256-bit integer equal to a 64-bit one.
    pub fn from_u64(x: u64) -> (n: U256)
        ensures
            n@ == le_bytes(x as nat, 32),
            n.value() == x,
    {
        proof {
            lemma_u64_fits(x);
            lemma_le_value_of_le_bytes(x as nat, 32);
        }
        U256(le_bytes_32(x))
    }

    /// Zero.
    pub fn zero() -> (n: U256)
        ensures
            n@ == le_bytes(0, 32),
            n.value() == 0,
    {
        U256::from_u64(0)
    }
}

impl PartialEq for U256 {
    fn eq(&self, other: &U256) -> (r: bool) {
        let mut i: usize = 0;
        while i < 32
            invariant
                i <= 32,
                forall|j: int| 0 <= j < i ==> self.0@[j] == other.0@[j],
            decreases 32 - i,
        {
            if self.0[i] != other.0[i] {
                return false;
            }
            i += 1;
        }
        assert(self.0@ =~= other.0@);
        true
    }
}

impl Eq for U256 {}

impl PartialEqSpecImpl for U256 {
    open spec fn obeys_eq_spec() -> bool {
        true
    }

    open spec fn eq_spec(&self, other: &U256) -> bool {
        self@ == other@
    }
}

impl PartialEq for H256 {
    fn eq(&self, other: &H256) -> (r: bool) {
        let mut i: usize = 0;
        while i < 32
            invariant
                i <= 32,
                forall|j: int| 0 <= j < i ==> self.0@[j] == other.0@[j],
            decreases 32 - i,
        {
            if self.0[i] != other.0[i] {
                return false;
            }
            i += 1;
        }
        assert(self.0@ =~= other.0@);
        true
    }
}

impl Eq for H256 {}

impl PartialEqSpecImpl for H256 {
    open spec fn obeys_eq_spec() -> bool {
        true
    }

    open spec fn eq_spec(&self, other: &H256) -> bool {
        self@ == other@
    }
}

} // verus!
