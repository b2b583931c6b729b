//! The byte form of a bounded list of fixed-width items: the items' own byte
//! forms one after another, with no length in front. The number of items is
//! the number of bytes divided by the width of one item.

use vstd::prelude::*;
use crate::primitives::{append_chunk, lemma_chunk_of, read_chunk, H256};

verus! {

/// Why a byte string is no list.
#[derive(Clone, Copy, Debug, PartialEq, Eq, Structural)]
pub enum DecodeError {
    /// The last item is cut short: it has `len` bytes where `expected` are
    /// due.
    InvalidByteLength { len: usize, expected: usize },
    /// The bytes hold `items` whole items, more than the `max` that the list
    /// may hold.
    ListTooLong { items: usize, max: usize },
}

/// An item whose byte form always has the same width.
pub trait FixedWidth: Sized {
    /// The number of bytes of every item.
    spec fn spec_width() -> nat;

    /// The byte form of an item.
    spec fn spec_encode(&self) -> Seq<u8>;

    /// Every byte form has the width, and no two items share one.
    proof fn lemma_byte_form(a: Self, b: Self)
        ensures
            0 < Self::spec_width() <= usize::MAX,
            a.spec_encode().len() == Self::spec_width(),
            a.spec_encode() == b.spec_encode() ==> a == b,
    ;

    /// Every string of the width is the byte form of an item.
    proof fn lemma_some_item(bytes: Seq<u8>) -> (item: Self)
        requires
            bytes.len() == Self::spec_width(),
        ensures
            item.spec_encode() == bytes,
    ;

    fn width() -> (w: usize)
        ensures
            w == Self::spec_width(),
            w > 0,
    ;

    /// Appends the byte form of the item to a buffer.
    fn append_to(&self, out: &mut Vec<u8>)
        ensures
            final(out)@ == old(out)@ + self.spec_encode(),
    ;

    /// The item whose byte form starts at `at`.
    fn read_from(bytes: &Vec<u8>, at: usize) -> (item: Self)
        requires
            at + Self::spec_width() <= bytes.len(),
        ensures
            item.spec_encode() == bytes@.subrange(at as int, at + Self::spec_width()),
    ;
}

impl FixedWidth for H256 {
    open spec fn spec_width() -> nat {
        32
    }

    open spec fn spec_encode(&self) -> Seq<u8> {
        self@
    }

    proof fn lemma_byte_form(a: Self, b: Self) {
        if a@ == b@ {
            H256::lemma_view_injective(a, b);
        }
    }

    proof fn lemma_some_item(bytes: Seq<u8>) -> (item: Self) {
        H256(lemma_chunk_of(bytes, 32))
    }

    fn width() -> (w: usize) {
        32
    }

    fn append_to(&self, out: &mut Vec<u8>) {
        append_chunk(&self.0, out);
    }

    fn read_from(bytes: &Vec<u8>, at: usize) -> (item: Self) {
        H256(read_chunk(bytes, at))
    }
}

/// The byte form of a sequence of items.
pub open spec fn encode_seq<T: FixedWidth>(items: Seq<T>) -> Seq<u8>
    decreases items.len(),
{
    if items.len() == 0 {
        Seq::empty()
    } else {
        encode_seq(items.drop_last()) + items.last().spec_encode()
    }
}

/// The part of a list that is kept when it may hold `max_len` items.
pub open spec fn bounded<T>(items: Seq<T>, max_len: nat) -> Seq<T> {
    if items.len() <= max_len {
        items
    } else {
        items.take(max_len as int)
    }
}

/// The list of up to `max_len` items that `bytes` is the byte form of, or
/// why it is none. A list that holds too much is refused before one whose
/// last item is cut short.
pub open spec fn decoded<T: FixedWidth>(bytes: Seq<u8>, max_len: nat) -> Result<
    Seq<T>,
    DecodeError,
> {
    let width = T::spec_width();
    let count = bytes.len() / width;
    let rest = bytes.len() % width;
    if count > max_len {
        Err(DecodeError::ListTooLong { items: count as usize, max: max_len as usize })
    } else if rest != 0 {
        Err(DecodeError::InvalidByteLength { len: rest as usize, expected: width as usize })
    } else {
        Ok(choose|items: Seq<T>| encode_seq(items) == bytes)
    }
}

/// The result of a decoding, with the list by its view.
pub open spec fn result_view<T>(result: Result<Vec<T>, DecodeError>) -> Result<
    Seq<T>,
    DecodeError,
> {
    match result {
        Ok(items) => Ok(items@),
        Err(e) => Err(e),
    }
}

pub proof fn lemma_encode_push<T: FixedWidth>(items: Seq<T>, item: T)
    ensures
        encode_seq(items.push(item)) == encode_seq(items) + item.spec_encode(),
{
    assert(items.push(item).drop_last() =~= items);
}

pub proof fn lemma_encode_len<T: FixedWidth>(items: Seq<T>)
    ensures
        encode_seq(items).len() == items.len() * T::spec_width(),
    decreases items.len(),
{
    if items.len() > 0 {
        lemma_encode_len(items.drop_last());
        T::lemma_byte_form(items.last(), items.last());
        assert((items.len() - 1) * T::spec_width() + T::spec_width() == items.len()
            * T::spec_width()) by (nonlinear_arith);
    } else {
        assert(0 * T::spec_width() == 0) by (nonlinear_arith);
    }
}

/// Two sequences with the same byte form are the same sequence.
pub proof fn lemma_encode_injective<T: FixedWidth>(a: Seq<T>, b: Seq<T>)
    requires
        encode_seq(a) == encode_seq(b),
    ensures
        a == b,
    decreases a.len(),
{
    let width = T::spec_width();
    lemma_encode_len(a);
    lemma_encode_len(b);
    if a.len() == 0 || b.len() == 0 {
        if a.len() > 0 {
            T::lemma_byte_form(a.last(), a.last());
            assert(a.len() * width > 0) by (nonlinear_arith)
                requires
                    a.len() > 0,
                    width > 0,
            ;
        }
        if b.len() > 0 {
            T::lemma_byte_form(b.last(), b.last());
            assert(b.len() * width > 0) by (nonlinear_arith)
                requires
                    b.len() > 0,
                    width > 0,
            ;
        }
        assert(a =~= b);
    } else {
        T::lemma_byte_form(a.last(), b.last());
        T::lemma_byte_form(b.last(), a.last());
        let (ha, hb) = (encode_seq(a.drop_last()), encode_seq(b.drop_last()));
        let (ta, tb) = (a.last().spec_encode(), b.last().spec_encode());
        let all = encode_seq(a);
        lemma_encode_len(a.drop_last());
        lemma_encode_len(b.drop_last());
        assert(all == ha + ta);
        assert(all == hb + tb);
        assert(ha.len() == all.len() - width);
        assert(hb.len() == all.len() - width);
        assert(ha =~= all.take(all.len() - width));
        assert(hb =~= all.take(all.len() - width));
        assert(ta =~= all.skip(all.len() - width));
        assert(tb =~= all.skip(all.len() - width));
        lemma_encode_injective(a.drop_last(), b.drop_last());
        assert(a =~= a.drop_last().push(a.last()));
        assert(b =~= b.drop_last().push(b.last()));
    }
}

/// The items that bytes are the byte form of are what decoding them gives,
/// where there are no more than the list may hold.
pub proof fn lemma_decoded_items<T: FixedWidth>(items: Seq<T>, max_len: nat)
    requires
        items.len() <= max_len,
    ensures
        decoded::<T>(encode_seq(items), max_len) == Ok::<Seq<T>, DecodeError>(items),
{
    let width = T::spec_width();
    let bytes = encode_seq(items);
    lemma_encode_len(items);
    if items.len() > 0 {
        T::lemma_byte_form(items.last(), items.last());
    } else {
        T::lemma_byte_form(arbitrary(), arbitrary());
    }
    assert(bytes.len() / width == items.len() && bytes.len() % width == 0) by (nonlinear_arith)
        requires
            bytes.len() == items.len() * width,
            width > 0,
    ;
    let chosen = choose|other: Seq<T>| encode_seq(other) == bytes;
    lemma_encode_injective(chosen, items);
}

/// Encoding a list of up to `max_len` items and decoding the bytes gives the
/// list back.
pub proof fn lemma_round_trip<T: FixedWidth>(items: Seq<T>, max_len: nat)
    requires
        items.len() <= max_len,
    ensures
        decoded::<T>(encode_seq(bounded(items, max_len)), max_len) == Ok::<Seq<T>, DecodeError>(
            items,
        ),
{
    lemma_decoded_items(items, max_len);
}

/// A list that decoding gives holds no more than it may, and encodes to the
/// bytes it came from.
pub proof fn lemma_decoded_ok<T: FixedWidth>(bytes: Seq<u8>, max_len: nat)
    requires
        decoded::<T>(bytes, max_len) is Ok,
    ensures
        decoded::<T>(bytes, max_len)->Ok_0.len() <= max_len,
        encode_seq(decoded::<T>(bytes, max_len)->Ok_0) == bytes,
{
    let width = T::spec_width();
    T::lemma_byte_form(arbitrary(), arbitrary());
    let count = bytes.len() / width;
    assert(bytes.len() == count * width) by (nonlinear_arith)
        requires
            count == bytes.len() / width,
            0 == bytes.len() % width,
            width > 0,
    ;
    lemma_chunks_encode::<T>(bytes, count);
    let items = decoded::<T>(bytes, max_len)->Ok_0;
    lemma_encode_len(items);
    assert(items.len() == count) by (nonlinear_arith)
        requires
            items.len() * width == count * width,
            width > 0,
    ;
}

/// Bytes of a whole number of widths are the byte form of some items.
proof fn lemma_chunks_encode<T: FixedWidth>(bytes: Seq<u8>, count: nat)
    requires
        bytes.len() == count * T::spec_width(),
    ensures
        exists|items: Seq<T>| encode_seq(items) == bytes,
    decreases count,
{
    let width = T::spec_width();
    T::lemma_byte_form(arbitrary(), arbitrary());
    if count == 0 {
        assert(0 * width == 0) by (nonlinear_arith);
        assert(encode_seq(Seq::<T>::empty()) =~= bytes);
    } else {
        assert((count - 1) * width + width == count * width) by (nonlinear_arith);
        let head = bytes.take((count - 1) * width);
        let tail = bytes.skip((count - 1) * width);
        lemma_chunks_encode::<T>(head, (count - 1) as nat);
        let items = choose|items: Seq<T>| encode_seq(items) == head;
        let last = T::lemma_some_item(tail);
        lemma_encode_push(items, last);
        assert(head + tail =~= bytes);
    }
}

/// The bytes of the first `max_len` items of a list.
pub fn encode_list<T: FixedWidth>(items: &Vec<T>, max_len: usize) -> (bytes: Vec<u8>)
    ensures
        bytes@ == encode_seq(bounded(items@, max_len as nat)),
{
    let count = if items.len() <= max_len {
        items.len()
    } else {
        max_len
    };
    let mut bytes: Vec<u8> = Vec::new();
    let mut i: usize = 0;
    while i < count
        invariant
            i <= count <= items.len(),
            bytes@ == encode_seq(items@.take(i as int)),
        decreases count - i,
    {
        items[i].append_to(&mut bytes);
        proof {
            lemma_encode_push(items@.take(i as int), items@[i as int]);
            assert(items@.take(i as int + 1) =~= items@.take(i as int).push(items@[i as int]));
        }
        i += 1;
    }
    assert(items@.take(items.len() as int) =~= items@);
    bytes
}

/// The list of up to `max_len` items that `bytes` is the byte form of.
pub fn decode_list<T: FixedWidth>(bytes: &Vec<u8>, max_len: usize) -> (result: Result<
    Vec<T>,
    DecodeError,
>)
    ensures
        result_view(result) == decoded::<T>(bytes@, max_len as nat),
        result matches Ok(items) ==> items.len() <= max_len && encode_seq(items@) == bytes@,
{
    let width = T::width();
    let count = bytes.len() / width;
    let rest = bytes.len() % width;
    if count > max_len {
        return Err(DecodeError::ListTooLong { items: count, max: max_len });
    }
    if rest != 0 {
        return Err(DecodeError::InvalidByteLength { len: rest, expected: width });
    }
    assert(bytes.len() == count * width) by (nonlinear_arith)
        requires
            count == bytes.len() / width,
            0 == bytes.len() % width,
            width > 0,
    ;
    let mut items: Vec<T> = Vec::new();
    let mut at: usize = 0;
    let mut i: usize = 0;
    while i < count
        invariant
            i <= count,
            width == T::spec_width(),
            width > 0,
            bytes.len() == count * width,
            at == i * width,
            items.len() == i,
            encode_seq(items@) == bytes@.take(at as int),
        decreases count - i,
    {
        assert(at + width <= bytes.len()) by (nonlinear_arith)
            requires
                at == i * width,
                i < count,
                bytes.len() == count * width,
        ;
        let item = T::read_from(bytes, at);
        proof {
            lemma_encode_push(items@, item);
            assert(bytes@.take(at + width) =~= bytes@.take(at as int) + bytes@.subrange(
                at as int,
                at + width,
            ));
            assert((i + 1) * width == i * width + width) by (nonlinear_arith);
        }
        items.push(item);
        at += width;
        i += 1;
    }
    assert(bytes@.take(bytes.len() as int) =~= bytes@);
    proof {
        let chosen = choose|other: Seq<T>| encode_seq(other) == bytes@;
        lemma_encode_injective(chosen, items@);
    }
    Ok(items)
}

} // verus!
