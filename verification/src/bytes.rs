//! Bytes: big-endian numbers and account addresses.
use byteorder::{BigEndian, ReadBytesExt, WriteBytesExt};
use vstd::prelude::*;

use crate::types::Address;

verus! {

/// The number that `bytes` spell, most significant byte first.
pub open spec fn be_value(bytes: Seq<u8>) -> nat
    decreases bytes.len(),
{
    if bytes.len() == 0 {
        0
    } else {
        be_value(bytes.drop_last()) * 256 + bytes.last() as nat
    }
}

/// The last `len` bytes of `n`, most significant byte first.
pub open spec fn be_bytes(n: nat, len: nat) -> Seq<u8>
    decreases len,
{
    if len == 0 {
        Seq::empty()
    } else {
        be_bytes(n / 256, (len - 1) as nat).push((n % 256) as u8)
    }
}

/// The numbers that fit into `len` bytes are those below `room(len)`.
pub open spec fn room(len: nat) -> nat
    decreases len,
{
    if len == 0 {
        1
    } else {
        256 * room((len - 1) as nat)
    }
}

/// `be_bytes` gives as many bytes as it is asked for.
pub proof fn lemma_be_bytes_len(n: nat, len: nat)
    ensures
        be_bytes(n, len).len() == len,
    decreases len,
{
    if len > 0 {
        lemma_be_bytes_len(n / 256, (len - 1) as nat);
    }
}

/// What bytes spell fits into them.
pub proof fn lemma_be_value_bound(bytes: Seq<u8>)
    ensures
        be_value(bytes) < room(bytes.len()),
    decreases bytes.len(),
{
    if bytes.len() > 0 {
        lemma_be_value_bound(bytes.drop_last());
    }
}

/// Reading back what was written gives the number.
pub proof fn lemma_value_of_bytes(n: nat, len: nat)
    requires
        n < room(len),
    ensures
        be_value(be_bytes(n, len)) == n,
    decreases len,
{
    if len > 0 {
        lemma_value_of_bytes(n / 256, (len - 1) as nat);
        lemma_be_bytes_len(n / 256, (len - 1) as nat);
        assert(be_bytes(n, len).drop_last() =~= be_bytes(n / 256, (len - 1) as nat));
    }
}

/// Writing what was read gives the bytes.
pub proof fn lemma_bytes_of_value(bytes: Seq<u8>)
    ensures
        be_bytes(be_value(bytes), bytes.len()) == bytes,
    decreases bytes.len(),
{
    if bytes.len() > 0 {
        lemma_bytes_of_value(bytes.drop_last());
        assert(be_bytes(be_value(bytes), bytes.len()) =~= bytes);
    } else {
        assert(be_bytes(be_value(bytes), bytes.len()) =~= bytes);
    }
}

/// More bytes hold more numbers.
proof fn lemma_room_grows(a: nat, b: nat)
    requires
        a <= b,
    ensures
        room(a) <= room(b),
    decreases b,
{
    if a < b {
        lemma_room_grows(a, (b - 1) as nat);
    }
}

/// Four, eight and sixteen bytes hold what `u32`, `u64` and `u128` hold.
pub proof fn lemma_room_of_words()
    ensures
        room(4) == u32::MAX + 1,
        room(8) == u64::MAX + 1,
        room(16) == u128::MAX + 1,
{
    reveal_with_fuel(room, 17);
}

/// The number in `len` bytes of `data`, from the byte at `from` on.
pub fn number_at(data: &Vec<u8>, from: usize, len: usize) -> (r: u128)
    requires
        from + len <= data.len(),
        len <= 16,
    ensures
        r == be_value(data@.subrange(from as int, from + len)),
{
    let mut n: u128 = 0;
    let mut i: usize = 0;
    while i < len
        invariant
            i <= len <= 16,
            from + len <= data.len(),
            n == be_value(data@.subrange(from as int, from + i)),
        decreases len - i,
    {
        proof {
            let next = data@.subrange(from as int, from + i + 1);
            assert(next.drop_last() =~= data@.subrange(from as int, from + i));
            lemma_be_value_bound(next);
            lemma_room_grows((i + 1) as nat, 16);
            lemma_room_of_words();
        }
        n = n * 256 + data[from + i] as u128;
        i = i + 1;
    }
    n
}

/// Appends the last `len` bytes of `n`.
pub fn push_number(out: &mut Vec<u8>, n: u128, len: usize)
    ensures
        final(out)@ == old(out)@ + be_bytes(n as nat, len as nat),
    decreases len,
{
    if len > 0 {
        push_number(out, n / 256, len - 1);
        out.push((n % 256) as u8);
    }
    assert(out@ =~= old(out)@ + be_bytes(n as nat, len as nat));
}

/// The eight bytes that `write_u64::<BigEndian>` of byteorder's
/// `WriteBytesExt` appends to an empty vector: those of `n`, most significant
/// byte first. Writing to a vector does not fail.
#[verifier::external_body]
pub(crate) fn write_u64(n: u64) -> (r: Vec<u8>)
    ensures
        r@ == be_bytes(n as nat, 8),
{
    let mut data = vec![];
    data.write_u64::<BigEndian>(n).unwrap();
    data
}

/// The number that `read_u64::<BigEndian>` of byteorder's `ReadBytesExt`
/// reads from eight bytes: most significant byte first.
#[verifier::external_body]
pub(crate) fn read_u64(data: &Vec<u8>) -> (r: u64)
    requires
        data@.len() == 8,
    ensures
        r == be_value(data@),
{
    let mut data = data.as_slice();
    data.read_u64::<BigEndian>().unwrap()
}

/// The address whose twenty bytes are `bytes`.
pub open spec fn address_of(bytes: Seq<u8>) -> Address {
    (
        be_value(bytes.subrange(0, 16)) as u128,
        be_value(bytes.subrange(16, 20)) as u32,
    )
}

/// The twenty bytes of an address.
pub open spec fn address_bytes(a: Address) -> Seq<u8> {
    be_bytes(a.0 as nat, 16) + be_bytes(a.1 as nat, 4)
}

/// The address whose bytes are the twenty from `from` on.
pub fn address_at(data: &Vec<u8>, from: usize) -> (r: Address)
    requires
        from + 20 <= data.len(),
    ensures
        r == address_of(data@.subrange(from as int, from + 20)),
{
    let high = number_at(data, from, 16);
    let low = number_at(data, from + 16, 4);
    proof {
        let bytes = data@.subrange(from as int, from + 20);
        assert(bytes.subrange(0, 16) =~= data@.subrange(from as int, from + 16));
        assert(bytes.subrange(16, 20) =~= data@.subrange(from + 16, from + 20));
        lemma_be_value_bound(bytes.subrange(16, 20));
        lemma_room_of_words();
    }
    (high, low as u32)
}

/// Appends the twenty bytes of an address.
pub fn push_address(out: &mut Vec<u8>, a: Address)
    ensures
        final(out)@ == old(out)@ + address_bytes(a),
{
    push_number(out, a.0, 16);
    push_number(out, a.1 as u128, 4);
    assert(out@ =~= old(out)@ + address_bytes(a));
}

/// Twenty bytes and the address that they spell determine each other: the
/// address of an address's bytes is that address.
pub proof fn law_address_of_its_bytes(a: Address)
    ensures
        address_bytes(a).len() == 20,
        address_of(address_bytes(a)) == a,
{
    lemma_be_bytes_len(a.0 as nat, 16);
    lemma_be_bytes_len(a.1 as nat, 4);
    assert(address_bytes(a).subrange(0, 16) =~= be_bytes(a.0 as nat, 16));
    assert(address_bytes(a).subrange(16, 20) =~= be_bytes(a.1 as nat, 4));
    lemma_room_of_words();
    lemma_value_of_bytes(a.0 as nat, 16);
    lemma_value_of_bytes(a.1 as nat, 4);
}

/// Twenty bytes and the address that they spell determine each other: the
/// bytes of twenty bytes' address are those bytes.
pub proof fn law_bytes_of_their_address(bytes: Seq<u8>)
    requires
        bytes.len() == 20,
    ensures
        address_bytes(address_of(bytes)) == bytes,
{
    let high = bytes.subrange(0, 16);
    let low = bytes.subrange(16, 20);
    lemma_be_value_bound(high);
    lemma_be_value_bound(low);
    lemma_room_of_words();
    lemma_bytes_of_value(high);
    lemma_bytes_of_value(low);
    assert(high + low =~= bytes);
}

/// There is room for a number in any bytes.
proof fn lemma_room_positive(len: nat)
    ensures
        room(len) > 0,
    decreases len,
{
    if len > 0 {
        lemma_room_positive((len - 1) as nat);
    }
}

/// The bytes of a number are its digits to the base 256, the highest first.
pub proof fn law_bytes_are_digits(n: nat, len: nat, i: int)
    requires
        0 <= i < len,
    ensures
        be_bytes(n, len).len() == len,
        be_bytes(n, len)[i] as nat == (n / room((len - 1 - i) as nat)) % 256,
    decreases len,
{
    lemma_be_bytes_len(n, len);
    lemma_be_bytes_len(n / 256, (len - 1) as nat);
    if i < len - 1 {
        let rest = (len - 2 - i) as nat;
        law_bytes_are_digits(n / 256, (len - 1) as nat, i);
        lemma_room_positive(rest);
        vstd::arithmetic::div_mod::lemma_div_denominator(n as int, 256, room(rest) as int);
    } else {
        assert(n / 1 == n);
    }
}

} // verus!
