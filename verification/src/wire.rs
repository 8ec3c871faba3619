//! Big-endian framing of integers, as the protocol writes lengths and counts.

use vstd::prelude::*;

verus! {

/// `256` to the power `n`: the number of values that `n` bytes can hold.
pub open spec fn radix_pow(n: nat) -> nat
    decreases n,
{
    if n == 0 {
        1
    } else {
        256 * radix_pow((n - 1) as nat)
    }
}

/// The `width` lowest bytes of `value`, most significant first
/// (for a value that does not fit, this keeps its low bytes, as a cast does).
pub open spec fn be_encode(value: nat, width: nat) -> Seq<u8>
    decreases width,
{
    if width == 0 {
        Seq::empty()
    } else {
        be_encode(value / 256, (width - 1) as nat).push((value % 256) as u8)
    }
}

/// The number that `bytes` spell out, most significant byte first.
pub open spec fn be_value(bytes: Seq<u8>) -> nat
    decreases bytes.len(),
{
    if bytes.len() == 0 {
        0
    } else {
        be_value(bytes.drop_last()) * 256 + bytes.last() as nat
    }
}

/// Appends `bytes` to `out`.
pub(crate) fn append_bytes(out: &mut Vec<u8>, bytes: &[u8])
    ensures
        final(out)@ == old(out)@ + bytes@,
{
    let mut i: usize = 0;
    while i < bytes.len()
        invariant
            i <= bytes@.len(),
            out@ == old(out)@ + bytes@.take(i as int),
        decreases bytes@.len() - i,
    {
        out.push(bytes[i]);
        i = i + 1;
        assert(out@ =~= old(out)@ + bytes@.take(i as int));
    }
    assert(bytes@.take(i as int) =~= bytes@);
}

/// Writes the `width` lowest bytes of `value`, most significant first.
pub fn encode_be(value: u64, width: usize) -> (out: Vec<u8>)
    ensures
        out@ == be_encode(value as nat, width as nat),
        out@.len() == width,
{
    let mut low: Vec<u8> = Vec::new();
    let mut cur: u64 = value;
    let mut i: usize = 0;
    while i < width
        invariant
            i <= width,
            low@.len() == i,
            be_encode(value as nat, width as nat) == be_encode(cur as nat, (width - i) as nat)
                + low@,
        decreases width - i,
    {
        let digit: u8 = (cur % 256) as u8;
        let ghost before = low@;
        low.insert(0, digit);
        assert(be_encode(cur as nat, (width - i) as nat) == be_encode(
            (cur / 256) as nat,
            (width - i - 1) as nat,
        ).push(digit));
        assert(be_encode((cur / 256) as nat, (width - i - 1) as nat).push(digit) + before
            =~= be_encode((cur / 256) as nat, (width - i - 1) as nat) + low@);
        cur = cur / 256;
        i = i + 1;
    }
    assert(low@ =~= Seq::<u8>::empty() + low@);
    low
}


/// Every value spelled by `bytes` stays below `256` to the power of its length.
pub proof fn lemma_be_value_bound(bytes: Seq<u8>)
    ensures
        be_value(bytes) < radix_pow(bytes.len()),
    decreases bytes.len(),
{
    if bytes.len() > 0 {
        lemma_be_value_bound(bytes.drop_last());
    }
}

/// Eight bytes hold exactly the values of a `u64`.
pub proof fn lemma_radix_pow_8()
    ensures
        radix_pow(8) == 0x1_0000_0000_0000_0000,
{
    reveal_with_fuel(radix_pow, 9);
}

/// Four bytes hold exactly the values of a `u32`.
pub proof fn lemma_radix_pow_4()
    ensures
        radix_pow(4) == 0x1_0000_0000,
{
    reveal_with_fuel(radix_pow, 5);
}

/// `256` to a power grows with the power.
pub proof fn lemma_radix_pow_monotone(a: nat, b: nat)
    requires
        a <= b,
    ensures
        radix_pow(a) <= radix_pow(b),
    decreases b,
{
    if a < b {
        lemma_radix_pow_monotone(a, (b - 1) as nat);
    }
}

/// Reads a number written most significant byte first, in at most eight bytes.
pub fn decode_be(bytes: &[u8]) -> (value: u64)
    requires
        bytes@.len() <= 8,
    ensures
        value as nat == be_value(bytes@),
{
    let mut acc: u64 = 0;
    let mut i: usize = 0;
    while i < bytes.len()
        invariant
            i <= bytes@.len() <= 8,
            acc as nat == be_value(bytes@.take(i as int)),
        decreases bytes@.len() - i,
    {
        proof {
            lemma_be_value_bound(bytes@.take(i as int));
            lemma_radix_pow_monotone(i as nat + 1, 8);
            lemma_radix_pow_8();
            assert(bytes@.take(i + 1).drop_last() =~= bytes@.take(i as int));
        }
        acc = acc * 256 + bytes[i] as u64;
        i = i + 1;
    }
    assert(bytes@.take(i as int) =~= bytes@);
    acc
}

/// Reading back what was written gives the value, when it fits in the width.
pub proof fn lemma_decode_encode(value: nat, width: nat)
    requires
        value < radix_pow(width),
    ensures
        be_encode(value, width).len() == width,
        be_value(be_encode(value, width)) == value,
    decreases width,
{
    if width > 0 {
        lemma_decode_encode(value / 256, (width - 1) as nat);
        let s = be_encode(value, width);
        assert(s.drop_last() =~= be_encode(value / 256, (width - 1) as nat));
    }
}

/// Writing back what was read gives the same bytes.
pub proof fn lemma_encode_decode(bytes: Seq<u8>)
    ensures
        be_encode(be_value(bytes), bytes.len()) == bytes,
    decreases bytes.len(),
{
    if bytes.len() > 0 {
        lemma_encode_decode(bytes.drop_last());
        let v = be_value(bytes);
        assert(v / 256 == be_value(bytes.drop_last()));
        assert(be_encode(v, bytes.len()) =~= bytes.drop_last().push(bytes.last()));
        assert(bytes.drop_last().push(bytes.last()) =~= bytes);
    }
}

} // verus!
