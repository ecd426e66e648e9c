//! Sequences of bytes.
use vstd::prelude::*;
use vstd::utf8::*;

verus! {

/// Appends bytes at the end.
pub fn extend(out: &mut Vec<u8>, more: &[u8])
    ensures
        final(out)@ == old(out)@ + more@,
{
    let ghost before = out@;
    out.extend_from_slice(more);
    assert(out@ =~= before + more@);
}

/// The bytes from one position up to another.
pub fn range(bytes: &[u8], from: usize, to: usize) -> (copy: Vec<u8>)
    requires
        from <= to <= bytes@.len(),
    ensures
        copy@ == bytes@.subrange(from as int, to as int),
{
    vstd::slice::slice_to_vec(vstd::slice::slice_subrange(bytes, from, to))
}

/// The UTF-8 bytes of a text.
pub fn utf8_bytes(text: &str) -> (bytes: Vec<u8>)
    ensures
        bytes@ == encode_utf8(text@),
{
    vstd::slice::slice_to_vec(text.as_bytes())
}

/// A number as bytes, the highest one first.
pub open spec fn be_bytes(n: nat, width: nat) -> Seq<u8>
    decreases width,
{
    if width == 0 {
        Seq::empty()
    } else {
        be_bytes(n / 256, (width - 1) as nat).push((n % 256) as u8)
    }
}

/// The number of a sequence of bytes, the highest one first.
pub open spec fn be_value(bytes: Seq<u8>) -> nat
    decreases bytes.len(),
{
    if bytes.len() == 0 {
        0
    } else {
        be_value(bytes.drop_last()) * 256 + bytes.last() as nat
    }
}

/// Appends a number as two bytes, the higher one first.
pub fn push_be16(out: &mut Vec<u8>, n: u16)
    ensures
        final(out)@ == old(out)@ + be_bytes(n as nat, 2),
{
    let ghost before = out@;
    out.push((n / 256) as u8);
    out.push((n % 256) as u8);
    proof {
        reveal_with_fuel(be_bytes, 3);
        assert(be_bytes(n as nat, 2) =~= seq![(n / 256) as u8, (n % 256) as u8]);
    }
    assert(out@ =~= before + be_bytes(n as nat, 2));
}

/// Appends a number as eight bytes, the highest one first.
pub fn push_be64(out: &mut Vec<u8>, n: u64)
    ensures
        final(out)@ == old(out)@ + be_bytes(n as nat, 8),
{
    let ghost before = out@;
    let mut reversed: Vec<u8> = Vec::new();
    let mut rest: u64 = n;
    let mut i: usize = 0;
    assert(be_bytes(n as nat, 8) =~= be_bytes(rest as nat, 8) + reversed@.reverse());
    while i < 8
        invariant
            i <= 8,
            reversed@.len() == i,
            be_bytes(n as nat, 8) == be_bytes(rest as nat, (8 - i) as nat) + reversed@.reverse(),
        decreases 8 - i,
    {
        let ghost done = reversed@;
        let byte: u8 = (rest % 256) as u8;
        reversed.push(byte);
        assert(be_bytes((rest / 256) as nat, (8 - i - 1) as nat) + reversed@.reverse() =~= be_bytes(
            (rest / 256) as nat,
            (8 - i - 1) as nat,
        ).push(byte) + done.reverse());
        rest = rest / 256;
        i = i + 1;
    }
    assert(be_bytes(n as nat, 8) =~= reversed@.reverse());
    let mut k: usize = 8;
    while k > 0
        invariant
            k <= 8,
            reversed@.len() == 8,
            out@ == before + reversed@.reverse().take(8 - k),
        decreases k,
    {
        k = k - 1;
        out.push(reversed[k]);
        assert(reversed@.reverse().take(8 - k) =~= reversed@.reverse().take(8 - k - 1).push(
            reversed@[k as int],
        ));
    }
    assert(reversed@.reverse().take(8) =~= reversed@.reverse());
}

/// A number that is written in enough bytes is read back as the same number.
pub proof fn be_round_trip(n: nat, width: nat)
    requires
        n < vstd::arithmetic::power::pow(256, width),
    ensures
        be_bytes(n, width).len() == width,
        be_value(be_bytes(n, width)) == n,
    decreases width,
{
    reveal(vstd::arithmetic::power::pow);
    if width > 0 {
        let p = vstd::arithmetic::power::pow(256, (width - 1) as nat);
        assert(n < 256 * p);
        assert(n / 256 < p);
        be_round_trip(n / 256, (width - 1) as nat);
        assert(be_bytes(n, width).drop_last() =~= be_bytes(n / 256, (width - 1) as nat));
    }
}

/// The UTF-8 bytes of two texts put together.
pub proof fn lemma_encode_concat(a: Seq<char>, b: Seq<char>)
    ensures
        encode_utf8(a + b) == encode_utf8(a) + encode_utf8(b),
    decreases a.len(),
{
    if a.len() == 0 {
        assert(a + b =~= b);
        assert(encode_utf8(a) + encode_utf8(b) =~= encode_utf8(b));
    } else {
        assert((a + b).drop_first() =~= a.drop_first() + b);
        lemma_encode_concat(a.drop_first(), b);
        assert(encode_utf8(a + b) =~= encode_utf8(a) + encode_utf8(b));
    }
}

} // verus!
