//! Numbers as little-endian bytes.

use vstd::prelude::*;

verus! {

/// The lowest `width` bytes of `n`, the lowest first.
pub open spec fn little_endian(n: nat, width: nat) -> Seq<u8>
    decreases width,
{
    if width == 0 {
        seq![]
    } else {
        seq![(n % 256) as u8] + little_endian(n / 256, (width - 1) as nat)
    }
}

/// The number whose bytes are `b`, the lowest first.
pub open spec fn number(b: Seq<u8>) -> nat
    decreases b.len(),
{
    if b.len() == 0 {
        0
    } else {
        b[0] as nat + 256 * number(b.skip(1))
    }
}

/// `256` to the power of `width`.
pub open spec fn power(width: nat) -> nat
    decreases width,
{
    if width == 0 {
        1
    } else {
        256 * power((width - 1) as nat)
    }
}

/// So many bytes are so many bytes.
pub proof fn lemma_little_endian_len(n: nat, width: nat)
    ensures
        little_endian(n, width).len() == width,
    decreases width,
{
    if width > 0 {
        lemma_little_endian_len(n / 256, (width - 1) as nat);
    }
}

/// A number that fits is read back from its bytes.
pub proof fn law_bytes_round_trip(n: nat, width: nat)
    requires
        n < power(width),
    ensures
        number(little_endian(n, width)) == n,
    decreases width,
{
    if width > 0 {
        let w = (width - 1) as nat;
        assert(n / 256 < power(w));
        law_bytes_round_trip(n / 256, w);
        let b = little_endian(n, width);
        assert(b.skip(1) =~= little_endian(n / 256, w));
        assert(b[0] == (n % 256) as u8);
    }
}

/// The bytes of a number that was read from bytes are those bytes.
pub proof fn law_number_round_trip(b: Seq<u8>)
    ensures
        little_endian(number(b), b.len()) == b,
        number(b) < power(b.len()),
    decreases b.len(),
{
    if b.len() > 0 {
        law_number_round_trip(b.skip(1));
        let n = number(b);
        assert(n % 256 == b[0]);
        assert(n / 256 == number(b.skip(1)));
        assert(seq![b[0]] + b.skip(1) =~= b);
    }
}

/// The powers that numbers of the usual widths stay below.
pub proof fn lemma_powers()
    ensures
        power(4) == 0x1_0000_0000,
        power(8) == 0x1_0000_0000_0000_0000,
{
    reveal_with_fuel(power, 9);
}

/// Appends the lowest `width` bytes of `n`.
pub fn push_little_endian(out: &mut Vec<u8>, n: u64, width: usize)
    ensures
        final(out)@ == old(out)@ + little_endian(n as nat, width as nat),
{
    let ghost before = out@;
    let mut rest: u64 = n;
    let mut k: usize = 0;
    while k < width
        invariant
            k <= width,
            out@ + little_endian(rest as nat, (width - k) as nat) =~= before + little_endian(
                n as nat,
                width as nat,
            ),
        decreases width - k,
    {
        out.push((rest % 256) as u8);
        rest = rest / 256;
        k += 1;
    }
}

/// The number whose `width` bytes stand at `pos`.
pub fn number_at(buf: &[u8], pos: usize, width: usize) -> (r: u64)
    requires
        pos + width <= buf@.len(),
        width <= 8,
    ensures
        r == number(buf@.subrange(pos as int, pos + width)),
{
    let mut r: u64 = 0;
    let mut k: usize = width;
    proof {
        lemma_powers();
    }
    assert(buf@.subrange(pos + k, pos + width) =~= seq![]);
    while k > 0
        invariant
            k <= width <= 8,
            pos + width <= buf@.len(),
            r == number(buf@.subrange(pos + k, pos + width)),
        decreases k,
    {
        k -= 1;
        let ghost s = buf@.subrange(pos + k, pos + width);
        proof {
            assert(s.skip(1) =~= buf@.subrange(pos + k + 1, pos + width));
            assert(s[0] == buf@[pos + k]);
            law_number_round_trip(s);
            lemma_power_bound(s.len());
        }
        assert(pos + k < buf.len());
        r = buf[pos + k] as u64 + 256 * r;
    }
    r
}

proof fn lemma_power_bound(width: nat)
    requires
        width <= 8,
    ensures
        power(width) <= 0x1_0000_0000_0000_0000,
{
    reveal_with_fuel(power, 9);
}

/// The lowest byte comes first: each byte is worth 256 times the one before it.
pub proof fn law_lowest_byte_first(n: nat, width: nat, rest: Seq<u8>, b: u8)
    ensures
        width > 0 ==> little_endian(n, width).len() == width && little_endian(n, width)[0] == n % 256
            && little_endian(n, width).skip(1) == little_endian(n / 256, (width - 1) as nat),
        number(seq![b] + rest) == b + 256 * number(rest),
        number(seq![]) == 0,
    decreases width,
{
    if width > 0 {
        law_lowest_byte_first(n / 256, (width - 1) as nat, rest, b);
        assert(little_endian(n, width).skip(1) =~= little_endian(n / 256, (width - 1) as nat));
        if width == 1 {
            assert(little_endian(n / 256, 0) =~= seq![]);
        }
    }
    assert((seq![b] + rest).skip(1) =~= rest);
}

} // verus!
