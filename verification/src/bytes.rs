//! Little-endian byte images of integers, and zero padding.
//!
//! Multi-byte integers use the protocol's native byte order consistently;
//! this codec fixes that order as little-endian.

use vstd::prelude::*;

verus! {

/// 256 to the power `n`: the number of values a field of `n` bytes can hold.
pub open spec fn spec_pow256(n: nat) -> nat
    decreases n,
{
    if n == 0 {
        1
    } else {
        256 * spec_pow256((n - 1) as nat)
    }
}

/// The `n`-byte little-endian image of `v` (truncating).
pub open spec fn spec_le_bytes(v: nat, n: nat) -> Seq<u8>
    decreases n,
{
    if n == 0 {
        Seq::empty()
    } else {
        seq![(v % 256) as u8] + spec_le_bytes(v / 256, (n - 1) as nat)
    }
}

/// The value of a little-endian byte image.
pub open spec fn spec_le_val(b: Seq<u8>) -> nat
    decreases b.len(),
{
    if b.len() == 0 {
        0
    } else {
        (b[0] + 256 * spec_le_val(b.drop_first())) as nat
    }
}

/// `n` zero bytes.
pub open spec fn spec_zeros(n: nat) -> Seq<u8> {
    Seq::new(n, |i: int| 0u8)
}

/// A little-endian image has exactly the requested length.
pub proof fn lemma_le_bytes_len(v: nat, n: nat)
    ensures
        spec_le_bytes(v, n).len() == n,
    decreases n,
{
    if n > 0 {
        lemma_le_bytes_len(v / 256, (n - 1) as nat);
    }
}

/// Reading back the little-endian image of a value below `256^n` yields the
/// value itself.
pub proof fn lemma_le_roundtrip(v: nat, n: nat)
    requires
        v < spec_pow256(n),
    ensures
        spec_le_bytes(v, n).len() == n,
        spec_le_val(spec_le_bytes(v, n)) == v,
    decreases n,
{
    lemma_le_bytes_len(v, n);
    if n > 0 {
        lemma_le_roundtrip(v / 256, (n - 1) as nat);
        let b = spec_le_bytes(v, n);
        assert(b.drop_first() =~= spec_le_bytes(v / 256, (n - 1) as nat));
    }
}

/// The value of a byte image is below `256^n` for its length `n`.
pub proof fn lemma_le_val_bound(b: Seq<u8>)
    ensures
        spec_le_val(b) < spec_pow256(b.len()),
    decreases b.len(),
{
    if b.len() > 0 {
        lemma_le_val_bound(b.drop_first());
    }
}

/// `256^n` for `n >= 8` exceeds every 64-bit value.
pub proof fn lemma_pow256_u64(n: nat)
    requires
        n >= 8,
    ensures
        spec_pow256(n) > u64::MAX,
    decreases n,
{
    if n == 8 {
        assert(spec_pow256(8) == 0x1_0000_0000_0000_0000) by {
            reveal_with_fuel(spec_pow256, 9);
        }
    } else {
        lemma_pow256_u64((n - 1) as nat);
    }
}

/// `256^n` grows with `n`.
pub proof fn lemma_pow256_mono(a: nat, b: nat)
    requires
        a <= b,
    ensures
        spec_pow256(a) <= spec_pow256(b),
        spec_pow256(a) >= 1,
    decreases b,
{
    if a == b {
        lemma_pow256_pos(a);
    } else {
        lemma_pow256_mono(a, (b - 1) as nat);
    }
}

/// `256^n` is positive.
pub proof fn lemma_pow256_pos(n: nat)
    ensures
        spec_pow256(n) >= 1,
    decreases n,
{
    if n > 0 {
        lemma_pow256_pos((n - 1) as nat);
    }
}

/// Whether `v` fits into `n` bytes.
pub fn fits_bytes(v: u64, n: usize) -> (r: bool)
    ensures
        r == ((v as nat) < spec_pow256(n as nat)),
{
    proof {
        reveal_with_fuel(spec_pow256, 9);
    }
    if n >= 8 {
        proof {
            lemma_pow256_u64(n as nat);
        }
        true
    } else if n == 0 {
        v == 0
    } else if n == 1 {
        v < 0x100
    } else if n == 2 {
        v < 0x1_0000
    } else if n == 3 {
        v < 0x100_0000
    } else if n == 4 {
        v < 0x1_0000_0000
    } else if n == 5 {
        v < 0x100_0000_0000
    } else if n == 6 {
        v < 0x1_0000_0000_0000
    } else {
        v < 0x100_0000_0000_0000
    }
}

/// Append the `n`-byte little-endian image of `v`.
pub fn push_le_bytes(buf: &mut Vec<u8>, v: u64, n: usize) -> (r: ())
    ensures
        final(buf)@ == old(buf)@ + spec_le_bytes(v as nat, n as nat),
    decreases n,
{
    if n == 0 {
        proof {
            assert(buf@ =~= buf@ + spec_le_bytes(v as nat, 0nat));
        }
    } else {
        let b: u8 = (v % 256) as u8;
        buf.push(b);
        let ghost mid = buf@;
        push_le_bytes(buf, v / 256, n - 1);
        proof {
            assert(buf@ =~= old(buf)@ + spec_le_bytes(v as nat, n as nat));
        }
    }
}

/// Append `n` zero bytes.
pub fn push_zeros(buf: &mut Vec<u8>, n: usize)
    ensures
        final(buf)@ == old(buf)@ + spec_zeros(n as nat),
    decreases n,
{
    if n == 0 {
        proof {
            assert(buf@ =~= buf@ + spec_zeros(0nat));
        }
    } else {
        buf.push(0u8);
        push_zeros(buf, n - 1);
        proof {
            assert(buf@ =~= old(buf)@ + spec_zeros(n as nat));
        }
    }
}

/// Read the little-endian value of `n` bytes at `pos`.
pub fn read_le(bytes: &Vec<u8>, pos: usize, n: usize) -> (r: u64)
    requires
        pos + n <= bytes@.len(),
        n <= 8,
    ensures
        r as nat == spec_le_val(bytes@.subrange(pos as int, pos + n)),
    decreases n,
{
    if n == 0 {
        proof {
            assert(bytes@.subrange(pos as int, pos as int).len() == 0);
        }
        0
    } else {
        let blen: usize = bytes.len();
        let lo: u64 = bytes[pos] as u64;
        let rest: u64 = read_le(bytes, pos + 1, n - 1);
        proof {
            let whole = bytes@.subrange(pos as int, pos + n);
            assert(whole.drop_first() =~= bytes@.subrange(pos + 1, pos + 1 + (n - 1)));
            assert(whole[0] == bytes@[pos as int]);
            lemma_le_val_bound(whole.drop_first());
            lemma_pow256_mono((n - 1) as nat, 7nat);
            assert(spec_pow256(7nat) == 0x100_0000_0000_0000) by {
                reveal_with_fuel(spec_pow256, 9);
            }
        }
        lo + 256 * rest
    }
}

} // verus!
