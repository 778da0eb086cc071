//! Little-endian encodings of fixed-width integers, and the conversions
//! between signed values and their unsigned bit patterns.

use vstd::prelude::*;

verus! {

/// `256^n`.
pub open spec fn pow256(n: nat) -> nat
    decreases n,
{
    if n == 0 {
        1
    } else {
        256 * pow256((n - 1) as nat)
    }
}

/// The `n` little-endian bytes of `v` (the value taken modulo `256^n`).
pub open spec fn le_bytes(v: nat, n: nat) -> Seq<u8>
    decreases n,
{
    if n == 0 {
        Seq::empty()
    } else {
        seq![(v % 256) as u8] + le_bytes(v / 256, (n - 1) as nat)
    }
}

/// The value of a little-endian byte string.
pub open spec fn le_val(b: Seq<u8>) -> nat
    decreases b.len(),
{
    if b.len() == 0 {
        0
    } else {
        (b[0] + 256 * le_val(b.skip(1))) as nat
    }
}

pub proof fn lemma_pow256_pos(n: nat)
    ensures
        pow256(n) >= 1,
    decreases n,
{
    if n > 0 {
        lemma_pow256_pos((n - 1) as nat);
    }
}

pub proof fn lemma_le_bytes_len(v: nat, n: nat)
    ensures
        le_bytes(v, n).len() == n,
    decreases n,
{
    if n > 0 {
        lemma_le_bytes_len(v / 256, (n - 1) as nat);
    }
}

/// Decoding the little-endian bytes of `v` gives `v` back.
pub proof fn lemma_le_val_of_le_bytes(v: nat, n: nat)
    requires
        v < pow256(n),
    ensures
        le_val(le_bytes(v, n)) == v,
    decreases n,
{
    if n > 0 {
        let q = v / 256;
        vstd::arithmetic::div_mod::lemma_fundamental_div_mod(v as int, 256);
        assert(q < pow256((n - 1) as nat)) by (nonlinear_arith)
            requires
                v < 256 * pow256((n - 1) as nat),
                q == v / 256,
        ;
        lemma_le_val_of_le_bytes(q, (n - 1) as nat);
        let b = le_bytes(v, n);
        assert(b.skip(1) =~= le_bytes(q, (n - 1) as nat));
    }
}

/// The value of a byte string is below `256^len`.
pub proof fn lemma_le_val_bound(b: Seq<u8>)
    ensures
        le_val(b) < pow256(b.len()),
    decreases b.len(),
{
    if b.len() > 0 {
        lemma_le_val_bound(b.skip(1));
        assert(b[0] + 256 * le_val(b.skip(1)) < 256 * pow256((b.len() - 1) as nat))
            by (nonlinear_arith)
            requires
                b[0] < 256,
                le_val(b.skip(1)) < pow256((b.len() - 1) as nat),
        ;
    }
}

/// Encoding the value of an `n`-byte string gives the string back.
pub proof fn lemma_le_bytes_of_le_val(b: Seq<u8>)
    ensures
        le_bytes(le_val(b), b.len()) =~= b,
    decreases b.len(),
{
    if b.len() > 0 {
        let t = b.skip(1);
        lemma_le_bytes_of_le_val(t);
        let v = le_val(b);
        assert(v == b[0] + 256 * le_val(t));
        assert(v % 256 == b[0] && v / 256 == le_val(t)) by (nonlinear_arith)
            requires
                v == b[0] + 256 * le_val(t),
                0 <= b[0] < 256,
                le_val(t) >= 0,
        ;
        assert(le_bytes(v, b.len()) =~= seq![b[0]] + le_bytes(le_val(t), t.len()));
        assert(le_bytes(v, b.len()) =~= b);
    }
}

/// Unfolding step for `le_val` on a nonempty string.
pub proof fn lemma_le_val_step(b: Seq<u8>)
    requires
        b.len() > 0,
    ensures
        le_val(b) == b[0] + 256 * le_val(b.skip(1)),
{
}

/// The unsigned bit pattern of a signed 8-bit value.
pub open spec fn bits_of_i8(v: i8) -> nat {
    if v >= 0 {
        v as nat
    } else {
        (v + 0x100) as nat
    }
}

pub open spec fn bits_of_i16(v: i16) -> nat {
    if v >= 0 {
        v as nat
    } else {
        (v + 0x10000) as nat
    }
}

pub open spec fn bits_of_i32(v: i32) -> nat {
    if v >= 0 {
        v as nat
    } else {
        (v + 0x100000000) as nat
    }
}

pub open spec fn bits_of_i64(v: i64) -> nat {
    if v >= 0 {
        v as nat
    } else {
        (v + 0x10000000000000000) as nat
    }
}

/// The signed 8-bit value with a given bit pattern.
pub open spec fn i8_of_bits(u: nat) -> i8
    recommends
        u < 0x100,
{
    if u < 0x80 {
        u as i8
    } else {
        (u - 0x100) as i8
    }
}

pub open spec fn i16_of_bits(u: nat) -> i16
    recommends
        u < 0x10000,
{
    if u < 0x8000 {
        u as i16
    } else {
        (u - 0x10000) as i16
    }
}

pub open spec fn i32_of_bits(u: nat) -> i32
    recommends
        u < 0x100000000,
{
    if u < 0x80000000 {
        u as i32
    } else {
        (u - 0x100000000) as i32
    }
}

pub open spec fn i64_of_bits(u: nat) -> i64
    recommends
        u < 0x10000000000000000,
{
    if u < 0x8000000000000000 {
        u as i64
    } else {
        (u - 0x10000000000000000) as i64
    }
}

/// Reads `n <= 8` little-endian bytes starting at `pos`; the value of
/// `b[pos .. pos + n]`.
pub fn read_le(b: &Vec<u8>, pos: usize, n: usize) -> (r: u64)
    requires
        n <= 8,
        pos + n <= b@.len(),
    ensures
        r as nat == le_val(b@.subrange(pos as int, pos + n)),
{
    let mut acc: u64 = 0;
    let mut j: usize = n;
    let blen = b.len();
    proof {
        assert(b@.subrange(pos + n, pos + n) =~= Seq::<u8>::empty());
    }
    while j > 0
        invariant
            j <= n <= 8,
            pos + n <= b@.len(),
            b@.len() == blen,
            acc as nat == le_val(b@.subrange(pos + j, pos + n)),
            acc < pow256((n - j) as nat),
        decreases j,
    {
        let ghost prev = b@.subrange(pos + j, pos + n);
        j = j - 1;
        let ghost cur = b@.subrange(pos + j, pos + n);
        proof {
            assert(cur.len() > 0);
            assert(cur.skip(1) =~= prev);
            lemma_le_val_step(cur);
            lemma_pow256_pos((n - j - 1) as nat);
            assert(cur[0] + 256 * le_val(prev) < 256 * pow256((n - j - 1) as nat))
                by (nonlinear_arith)
                requires
                    cur[0] < 256,
                    le_val(prev) < pow256((n - j - 1) as nat),
            ;
            assert(256 * pow256((n - j - 1) as nat) == pow256((n - j) as nat));
            assert(pow256(8nat) == 0x10000000000000000) by {
                reveal_with_fuel(pow256, 9);
            }
            assert(pow256((n - j) as nat) <= pow256(8nat)) by {
                lemma_pow256_mono((n - j) as nat, 8nat);
            }
        }
        acc = acc * 256 + (b[pos + j] as u64);
    }
    proof {
        assert(b@.subrange(pos as int, pos + n) =~= b@.subrange(pos + 0, pos + n));
    }
    acc
}

pub proof fn lemma_pow256_mono(m: nat, n: nat)
    requires
        m <= n,
    ensures
        pow256(m) <= pow256(n),
    decreases n,
{
    if m < n {
        lemma_pow256_mono(m, (n - 1) as nat);
        lemma_pow256_pos((n - 1) as nat);
    }
}

/// Appends the `n <= 8` little-endian bytes of `v` to `out`.
pub fn write_le(out: &mut Vec<u8>, v: u64, n: usize)
    requires
        n <= 8,
    ensures
        final(out)@ =~= old(out)@ + le_bytes(v as nat, n as nat),
{
    let mut cur: u64 = v;
    let mut i: usize = 0;
    proof {
        lemma_le_bytes_len(v as nat, n as nat);
        assert(le_bytes(v as nat, n as nat).take(0) =~= Seq::<u8>::empty());
    }
    while i < n
        invariant
            i <= n <= 8,
            cur as nat == div_pow256(v as nat, i as nat),
            out@ =~= old(out)@ + le_bytes(v as nat, n as nat).take(i as int),
        decreases n - i,
    {
        proof {
            lemma_le_bytes_len(v as nat, n as nat);
            lemma_le_bytes_index(v as nat, n as nat, i as nat);
            lemma_div_pow256_step(v as nat, i as nat);
        }
        out.push((cur % 256) as u8);
        cur = cur / 256;
        i = i + 1;
        proof {
            assert(out@ =~= old(out)@ + le_bytes(v as nat, n as nat).take(i as int));
        }
    }
    proof {
        lemma_le_bytes_len(v as nat, n as nat);
        assert(le_bytes(v as nat, n as nat).take(n as int) =~= le_bytes(v as nat, n as nat));
    }
}

/// `v / 256^i`.
pub open spec fn div_pow256(v: nat, i: nat) -> nat
    decreases i,
{
    if i == 0 {
        v
    } else {
        div_pow256(v / 256, (i - 1) as nat)
    }
}

/// Dividing once more steps the iterated quotient.
pub proof fn lemma_div_pow256_step(v: nat, i: nat)
    ensures
        div_pow256(v, i + 1) == div_pow256(v, i) / 256,
    decreases i,
{
    reveal_with_fuel(div_pow256, 3);
    if i > 0 {
        lemma_div_pow256_step(v / 256, (i - 1) as nat);
    }
}

/// Byte `i` of the little-endian encoding is the low byte of `v / 256^i`,
/// and dividing once more steps the remaining value.
pub proof fn lemma_le_bytes_index(v: nat, n: nat, i: nat)
    requires
        i < n,
    ensures
        le_bytes(v, n)[i as int] == (div_pow256(v, i) % 256) as u8,
    decreases i,
{
    lemma_le_bytes_len(v, n);
    if i > 0 {
        lemma_le_bytes_index(v / 256, (n - 1) as nat, (i - 1) as nat);
        lemma_le_bytes_len(v / 256, (n - 1) as nat);
        assert(le_bytes(v, n)[i as int] == le_bytes(v / 256, (n - 1) as nat)[i - 1]);
    }
}

} // verus!
