//! Little-endian integer encoding of byte sequences.
use vstd::prelude::*;

verus! {

/// The value of a little-endian byte sequence.
pub open spec fn le_value(s: Seq<u8>) -> nat
    decreases s.len(),
{
    if s.len() == 0 {
        0
    } else {
        s[0] as nat + 256 * le_value(s.drop_first())
    }
}

/// The `n`-byte little-endian encoding of `x` (truncated to `n` bytes).
pub open spec fn le_bytes(x: nat, n: nat) -> Seq<u8>
    decreases n,
{
    if n == 0 {
        seq![]
    } else {
        seq![(x % 256) as u8] + le_bytes(x / 256, (n - 1) as nat)
    }
}

/// `256` raised to the power `n`.
pub open spec fn pow256(n: nat) -> nat
    decreases n,
{
    if n == 0 {
        1
    } else {
        256 * pow256((n - 1) as nat)
    }
}

/// The little-endian value of the `n` bytes of `s` starting at `at`.
pub open spec fn le_at(s: Seq<u8>, at: int, n: int) -> nat {
    le_value(s.subrange(at, at + n))
}

pub proof fn lemma_pow256_values()
    ensures
        pow256(0) == 1,
        pow256(1) == 0x100,
        pow256(2) == 0x1_0000,
        pow256(3) == 0x100_0000,
        pow256(4) == 0x1_0000_0000,
        pow256(5) == 0x100_0000_0000,
        pow256(6) == 0x1_0000_0000_0000,
        pow256(7) == 0x100_0000_0000_0000,
        pow256(8) == 0x1_0000_0000_0000_0000,
{
    reveal_with_fuel(pow256, 9);
}

pub proof fn lemma_le_bytes_len(x: nat, n: nat)
    ensures
        le_bytes(x, n).len() == n,
    decreases n,
{
    if n > 0 {
        lemma_le_bytes_len(x / 256, (n - 1) as nat);
    }
}

pub proof fn lemma_le_value_bound(s: Seq<u8>)
    ensures
        le_value(s) < pow256(s.len()),
    decreases s.len(),
{
    if s.len() > 0 {
        lemma_le_value_bound(s.drop_first());
        let r = le_value(s.drop_first());
        let p = pow256((s.len() - 1) as nat);
        assert(s[0] as nat + 256 * r < 256 * p) by (nonlinear_arith)
            requires
                r < p,
                s[0] < 256,
        ;
    }
}

/// Encoding then decoding gives back every value that fits in `n` bytes.
pub proof fn lemma_le_value_of_bytes(x: nat, n: nat)
    requires
        x < pow256(n),
    ensures
        le_value(le_bytes(x, n)) == x,
    decreases n,
{
    if n > 0 {
        let p = pow256((n - 1) as nat);
        assert(x / 256 < p) by (nonlinear_arith)
            requires
                x < 256 * p,
        ;
        lemma_le_value_of_bytes(x / 256, (n - 1) as nat);
        let b = le_bytes(x, n);
        assert(b.drop_first() =~= le_bytes(x / 256, (n - 1) as nat));
        assert(x == x % 256 + 256 * (x / 256));
    }
}

/// Decoding then encoding gives back the same bytes.
pub proof fn lemma_le_bytes_of_value(s: Seq<u8>)
    ensures
        le_bytes(le_value(s), s.len()) == s,
    decreases s.len(),
{
    if s.len() > 0 {
        let r = le_value(s.drop_first());
        let v = s[0] as nat + 256 * r;
        assert(v % 256 == s[0] as nat) by (nonlinear_arith)
            requires
                v == s[0] as nat + 256 * r,
                s[0] < 256,
        ;
        assert(v / 256 == r) by (nonlinear_arith)
            requires
                v == s[0] as nat + 256 * r,
                s[0] < 256,
        ;
        lemma_le_bytes_of_value(s.drop_first());
        assert(le_bytes(v, s.len()) =~= s);
    }
}

/// Reads the little-endian value of `n <= 8` bytes at `at`.
pub fn read_le(data: &[u8], at: usize, n: usize) -> (r: u64)
    requires
        n <= 8,
        at + n <= data@.len(),
    ensures
        r as nat == le_at(data@, at as int, n as int),
{
    let mut v: u64 = 0;
    let mut i: usize = n;
    let len = data.len();
    proof {
        lemma_pow256_values();
    }
    while i > 0
        invariant
            n <= 8,
            len == data@.len(),
            at + n <= data@.len(),
            i <= n,
            v as nat == le_value(data@.subrange(at + i, at + n)),
            v < pow256((n - i) as nat),
            pow256(8) == 0x1_0000_0000_0000_0000,
        decreases i,
    {
        i = i - 1;
        let b = data[at + i];
        let ghost s = data@.subrange(at + i, at + n);
        assert(s.drop_first() =~= data@.subrange(at + i + 1, at + n));
        assert(pow256((n - i) as nat) == 256 * pow256((n - i - 1) as nat));
        proof {
            lemma_pow256_mono((n - i) as nat, 8);
        }
        assert(v * 256 + b < 256 * pow256((n - i - 1) as nat)) by (nonlinear_arith)
            requires
                v < pow256((n - i - 1) as nat),
                b < 256,
        ;
        v = v * 256 + b as u64;
    }
    v
}

pub proof fn lemma_pow256_mono(a: nat, b: nat)
    requires
        a <= b,
    ensures
        pow256(a) <= pow256(b),
    decreases b,
{
    if a < b {
        lemma_pow256_mono(a, (b - 1) as nat);
    }
}

/// Reads a little-endian `u16` at `at`.
pub fn read_u16_le(data: &[u8], at: usize) -> (r: u16)
    requires
        at + 2 <= data@.len(),
    ensures
        r as nat == le_at(data@, at as int, 2),
{
    let v = read_le(data, at, 2);
    proof {
        lemma_le_value_bound(data@.subrange(at as int, at + 2));
        lemma_pow256_values();
    }
    v as u16
}

/// Reads a little-endian `u32` at `at`.
pub fn read_u32_le(data: &[u8], at: usize) -> (r: u32)
    requires
        at + 4 <= data@.len(),
    ensures
        r as nat == le_at(data@, at as int, 4),
{
    let v = read_le(data, at, 4);
    proof {
        lemma_le_value_bound(data@.subrange(at as int, at + 4));
        lemma_pow256_values();
    }
    v as u32
}

/// Reads a little-endian `u64` at `at`.
pub fn read_u64_le(data: &[u8], at: usize) -> (r: u64)
    requires
        at + 8 <= data@.len(),
    ensures
        r as nat == le_at(data@, at as int, 8),
{
    read_le(data, at, 8)
}

/// Appends the `n`-byte little-endian encoding of `x`.
pub fn push_le(buf: &mut Vec<u8>, x: u64, n: usize)
    requires
        n <= 8,
    ensures
        final(buf)@ == old(buf)@ + le_bytes(x as nat, n as nat),
{
    let mut v = x;
    let mut i: usize = 0;
    let ghost start = buf@;
    proof {
        lemma_pow256_values();
    }
    while i < n
        invariant
            i <= n,
            start == old(buf)@,
            v as nat == x as nat / pow256(i as nat),
            buf@ + le_bytes(v as nat, (n - i) as nat) == start + le_bytes(x as nat, n as nat),
        decreases n - i,
    {
        let ghost before = buf@;
        buf.push((v % 256) as u8);
        proof {
            let rest = le_bytes(v as nat / 256, (n - i - 1) as nat);
            assert(le_bytes(v as nat, (n - i) as nat) == seq![(v as nat % 256) as u8] + rest);
            assert(buf@ + rest =~= before + le_bytes(v as nat, (n - i) as nat));
            lemma_pow256_pos(i as nat);
            lemma_div_div(x as nat, pow256(i as nat));
        }
        v = v / 256;
        i = i + 1;
    }
    assert(le_bytes(v as nat, 0) =~= seq![]);
    assert(buf@ =~= buf@ + le_bytes(v as nat, 0));
}

pub proof fn lemma_pow256_pos(n: nat)
    ensures
        pow256(n) > 0,
    decreases n,
{
    if n > 0 {
        lemma_pow256_pos((n - 1) as nat);
    }
}

proof fn lemma_div_div(x: nat, p: nat)
    requires
        p > 0,
    ensures
        x / p / 256 == x / (256 * p),
{
    vstd::arithmetic::div_mod::lemma_div_denominator(x as int, p as int, 256);
    assert(p * 256 == 256 * p) by (nonlinear_arith);
}

} // verus!
