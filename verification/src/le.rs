use vstd::prelude::*;

verus! {

/// `256` raised to the power `n`: the number of values `n` bytes can hold.
pub open spec fn pow256(n: nat) -> nat
    decreases n,
{
    if n == 0 {
        1
    } else {
        256 * pow256((n - 1) as nat)
    }
}

/// The unsigned value of a little-endian byte sequence.
pub open spec fn le_decode(s: Seq<u8>) -> nat
    decreases s.len(),
{
    if s.len() == 0 {
        0
    } else {
        s[0] as nat + 256 * le_decode(s.drop_first())
    }
}

/// The `n` little-endian bytes of `v` (taken modulo `pow256(n)`).
pub open spec fn le_encode(v: nat, n: nat) -> Seq<u8>
    decreases n,
{
    if n == 0 {
        Seq::empty()
    } else {
        seq![(v % 256) as u8] + le_encode(v / 256, (n - 1) as nat)
    }
}

pub proof fn lemma_pow256_positive(n: nat)
    ensures
        pow256(n) >= 1,
    decreases n,
{
    if n > 0 {
        lemma_pow256_positive((n - 1) as nat);
    }
}

pub proof fn lemma_pow256_monotone(a: nat, b: nat)
    requires
        a <= b,
    ensures
        pow256(a) <= pow256(b),
    decreases b,
{
    if a < b {
        lemma_pow256_monotone(a, (b - 1) as nat);
        lemma_pow256_positive((b - 1) as nat);
    }
}

pub proof fn lemma_pow256_16()
    ensures
        pow256(16) == 0x1_0000_0000_0000_0000_0000_0000_0000_0000,
{
    reveal_with_fuel(pow256, 17);
}

pub proof fn lemma_le_encode_len(v: nat, n: nat)
    ensures
        le_encode(v, n).len() == n,
    decreases n,
{
    if n > 0 {
        lemma_le_encode_len(v / 256, (n - 1) as nat);
    }
}

/// A little-endian value of `s.len()` bytes is below `pow256(s.len())`.
pub proof fn lemma_le_decode_bound(s: Seq<u8>)
    ensures
        le_decode(s) < pow256(s.len()),
    decreases s.len(),
{
    if s.len() > 0 {
        let t = s.drop_first();
        lemma_le_decode_bound(t);
        let d = le_decode(t);
        let p = pow256(t.len());
        assert(s[0] as nat + 256 * d < 256 * p) by (nonlinear_arith)
            requires
                s[0] < 256,
                d < p,
        ;
    }
}

/// Decoding the encoding of a value that fits gives the value back.
pub proof fn lemma_le_decode_encode(v: nat, n: nat)
    requires
        v < pow256(n),
    ensures
        le_decode(le_encode(v, n)) == v,
    decreases n,
{
    if n > 0 {
        let q = v / 256;
        let p = pow256((n - 1) as nat);
        assert(q < p && v == v % 256 + 256 * q) by (nonlinear_arith)
            requires
                v < 256 * p,
                q == v / 256,
        ;
        lemma_le_decode_encode(q, (n - 1) as nat);
        let e = le_encode(v, n);
        assert(e.drop_first() =~= le_encode(q, (n - 1) as nat));
    }
}

/// Encoding the value of a byte sequence gives the sequence back.
pub proof fn lemma_le_encode_decode(s: Seq<u8>)
    ensures
        le_encode(le_decode(s), s.len()) == s,
    decreases s.len(),
{
    if s.len() > 0 {
        let t = s.drop_first();
        let d = le_decode(t);
        lemma_le_encode_decode(t);
        let v = s[0] as nat + 256 * d;
        assert(v % 256 == s[0] as nat && v / 256 == d) by (nonlinear_arith)
            requires
                v == s[0] as nat + 256 * d,
                s[0] < 256,
        ;
        assert(le_encode(v, s.len()) =~= s);
    }
}

/// The `n` little-endian bytes of `v`.
pub fn encode_le(v: u128, n: usize) -> (out: Vec<u8>)
    requires
        n <= 16,
    ensures
        out@ == le_encode(v as nat, n as nat),
{
    let mut out: Vec<u8> = Vec::new();
    let mut x: u128 = v;
    let mut i: usize = 0;
    while i < n
        invariant
            i <= n,
            out@ + le_encode(x as nat, (n - i) as nat) == le_encode(v as nat, n as nat),
        decreases n - i,
    {
        let ghost old_out = out@;
        let ghost old_x = x as nat;
        let ghost k = (n - i) as nat;
        let b: u8 = (x % 256) as u8;
        out.push(b);
        x = x / 256;
        i = i + 1;
        proof {
            assert(le_encode(old_x, k) == seq![b] + le_encode(x as nat, (k - 1) as nat));
            assert(old_out + (seq![b] + le_encode(x as nat, (k - 1) as nat)) =~= out@ + le_encode(
                x as nat,
                (k - 1) as nat,
            ));
        }
    }
    out
}

/// The unsigned value of at most sixteen little-endian bytes.
pub fn decode_le(s: &[u8]) -> (v: u128)
    requires
        s@.len() <= 16,
    ensures
        v as nat == le_decode(s@),
{
    let n: usize = s.len();
    let mut acc: u128 = 0;
    let mut i: usize = n;
    proof {
        assert(s@.subrange(n as int, n as int) =~= Seq::<u8>::empty());
    }
    while i > 0
        invariant
            i <= n,
            n == s@.len(),
            n <= 16,
            acc as nat == le_decode(s@.subrange(i as int, n as int)),
            acc < pow256((n - i) as nat),
        decreases i,
    {
        i = i - 1;
        let ghost k = (n - i - 1) as nat;
        let ghost p = pow256(k);
        proof {
            lemma_pow256_monotone(k + 1, 16);
            lemma_pow256_16();
            assert(s@.subrange(i as int, n as int).drop_first() =~= s@.subrange(i + 1, n as int));
        }
        let b: u8 = s[i];
        assert(b + 256 * acc < 256 * p) by (nonlinear_arith)
            requires
                b < 256,
                acc < p,
        ;
        acc = b as u128 + 256 * acc;
    }
    assert(s@.subrange(0, n as int) =~= s@);
    acc
}

} // verus!
