//! Big-endian integer encoding over byte sequences.

use vstd::prelude::*;

verus! {

/// `256` raised to `n`.
pub open spec fn pow256(n: nat) -> nat
    decreases n,
{
    if n == 0 { 1 } else { 256 * pow256((n - 1) as nat) }
}

/// The `n` low-order bytes of `x`, most significant first.
pub open spec fn be_bytes(x: nat, n: nat) -> Seq<u8>
    decreases n,
{
    if n == 0 {
        seq![]
    } else {
        be_bytes(x / 256, (n - 1) as nat).push((x % 256) as u8)
    }
}

/// The number whose big-endian encoding is `s`.
pub open spec fn be_value(s: Seq<u8>) -> nat
    decreases s.len(),
{
    if s.len() == 0 {
        0
    } else {
        be_value(s.drop_last()) * 256 + s.last() as nat
    }
}

pub proof fn lemma_pow256_pos(n: nat)
    ensures
        pow256(n) >= 1,
    decreases n,
{
    if n > 0 {
        lemma_pow256_pos((n - 1) as nat);
    }
}

pub proof fn lemma_be_bytes_len(x: nat, n: nat)
    ensures
        be_bytes(x, n).len() == n,
    decreases n,
{
    if n > 0 {
        lemma_be_bytes_len(x / 256, (n - 1) as nat);
    }
}

/// Decoding an encoding gives the number back when it fits in `n` bytes.
pub proof fn lemma_be_value_of_bytes(x: nat, n: nat)
    requires
        x < pow256(n),
    ensures
        be_value(be_bytes(x, n)) == x,
    decreases n,
{
    if n == 0 {
    } else {
        let q = x / 256;
        assert(q < pow256((n - 1) as nat)) by (nonlinear_arith)
            requires
                x < 256 * pow256((n - 1) as nat),
                q == x / 256,
        ;
        lemma_be_value_of_bytes(q, (n - 1) as nat);
        let s = be_bytes(x, n);
        assert(s.drop_last() =~= be_bytes(q, (n - 1) as nat));
        assert(x == q * 256 + x % 256);
    }
}

/// The value of `n` bytes is below `256^n`.
pub proof fn lemma_be_value_bound(s: Seq<u8>)
    ensures
        be_value(s) < pow256(s.len()),
    decreases s.len(),
{
    if s.len() > 0 {
        lemma_be_value_bound(s.drop_last());
        let v = be_value(s.drop_last());
        let p = pow256((s.len() - 1) as nat);
        assert(v * 256 + s.last() < 256 * p) by (nonlinear_arith)
            requires
                v < p,
                s.last() < 256,
        ;
    }
}

/// Encoding a decoded value gives the bytes back.
pub proof fn lemma_be_bytes_of_value(s: Seq<u8>)
    ensures
        be_bytes(be_value(s), s.len()) == s,
    decreases s.len(),
{
    if s.len() > 0 {
        let v = be_value(s);
        let w = be_value(s.drop_last());
        assert(v / 256 == w && v % 256 == s.last()) by (nonlinear_arith)
            requires
                v == w * 256 + s.last() as nat,
                s.last() < 256,
        ;
        lemma_be_bytes_of_value(s.drop_last());
        assert(be_bytes(v, s.len()) =~= s);
    }
}

pub proof fn lemma_pow256_16()
    ensures
        pow256(16) == 0x1_0000_0000_0000_0000_0000_0000_0000_0000,
        pow256(4) == 0x1_0000_0000,
        pow256(2) == 0x1_0000,
{
    reveal_with_fuel(pow256, 17);
}

/// Append the `n` low-order bytes of `x` to `out`, most significant first.
pub fn push_be(out: &mut Vec<u8>, x: u128, n: usize)
    ensures
        final(out)@ == old(out)@ + be_bytes(x as nat, n as nat),
    decreases n,
{
    if n == 0 {
        assert(be_bytes(x as nat, 0) =~= seq![]);
    } else {
        push_be(out, x / 256, n - 1);
        out.push((x % 256) as u8);
        assert(out@ =~= old(out)@ + be_bytes(x as nat, n as nat));
    }
}

/// The big-endian value of `buf[start..start + n]` (at most 16 bytes).
pub fn read_be(buf: &[u8], start: usize, n: usize) -> (r: u128)
    requires
        n <= 16,
        start + n <= buf@.len(),
    ensures
        r as nat == be_value(buf@.subrange(start as int, start + n)),
{
    let mut acc: u128 = 0;
    let mut i: usize = 0;
    proof {
        lemma_pow256_16();
    }
    while i < n
        invariant
            n <= 16,
            start + n <= buf@.len(),
            i <= n,
            acc as nat == be_value(buf@.subrange(start as int, start + i)),
            pow256(16) == 0x1_0000_0000_0000_0000_0000_0000_0000_0000,
        decreases n - i,
    {
        let ghost prefix = buf@.subrange(start as int, start + i);
        let ghost next = buf@.subrange(start as int, start + i + 1);
        proof {
            assert(next.drop_last() =~= prefix);
            lemma_be_value_bound(prefix);
            lemma_pow256_le(i as nat, 15);
            let a = acc as nat;
            let p = pow256(i as nat);
            assert(a * 256 + 255 < 0x1_0000_0000_0000_0000_0000_0000_0000_0000) by (nonlinear_arith)
                requires
                    a < p,
                    p <= pow256(15),
                    pow256(16) == 256 * pow256(15),
                    pow256(16) == 0x1_0000_0000_0000_0000_0000_0000_0000_0000,
            ;
        }
        assert(start + i < buf.len());
        acc = acc * 256 + buf[start + i] as u128;
        i = i + 1;
    }
    acc
}

pub proof fn lemma_pow256_le(a: nat, b: nat)
    requires
        a <= b,
    ensures
        pow256(a) <= pow256(b),
    decreases b,
{
    if a < b {
        lemma_pow256_le(a, (b - 1) as nat);
        lemma_pow256_pos((b - 1) as nat);
    }
}

} // verus!
