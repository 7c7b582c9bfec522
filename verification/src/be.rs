//! Big-endian integer fields, as the JPEG2000 wire format uses them: a value
//! is written most-significant byte first. `be_bytes` and `be_val` are the
//! mathematical encoder and decoder; the executable helpers below are proved
//! against them.

use vstd::prelude::*;

verus! {

/// 256 to the `n`th power: the number of values an `n`-byte field can hold.
pub open spec fn pow256(n: nat) -> nat
    decreases n,
{
    if n == 0 {
        1
    } else {
        256 * pow256((n - 1) as nat)
    }
}

/// The `n`-byte big-endian encoding of `x % pow256(n)`.
pub open spec fn be_bytes(x: nat, n: nat) -> Seq<u8>
    decreases n,
{
    if n == 0 {
        Seq::empty()
    } else {
        be_bytes(x / 256, (n - 1) as nat).push((x % 256) as u8)
    }
}

/// The value a big-endian byte string denotes.
pub open spec fn be_val(s: Seq<u8>) -> nat
    decreases s.len(),
{
    if s.len() == 0 {
        0
    } else {
        (be_val(s.drop_last()) * 256 + s.last()) as nat
    }
}

pub proof fn lemma_pow256_mono(a: nat, b: nat)
    requires
        a <= b,
    ensures
        pow256(a) <= pow256(b),
    decreases b,
{
    if a < b {
        lemma_pow256_mono(a, (b - 1) as nat);
    }
}

pub proof fn lemma_pow256_values()
    ensures
        pow256(1) == 0x100,
        pow256(2) == 0x10000,
        pow256(4) == 0x100000000,
        pow256(8) == 0x10000000000000000,
{
    assert(pow256(0) == 1);
    assert(pow256(1) == 0x100);
    assert(pow256(2) == 0x10000);
    assert(pow256(3) == 0x1000000);
    assert(pow256(4) == 0x100000000);
    assert(pow256(5) == 0x10000000000);
    assert(pow256(6) == 0x1000000000000);
    assert(pow256(7) == 0x100000000000000);
    assert(pow256(8) == 0x10000000000000000);
}

pub proof fn lemma_be_bytes_len(x: nat, n: nat)
    ensures
        be_bytes(x, n).len() == n,
    decreases n,
{
    if n > 0 {
        lemma_be_bytes_len(x / 256, (n - 1) as nat);
    }
}

pub proof fn lemma_be_val_bound(s: Seq<u8>)
    ensures
        be_val(s) < pow256(s.len()),
    decreases s.len(),
{
    if s.len() > 0 {
        lemma_be_val_bound(s.drop_last());
    }
}

/// Appending one byte multiplies the denoted value by 256 and adds the byte.
pub proof fn lemma_be_val_push(s: Seq<u8>, b: u8)
    ensures
        be_val(s.push(b)) == be_val(s) * 256 + b,
{
    assert(s.push(b).drop_last() =~= s);
    assert(s.push(b).last() == b);
}

/// Decoding an `n`-byte encoding of `x` gives `x` back, provided `x` fits.
pub proof fn lemma_be_val_be_bytes(x: nat, n: nat)
    requires
        x < pow256(n),
    ensures
        be_val(be_bytes(x, n)) == x,
    decreases n,
{
    if n > 0 {
        assert(x / 256 < pow256((n - 1) as nat)) by {
            assert(pow256(n) == 256 * pow256((n - 1) as nat));
            assert(x / 256 < pow256((n - 1) as nat)) by (nonlinear_arith)
                requires
                    x < 256 * pow256((n - 1) as nat),
            ;
        }
        lemma_be_val_be_bytes(x / 256, (n - 1) as nat);
        lemma_be_val_push(be_bytes(x / 256, (n - 1) as nat), (x % 256) as u8);
        assert(x == 256 * (x / 256) + x % 256) by (nonlinear_arith);
    }
}

/// Reads the `n`-byte big-endian field at offset `i` of `s`.
pub fn be_read(s: &[u8], i: usize, n: usize) -> (x: u64)
    requires
        n <= 8,
        i + n <= s@.len(),
    ensures
        x as nat == be_val(s@.subrange(i as int, i as int + n as int)),
        (x as nat) < pow256(n as nat),
{
    let slen: usize = s.len();
    let mut x: u64 = 0;
    let mut k: usize = 0;
    proof {
        assert(s@.subrange(i as int, i as int) =~= Seq::<u8>::empty());
    }
    while k < n
        invariant
            n <= 8,
            k <= n,
            i + n <= slen == s@.len(),
            x as nat == be_val(s@.subrange(i as int, i as int + k as int)),
        decreases n - k,
    {
        proof {
            lemma_be_val_bound(s@.subrange(i as int, i as int + k as int));
            lemma_pow256_mono(k as nat, 7);
            lemma_pow256_values();
        }
        let b = s[i + k];
        x = x * 256 + (b as u64);
        proof {
            assert(s@.subrange(i as int, i as int + k as int + 1) =~= s@.subrange(
                i as int,
                i as int + k as int,
            ).push(s@[i as int + k as int]));
            lemma_be_val_push(s@.subrange(i as int, i as int + k as int), s@[i as int + k as int]);
        }
        k = k + 1;
    }
    proof {
        lemma_be_val_bound(s@.subrange(i as int, i as int + n as int));
    }
    x
}

/// Appends the `n`-byte big-endian encoding of `x` to `out`.
pub fn be_push(out: &mut Vec<u8>, x: u64, n: usize)
    ensures
        final(out)@ == old(out)@ + be_bytes(x as nat, n as nat),
    decreases n,
{
    if n == 0 {
        proof {
            assert(out@ =~= old(out)@ + be_bytes(x as nat, 0));
        }
        return ;
    }
    be_push(out, x / 256, n - 1);
    out.push((x % 256) as u8);
    proof {
        assert(out@ =~= old(out)@ + be_bytes(x as nat, n as nat));
    }
}

} // verus!
