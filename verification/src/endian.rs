//! Fixed-width integers as byte sequences in either byte order.
//!
//! The wire header byte 0 selects the byte order of every integer field of a
//! frame: 0 means big-endian, anything else little-endian.  [`uint_bytes`]
//! and [`uint_value`] are the specification of that encoding, and
//! [`write_uint`] / [`read_uint`] the executable forms, proved against them.

use vstd::prelude::*;
use vstd::seq_lib::*;

verus! {

/// 256 to the power `n`.
pub open spec fn pow256(n: nat) -> nat
    decreases n,
{
    if n == 0 {
        1
    } else {
        256 * pow256((n - 1) as nat)
    }
}

/// The `n` little-endian bytes of `x` (least significant first).
pub open spec fn le_bytes(x: nat, n: nat) -> Seq<u8>
    decreases n,
{
    if n == 0 {
        Seq::empty()
    } else {
        seq![(x % 256) as u8] + le_bytes(x / 256, (n - 1) as nat)
    }
}

/// The value of a little-endian byte sequence.
pub open spec fn le_value(s: Seq<u8>) -> nat
    decreases s.len(),
{
    if s.len() == 0 {
        0
    } else {
        (s[0] + 256 * le_value(s.skip(1))) as nat
    }
}

/// The `n` bytes of `x` in the byte order selected by `e` (0: big-endian).
pub open spec fn uint_bytes(x: nat, n: nat, e: u8) -> Seq<u8> {
    if e == 0 {
        le_bytes(x, n).reverse()
    } else {
        le_bytes(x, n)
    }
}

/// The value of a byte sequence in the byte order selected by `e`.
pub open spec fn uint_value(s: Seq<u8>, e: u8) -> nat {
    if e == 0 {
        le_value(s.reverse())
    } else {
        le_value(s)
    }
}

pub proof fn lemma_le_bytes_len(x: nat, n: nat)
    ensures
        le_bytes(x, n).len() == n,
    decreases n,
{
    if n > 0 {
        lemma_le_bytes_len(x / 256, (n - 1) as nat);
    }
}

pub proof fn lemma_uint_bytes_len(x: nat, n: nat, e: u8)
    ensures
        uint_bytes(x, n, e).len() == n,
{
    lemma_le_bytes_len(x, n);
}

pub proof fn lemma_pow256_pos(n: nat)
    ensures
        pow256(n) >= 1,
    decreases n,
{
    if n > 0 {
        lemma_pow256_pos((n - 1) as nat);
    }
}

pub proof fn lemma_pow256_monotone(m: nat, n: nat)
    requires
        m <= n,
    ensures
        pow256(m) <= pow256(n),
    decreases n,
{
    if m < n && n > 0 {
        lemma_pow256_monotone(m, (n - 1) as nat);
    }
}

pub proof fn lemma_pow256_8()
    ensures
        pow256(2) == 0x10000,
        pow256(4) == 0x100000000,
        pow256(8) == 0x10000000000000000,
{
    assert(pow256(0) == 1);
    assert(pow256(1) == 256);
    assert(pow256(2) == 0x10000);
    assert(pow256(3) == 0x1000000);
    assert(pow256(4) == 0x100000000);
    assert(pow256(5) == 0x10000000000);
    assert(pow256(6) == 0x1000000000000);
    assert(pow256(7) == 0x100000000000000);
    assert(pow256(8) == 0x10000000000000000);
}

/// Reading back the bytes of a value below `256^n` yields the value.
pub proof fn lemma_le_value_of_bytes(x: nat, n: nat)
    requires
        x < pow256(n),
    ensures
        le_value(le_bytes(x, n)) == x,
    decreases n,
{
    if n > 0 {
        assert(x / 256 < pow256((n - 1) as nat)) by {
            assert(pow256(n) == 256 * pow256((n - 1) as nat));
        };
        lemma_le_value_of_bytes(x / 256, (n - 1) as nat);
        lemma_le_bytes_len(x / 256, (n - 1) as nat);
        let s = le_bytes(x, n);
        assert(s.skip(1) =~= le_bytes(x / 256, (n - 1) as nat));
        assert(le_value(s) == (x % 256) + 256 * (x / 256));
    }
}

/// The value of `n` bytes is below `256^n`, and re-serializing it yields the
/// same bytes.
pub proof fn lemma_le_bytes_of_value(s: Seq<u8>)
    ensures
        le_value(s) < pow256(s.len()),
        le_bytes(le_value(s), s.len()) =~= s,
    decreases s.len(),
{
    if s.len() > 0 {
        lemma_le_bytes_of_value(s.skip(1));
        let v = le_value(s);
        assert(v == s[0] + 256 * le_value(s.skip(1)));
        assert(v % 256 == s[0] && v / 256 == le_value(s.skip(1))) by {
            assert(s[0] < 256);
        };
        assert(pow256(s.len()) == 256 * pow256((s.len() - 1) as nat));
        assert(le_bytes(v, s.len()) =~= seq![(v % 256) as u8] + le_bytes(
            v / 256,
            (s.len() - 1) as nat,
        ));
    }
}

pub proof fn lemma_uint_value_of_bytes(x: nat, n: nat, e: u8)
    requires
        x < pow256(n),
    ensures
        uint_value(uint_bytes(x, n, e), e) == x,
{
    lemma_le_value_of_bytes(x, n);
    lemma_le_bytes_len(x, n);
    if e == 0 {
        assert(le_bytes(x, n).reverse().reverse() =~= le_bytes(x, n));
    }
}

pub proof fn lemma_uint_bytes_of_value(s: Seq<u8>, e: u8)
    ensures
        uint_value(s, e) < pow256(s.len()),
        uint_bytes(uint_value(s, e), s.len(), e) =~= s,
{
    if e == 0 {
        lemma_le_bytes_of_value(s.reverse());
        assert(le_bytes(le_value(s.reverse()), s.len()).reverse() =~= s.reverse().reverse());
        assert(s.reverse().reverse() =~= s);
    } else {
        lemma_le_bytes_of_value(s);
    }
}

/// `le_bytes` grows by one byte at a time: the byte at position `k` is
/// `(x / 256^k) % 256`.
pub proof fn lemma_le_bytes_snoc(x: nat, k: nat)
    ensures
        le_bytes(x, k + 1) =~= le_bytes(x, k).push(((x / pow256(k)) % 256) as u8),
    decreases k,
{
    if k == 0 {
        assert(le_bytes(x / 256, 0) =~= Seq::<u8>::empty());
        vstd::arithmetic::div_mod::lemma_div_basics(x as int);
        assert(le_bytes(x, 1) =~= seq![(x % 256) as u8]);
    } else {
        lemma_le_bytes_snoc(x / 256, (k - 1) as nat);
        lemma_le_bytes_len(x / 256, (k - 1) as nat);
        assert(x / 256 / pow256((k - 1) as nat) == x / pow256(k)) by {
            assert(pow256(k) == 256 * pow256((k - 1) as nat));
            lemma_pow256_pos((k - 1) as nat);
            vstd::arithmetic::div_mod::lemma_div_denominator(
                x as int,
                256,
                pow256((k - 1) as nat) as int,
            );
        };
        assert(le_bytes(x, k + 1) =~= seq![(x % 256) as u8] + le_bytes(x / 256, k));
        assert(le_bytes(x, k) =~= seq![(x % 256) as u8] + le_bytes(x / 256, (k - 1) as nat));
    }
}

/// Append the `n`-byte representation of `x` (in the byte order selected by
/// `e`) to `dst`.
pub fn write_uint(dst: &mut Vec<u8>, x: u64, n: usize, e: u8)
    requires
        n <= 8,
        (x as nat) < pow256(n as nat),
    ensures
        final(dst)@ == old(dst)@ + uint_bytes(x as nat, n as nat, e),
{
    let ghost base = dst@;
    let mut tmp: Vec<u8> = Vec::new();
    let mut acc: u64 = x;
    let mut k: usize = 0;
    proof {
        vstd::arithmetic::div_mod::lemma_div_basics(x as int);
        assert(pow256(0) == 1);
    }
    while k < n
        invariant
            k <= n <= 8,
            tmp@ =~= le_bytes(x as nat, k as nat),
            acc as nat == (x as nat) / pow256(k as nat),
        decreases n - k,
    {
        proof {
            lemma_le_bytes_snoc(x as nat, k as nat);
            lemma_pow256_pos(k as nat);
            vstd::arithmetic::div_mod::lemma_div_denominator(
                x as int,
                pow256(k as nat) as int,
                256,
            );
            assert(pow256((k + 1) as nat) == 256 * pow256(k as nat));
            assert((x as nat) / pow256((k + 1) as nat) == acc as nat / 256);
        }
        tmp.push((acc % 256) as u8);
        acc = acc / 256;
        k = k + 1;
    }
    proof {
        lemma_le_bytes_len(x as nat, n as nat);
    }
    if e == 0 {
        let mut j: usize = 0;
        while j < n
            invariant
                j <= n,
                tmp@.len() == n,
                tmp@ =~= le_bytes(x as nat, n as nat),
                dst@ =~= base + le_bytes(x as nat, n as nat).reverse().take(j as int),
            decreases n - j,
        {
            dst.push(tmp[n - 1 - j]);
            proof {
                let rev = le_bytes(x as nat, n as nat).reverse();
                assert(rev[j as int] == tmp@[n - 1 - j]);
                assert(rev.take(j + 1) =~= rev.take(j as int).push(rev[j as int]));
            }
            j = j + 1;
        }
        proof {
            let rev = le_bytes(x as nat, n as nat).reverse();
            assert(rev.take(n as int) =~= rev);
        }
    } else {
        let mut j: usize = 0;
        while j < n
            invariant
                j <= n,
                tmp@.len() == n,
                tmp@ =~= le_bytes(x as nat, n as nat),
                dst@ =~= base + tmp@.take(j as int),
            decreases n - j,
        {
            dst.push(tmp[j]);
            proof {
                assert(tmp@.take(j + 1) =~= tmp@.take(j as int).push(tmp@[j as int]));
            }
            j = j + 1;
        }
        proof {
            assert(tmp@.take(n as int) =~= tmp@);
        }
    }
}

/// Read an `n`-byte unsigned integer at `cursor` in the byte order selected
/// by `e`.
pub fn read_uint(bytes: &[u8], cursor: usize, n: usize, e: u8) -> (x: u64)
    requires
        n <= 8,
        cursor + n <= bytes@.len(),
    ensures
        x as nat == uint_value(bytes@.subrange(cursor as int, (cursor + n) as int), e),
        (x as nat) < pow256(n as nat),
{
    let ghost s = bytes@.subrange(cursor as int, (cursor + n) as int);
    let blen: usize = bytes.len();
    proof {
        lemma_pow256_8();
        lemma_pow256_monotone(n as nat, 8);
    }
    if e == 0 {
        // big-endian: most significant byte first
        let mut acc: u64 = 0;
        let mut j: usize = 0;
        while j < n
            invariant
                j <= n <= 8,
                cursor + n <= blen == bytes@.len(),
                s =~= bytes@.subrange(cursor as int, (cursor + n) as int),
                acc as nat == le_value(s.take(j as int).reverse()),
                (acc as nat) < pow256(j as nat),
            decreases n - j,
        {
            proof {
                lemma_pow256_8();
                lemma_pow256_monotone((j + 1) as nat, 8);
                let prefix1 = s.take(j + 1).reverse();
                assert(prefix1[0] == s[j as int]);
                assert(prefix1.skip(1) =~= s.take(j as int).reverse());
                assert(le_value(prefix1) == s[j as int] + 256 * le_value(
                    s.take(j as int).reverse(),
                ));
                assert(pow256((j + 1) as nat) == 256 * pow256(j as nat));
            }
            acc = acc * 256 + (bytes[cursor + j] as u64);
            j = j + 1;
        }
        proof {
            assert(s.take(n as int) =~= s);
        }
        acc
    } else {
        // little-endian: accumulate from the most significant end down
        let mut acc: u64 = 0;
        let mut j: usize = n;
        while j > 0
            invariant
                j <= n <= 8,
                cursor + n <= blen == bytes@.len(),
                s =~= bytes@.subrange(cursor as int, (cursor + n) as int),
                acc as nat == le_value(s.subrange(j as int, n as int)),
                (acc as nat) < pow256((n - j) as nat),
            decreases j,
        {
            proof {
                lemma_pow256_8();
                lemma_pow256_monotone((n - j + 1) as nat, 8);
                let sub1 = s.subrange(j - 1, n as int);
                assert(sub1[0] == s[j - 1]);
                assert(sub1.skip(1) =~= s.subrange(j as int, n as int));
                assert(le_value(sub1) == s[j - 1] + 256 * le_value(
                    s.subrange(j as int, n as int),
                ));
                assert(pow256((n - j + 1) as nat) == 256 * pow256((n - j) as nat));
            }
            acc = acc * 256 + (bytes[cursor + j - 1] as u64);
            j = j - 1;
        }
        proof {
            assert(s.subrange(0, n as int) =~= s);
        }
        acc
    }
}

} // verus!
