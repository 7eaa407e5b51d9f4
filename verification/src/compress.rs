//! The kdb+ IPC compression scheme: `-18!` (compress) and `-19!`
//! (decompress).
//!
//! The algorithm is a byte-oriented LZ variant with a 256-entry hash of
//! consecutive-byte xors for back-references and one-byte match lengths.
//! The compressor's contract pins down the whole 12-byte prefix of a
//! compressed frame (header copy, compressed flag, total lengths) and the
//! half-size budget; the decompressor's contract characterizes exactly which
//! declared sizes are refused (too small, negative, or over the
//! decompression-bomb ceiling — refused before the output is allocated) and
//! guarantees the declared output size on success.  Both are proved free of
//! panics on every input.

use vstd::prelude::*;
use vstd::pervasive::VecAdditionalExecFns;
use vstd::string::StringExecFns;
use crate::endian::{uint_bytes, uint_value, read_uint, write_uint, pow256, lemma_pow256_8,
    lemma_uint_value_of_bytes, lemma_uint_bytes_len};
use crate::error::Error;
use crate::serialize::ENCODING;

verus! {

/// Copy the 4 bytes of `src` into `dst` at `pos`.
fn put4(dst: &mut Vec<u8>, pos: usize, src: &Vec<u8>)
    requires
        src@.len() == 4,
        pos + 4 <= old(dst)@.len(),
    ensures
        final(dst)@.len() == old(dst)@.len(),
        final(dst)@.subrange(pos as int, pos + 4) == src@,
        forall|i: int|
            0 <= i < old(dst)@.len() && !(pos <= i < pos + 4) ==> final(dst)@[i] == old(
                dst,
            )@[i],
{
    let l = dst.len();
    dst.set(pos, src[0]);
    dst.set(pos + 1, src[1]);
    dst.set(pos + 2, src[2]);
    dst.set(pos + 3, src[3]);
    proof {
        assert(dst@.subrange(pos as int, pos + 4) =~= src@);
    }
}

/// The compressor's whole mutable state: the output buffer, the input and
/// output cursors, the pending flag bits, the xor-hash registers and the
/// hash table.
pub struct GzState {
    pub out: Seq<u8>,
    pub s: int,
    pub d: int,
    pub f: u8,
    pub h: int,
    pub h0: int,
    pub s0: int,
    pub p: int,
    pub a: Seq<usize>,
}

/// The greedy match scan: extend the match while bytes repeat, the source
/// cursor trailing the input cursor; returns the final cursors.
pub open spec fn gz_scan(raw: Seq<u8>, p: int, s: int, q: int) -> (int, int)
    decreases q - s,
{
    if s < q && raw[p] == raw[s] {
        if s + 1 < q {
            gz_scan(raw, p + 1, s + 1, q)
        } else {
            (p, s + 1)
        }
    } else {
        (p, s)
    }
}

pub proof fn lemma_gz_scan_bounds(raw: Seq<u8>, p: int, s: int, q: int)
    requires
        s <= q,
    ensures
        s <= gz_scan(raw, p, s, q).1 <= q,
        p <= gz_scan(raw, p, s, q).0,
    decreases q - s,
{
    if s < q && raw[p] == raw[s] && s + 1 < q {
        lemma_gz_scan_bounds(raw, p + 1, s + 1, q);
    }
}

/// One item of a group: a literal byte or a back-reference, exactly as the
/// compressor decides it.
pub open spec fn gz_item(raw: Seq<u8>, t: int, jj: int, st: GzState) -> GzState {
    let g0 = st.s > t - 3;
    let h2 = if !g0 {
        (raw[st.s] ^ raw[st.s + 1]) as int
    } else {
        st.h
    };
    let pv = if !g0 {
        st.a[h2] as int
    } else {
        st.p
    };
    let g = g0 || pv == 0 || (raw[st.s] ^ raw[pv]) != 0;
    let a2 = if st.s0 > 0 {
        st.a.update(st.h0, st.s0 as usize)
    } else {
        st.a
    };
    let s02 = if st.s0 > 0 {
        0
    } else {
        st.s0
    };
    if g {
        GzState {
            out: st.out.update(st.d, raw[st.s]),
            s: st.s + 1,
            d: st.d + 1,
            f: st.f,
            h: h2,
            h0: h2,
            s0: st.s,
            p: pv,
            a: a2,
        }
    } else {
        let a3 = a2.update(h2, st.s as usize);
        let f2 = st.f | (1u8 << (jj as u8));
        let s3 = st.s + 2;
        let q = if t - s3 < 255 {
            t
        } else {
            s3 + 255
        };
        let scanned = gz_scan(raw, pv + 2, s3, q);
        GzState {
            out: st.out.update(st.d, h2 as u8).update(st.d + 1, (scanned.1 - s3) as u8),
            s: scanned.1,
            d: st.d + 2,
            f: f2,
            h: h2,
            h0: st.h0,
            s0: s02,
            p: scanned.0,
            a: a3,
        }
    }
}

/// The items of one group, from flag bit `jj` on (at most eight, stopping
/// at the end of the input).
pub open spec fn gz_items(raw: Seq<u8>, t: int, jj: int, st: GzState) -> GzState
    decreases 8 - jj,
{
    if jj >= 8 || st.s >= t {
        st
    } else {
        gz_items(raw, t, jj + 1, gz_item(raw, t, jj, st))
    }
}

pub proof fn lemma_gz_items_progress(raw: Seq<u8>, t: int, jj: int, st: GzState)
    requires
        st.s <= t,
    ensures
        gz_items(raw, t, jj, st).s >= st.s,
        gz_items(raw, t, jj, st).s <= t,
        (jj < 8 && st.s < t) ==> gz_items(raw, t, jj, st).s > st.s,
    decreases 8 - jj,
{
    if !(jj >= 8 || st.s >= t) {
        let st2 = gz_item(raw, t, jj, st);
        if !(st.s > t - 3) {
            let s3 = st.s + 2;
            let q = if t - s3 < 255 {
                t
            } else {
                s3 + 255
            };
            let pv = st.a[(raw[st.s] ^ raw[st.s + 1]) as int] as int;
            lemma_gz_scan_bounds(raw, pv + 2, s3, q);
        }
        lemma_gz_items_progress(raw, t, jj + 1, st2);
    }
}

/// The groups of the compressed stream: each opens a flag byte, runs up to
/// eight items and writes the accumulated flags back; `None` when the
/// output would cross the half-size budget.
pub open spec fn gz_groups(raw: Seq<u8>, t: int, e: int, st: GzState) -> Option<(Seq<u8>, int)>
    decreases t - st.s,
    via gz_groups_decreases
{
    if st.s >= t {
        Some((st.out, st.d))
    } else if st.d + 17 > e {
        None
    } else {
        let st1 = GzState { d: st.d + 1, f: 0, ..st };
        let st2 = gz_items(raw, t, 0, st1);
        gz_groups(raw, t, e, GzState { out: st2.out.update(st.d, st2.f), ..st2 })
    }
}

#[via_fn]
proof fn gz_groups_decreases(raw: Seq<u8>, t: int, e: int, st: GzState) {
    if st.s < t && st.d + 17 <= e {
        let st1 = GzState { d: st.d + 1, f: 0, ..st };
        if st.s <= t {
            lemma_gz_items_progress(raw, t, 0, st1);
        }
    }
}

proof fn lemma_gz_item_prefix(raw: Seq<u8>, t: int, jj: int, st: GzState)
    requires
        0 <= st.d,
        st.d + 2 <= st.out.len(),
    ensures
        ({
            let st2 = gz_item(raw, t, jj, st);
            &&& st2.out.len() == st.out.len()
            &&& st.d + 1 <= st2.d <= st.d + 2
            &&& forall|i: int| 0 <= i < st.d ==> st2.out[i] == st.out[i]
        }),
{
}

proof fn lemma_gz_items_prefix(raw: Seq<u8>, t: int, jj: int, st: GzState)
    requires
        0 <= jj <= 8,
        0 <= st.d,
        st.d + 2 * (8 - jj) <= st.out.len(),
    ensures
        ({
            let st2 = gz_items(raw, t, jj, st);
            &&& st2.out.len() == st.out.len()
            &&& st.d <= st2.d <= st.d + 2 * (8 - jj)
            &&& forall|i: int| 0 <= i < st.d ==> st2.out[i] == st.out[i]
        }),
    decreases 8 - jj,
{
    if !(jj >= 8 || st.s >= t) {
        lemma_gz_item_prefix(raw, t, jj, st);
        lemma_gz_items_prefix(raw, t, jj + 1, gz_item(raw, t, jj, st));
    }
}

proof fn lemma_gz_groups_prefix(raw: Seq<u8>, t: int, e: int, st: GzState)
    requires
        0 <= st.d <= e <= st.out.len(),
        st.s <= t,
    ensures
        gz_groups(raw, t, e, st) matches Some((o, d)) ==> o.len() == st.out.len() && st.d <= d
            <= e && (forall|i: int| 0 <= i < st.d ==> o[i] == st.out[i]),
    decreases t - st.s,
{
    if st.s >= t || st.d + 17 > e {
    } else {
        let st1 = GzState { d: st.d + 1, f: 0, ..st };
        lemma_gz_items_prefix(raw, t, 0, st1);
        lemma_gz_items_progress(raw, t, 0, st1);
        let st2 = gz_items(raw, t, 0, st1);
        let st3 = GzState { out: st2.out.update(st.d, st2.f), ..st2 };
        lemma_gz_groups_prefix(raw, t, e, st3);
    }
}

/// The `-18!` compressed stream of a raw frame, or `None` when compression
/// cannot stay within half the raw size.
pub open spec fn spec_compress(raw: Seq<u8>) -> Option<Seq<u8>> {
    let t = raw.len() as int;
    let e = t / 2;
    let rawsize = uint_bytes(raw.len(), 4, ENCODING);
    let out0 = Seq::new((t / 2) as nat, |i: int| 0u8).update(0, raw[0]).update(1, raw[1]).update(
        2,
        1u8,
    ).update(3, raw[3]).update(8, rawsize[0]).update(9, rawsize[1]).update(10, rawsize[2]).update(
        11,
        rawsize[3],
    );
    let st0 = GzState { out: out0, s: 8, d: 12, f: 0, h: 0, h0: 0, s0: 0, p: 0, a: Seq::new(256, |i: int| 0usize) };
    match gz_groups(raw, t, e, st0) {
        None => None,
        Some((o, d)) => {
            let dsize = uint_bytes(d as nat, 4, ENCODING);
            Some(
                o.update(4, dsize[0]).update(5, dsize[1]).update(6, dsize[2]).update(
                    7,
                    dsize[3],
                ).take(d),
            )
        },
    }
}

/// Compress a raw frame (8-byte placeholder header plus payload) in the
/// manner of q's `-18!`.  Returns `(true, compressed)` when the result
/// stays within half the raw size, and `(false, raw)` — the input unchanged
/// — when compression is not worth it.
#[verifier::loop_isolation(false)]
#[verifier::rlimit(100)]
pub fn compress_sync(raw: Vec<u8>) -> (r: (bool, Vec<u8>))
    requires
        raw@.len() >= 24,
        raw@.len() <= u32::MAX,
    ensures
        r.0 <==> spec_compress(raw@) is Some,
        r.0 ==> r.1@ == spec_compress(raw@).unwrap(),
        !r.0 ==> r.1 == raw,
        r.0 ==> {
            &&& 12 <= r.1@.len() <= raw@.len() / 2
            &&& r.1@[0] == raw@[0]
            &&& r.1@[1] == raw@[1]
            &&& r.1@[2] == 1
            &&& r.1@[3] == raw@[3]
            &&& r.1@.subrange(4, 8) == uint_bytes(r.1@.len() as nat, 4, ENCODING)
            &&& r.1@.subrange(8, 12) == uint_bytes(raw@.len() as nat, 4, ENCODING)
        },
{
    let ghost rawv = raw@;
    let t: usize = raw.len();
    let e: usize = t / 2;
    let mut compressed: Vec<u8> = Vec::new();
    let mut zi: usize = 0;
    while zi < e
        invariant
            zi <= e,
            compressed@ =~= Seq::new(zi as nat, |i: int| 0u8),
        decreases e - zi,
    {
        compressed.push(0);
        zi = zi + 1;
    }

    // header copy, compressed flag, raw size
    compressed.set(0, raw[0]);
    compressed.set(1, raw[1]);
    compressed.set(2, 1);
    compressed.set(3, raw[3]);
    proof {
        lemma_pow256_8();
    }
    let mut raw_size_bytes: Vec<u8> = Vec::new();
    write_uint(&mut raw_size_bytes, t as u64, 4, ENCODING);
    proof {
        crate::endian::lemma_uint_bytes_len(t as nat, 4, ENCODING);
    }
    put4(&mut compressed, 8, &raw_size_bytes);

    let mut a: Vec<usize> = Vec::new();
    let mut ai: usize = 0;
    while ai < 256
        invariant
            ai <= 256,
            a@.len() == ai,
            forall|x: int| 0 <= x < ai ==> a@[x] == 0,
        decreases 256 - ai,
    {
        a.push(0);
        ai = ai + 1;
    }

    let mut f: u8 = 0;
    let mut h: usize = 0;
    let mut h0: usize = 0;
    let mut s0: usize = 0;
    let mut p: usize = 0;
    let mut d: usize = 12;
    let mut s: usize = 8;

    let ghost rawsize = uint_bytes(rawv.len(), 4, ENCODING);
    let ghost out0 = Seq::new((t / 2) as nat, |i: int| 0u8).update(0, rawv[0]).update(
        1,
        rawv[1],
    ).update(2, 1u8).update(3, rawv[3]).update(8, rawsize[0]).update(9, rawsize[1]).update(
        10,
        rawsize[2],
    ).update(11, rawsize[3]);
    let ghost st0 = GzState {
        out: out0,
        s: 8,
        d: 12,
        f: 0,
        h: 0,
        h0: 0,
        s0: 0,
        p: 0,
        a: Seq::new(256, |i: int| 0usize),
    };
    proof {
        assert(compressed@ =~= out0);
        assert(a@ =~= Seq::new(256, |i: int| 0usize));
    }

    while s < t
        invariant
            8 <= s <= t,
            12 <= d <= e,
            compressed@.len() == e,
            a@.len() == 256,
            forall|x: int| 0 <= x < 256 ==> a@[x] < s,
            s0 < s,
            h < 256,
            h0 < 256,
            compressed@[0] == rawv[0] && compressed@[1] == rawv[1] && compressed@[2] == 1
                && compressed@[3] == rawv[3],
            compressed@.subrange(8, 12) == uint_bytes(t as nat, 4, ENCODING),
            gz_groups(
                rawv,
                t as int,
                e as int,
                GzState {
                    out: compressed@,
                    s: s as int,
                    d: d as int,
                    f,
                    h: h as int,
                    h0: h0 as int,
                    s0: s0 as int,
                    p: p as int,
                    a: a@,
                },
            ) == gz_groups(rawv, t as int, e as int, st0),
        decreases t - s,
    {
        // a new group of up to eight items; bail out when the output could
        // cross the half-size budget
        if d + 17 > e {
            proof {
                assert(gz_groups(rawv, t as int, e as int, st0) is None);
            }
            return (false, raw);
        }
        let ghost st_pre = GzState {
            out: compressed@,
            s: s as int,
            d: d as int,
            f,
            h: h as int,
            h0: h0 as int,
            s0: s0 as int,
            p: p as int,
            a: a@,
        };
        let flag_pos = d;
        d = d + 1;
        f = 0;
        let ghost st1 = GzState { d: st_pre.d + 1, f: 0, ..st_pre };
        let ghost s_entry = s;
        let mut jj: usize = 0;
        while jj < 8 && s < t
            invariant
                jj <= 8,
                8 <= s <= t,
                s_entry <= s,
                jj == 0 ==> s == s_entry,
                jj >= 1 ==> s > s_entry,
                flag_pos < d <= flag_pos + 1 + 2 * jj,
                d <= e,
                flag_pos + 17 <= e,
                compressed@.len() == e,
                a@.len() == 256,
                forall|x: int| 0 <= x < 256 ==> a@[x] < s,
                s0 < s,
                h < 256,
                h0 < 256,
                compressed@[0] == rawv[0] && compressed@[1] == rawv[1] && compressed@[2] == 1
                    && compressed@[3] == rawv[3],
                compressed@.subrange(8, 12) == uint_bytes(t as nat, 4, ENCODING),
                gz_items(
                    rawv,
                    t as int,
                    jj as int,
                    GzState {
                        out: compressed@,
                        s: s as int,
                        d: d as int,
                        f,
                        h: h as int,
                        h0: h0 as int,
                        s0: s0 as int,
                        p: p as int,
                        a: a@,
                    },
                ) == gz_items(rawv, t as int, 0, st1),
            decreases 8 - jj,
        {
            let ghost stI = GzState {
                out: compressed@,
                s: s as int,
                d: d as int,
                f,
                h: h as int,
                h0: h0 as int,
                s0: s0 as int,
                p: p as int,
                a: a@,
            };
            let ghost jj0 = jj as int;
            let mut g: bool = s > t - 3;
            if !g {
                h = (raw[s] ^ raw[s + 1]) as usize;
                p = a[h];
                g = p == 0 || (raw[s] ^ raw[p]) != 0;
            }
            if s0 > 0 {
                a.set(h0, s0);
                s0 = 0;
            }
            if g {
                h0 = h;
                s0 = s;
                compressed.set(d, raw[s]);
                d = d + 1;
                s = s + 1;
                proof {
                    assert(GzState {
                        out: compressed@,
                        s: s as int,
                        d: d as int,
                        f,
                        h: h as int,
                        h0: h0 as int,
                        s0: s0 as int,
                        p: p as int,
                        a: a@,
                    } == gz_item(rawv, t as int, jj0, stI));
                }
            } else {
                a.set(h, s);
                f = f | (1u8 << (jj as u8));
                p = p + 2;
                s = s + 2;
                let rr = s;
                let q = if t - s < 255 {
                    t
                } else {
                    s + 255
                };
                let ghost p_scan0 = p as int;
                let ghost s_scan0 = s as int;
                while s < q && raw[p] == raw[s]
                    invariant
                        rr <= s <= q <= t,
                        p < s,
                        q <= rr + 255,
                        gz_scan(rawv, p as int, s as int, q as int) == gz_scan(
                            rawv,
                            p_scan0,
                            s_scan0,
                            q as int,
                        ),
                    decreases q - s,
                {
                    s = s + 1;
                    if s < q {
                        p = p + 1;
                    }
                }
                proof {
                    assert(gz_scan(rawv, p_scan0, s_scan0, q as int) == (p as int, s as int));
                }
                compressed.set(d, h as u8);
                d = d + 1;
                compressed.set(d, (s - rr) as u8);
                d = d + 1;
                proof {
                    assert(GzState {
                        out: compressed@,
                        s: s as int,
                        d: d as int,
                        f,
                        h: h as int,
                        h0: h0 as int,
                        s0: s0 as int,
                        p: p as int,
                        a: a@,
                    } == gz_item(rawv, t as int, jj0, stI));
                }
            }
            jj = jj + 1;
        }
        compressed.set(flag_pos, f);
        proof {
            let ghost st2 = gz_items(rawv, t as int, 0, st1);
            assert(compressed@ == st2.out.update(st_pre.d, st2.f));
            assert(gz_groups(
                rawv,
                t as int,
                e as int,
                GzState {
                    out: compressed@,
                    s: s as int,
                    d: d as int,
                    f,
                    h: h as int,
                    h0: h0 as int,
                    s0: s0 as int,
                    p: p as int,
                    a: a@,
                },
            ) == gz_groups(rawv, t as int, e as int, st0));
        }
    }

    proof {
        assert(gz_groups(rawv, t as int, e as int, st0) == Some((compressed@, d as int)));
    }
    // final compressed size
    let mut size_bytes: Vec<u8> = Vec::new();
    write_uint(&mut size_bytes, d as u64, 4, ENCODING);
    proof {
        crate::endian::lemma_uint_bytes_len(d as nat, 4, ENCODING);
    }
    put4(&mut compressed, 4, &size_bytes);
    compressed.truncate(d);
    proof {
        let dsize = uint_bytes(d as nat, 4, ENCODING);
        assert(compressed@ =~= spec_compress(rawv).unwrap());
        assert(compressed@.subrange(4, 8) =~= uint_bytes(d as nat, 4, ENCODING));
        assert(compressed@.subrange(8, 12) =~= uint_bytes(t as nat, 4, ENCODING));
    }
    (true, compressed)
}

/// One back-reference copy: `n` bytes from `rr` onward to `s` onward, one
/// byte at a time (source and destination may overlap).
pub open spec fn lz_copy(out: Seq<u8>, rr: int, s: int, n: int) -> Seq<u8>
    decreases n,
{
    if n <= 0 {
        out
    } else {
        let out1 = if 0 <= rr < out.len() && 0 <= s < out.len() {
            out.update(s, out[rr])
        } else {
            out
        };
        lz_copy(out1, rr + 1, s + 1, n - 1)
    }
}

/// Refresh the xor-hash table over the output positions `[pp, s - 1)`.
pub open spec fn lz_hash(out: Seq<u8>, aa: Seq<usize>, pp: int, s: int) -> Seq<usize>
    decreases s - pp,
{
    if 0 <= pp && pp + 1 < s && pp + 1 < out.len() && pp < usize::MAX {
        let hx = (out[pp] ^ out[pp + 1]) as int;
        lz_hash(out, aa.update(hx, pp as usize), pp + 1, s)
    } else {
        aa
    }
}

/// The LZ reconstruction itself, one control item per step: state is the
/// declared output size, the output buffer (zero-filled where not yet
/// written), the write position `s`, the hash refresh position `pp`, the
/// flag cursor `jj` and flags `f`, the hash table `aa` and the input
/// cursor `dd`.  `None` means the control stream is malformed.
pub open spec fn lz_run(
    c: Seq<u8>,
    size: int,
    out: Seq<u8>,
    s: int,
    pp: int,
    jj: int,
    f: usize,
    aa: Seq<usize>,
    dd: int,
) -> Option<Seq<u8>>
    decreases c.len() - dd,
{
    if s >= size {
        Some(out)
    } else if jj >= 8 {
        if dd < 0 || dd >= c.len() {
            None
        } else {
            lz_run(c, size, out, s, pp, 0, c[dd] as usize, aa, dd + 1)
        }
    } else {
        let bit: usize = 1usize << (jj as u8);
        if (f & bit) != 0 {
            if dd < 0 || c.len() - dd < 2 {
                None
            } else {
                let rr0 = aa[c[dd] as int] as int;
                if size - s < 2 || size - rr0 < 2 {
                    None
                } else {
                    let out1 = if 0 <= s < out.len() && 0 <= rr0 < out.len() {
                        out.update(s, out[rr0])
                    } else {
                        out
                    };
                    let out2 = if 0 <= s + 1 < out.len() && 0 <= rr0 + 1 < out.len() {
                        out1.update(s + 1, out1[rr0 + 1])
                    } else {
                        out1
                    };
                    let n = c[dd + 1] as int;
                    if n > size - (s + 2) || n > size - (rr0 + 2) {
                        None
                    } else {
                        let out3 = lz_copy(out2, rr0 + 2, s + 2, n);
                        let aa2 = lz_hash(out3, aa, pp, s + 2);
                        lz_run(c, size, out3, s + 2 + n, s + 2 + n, jj + 1, f, aa2, dd + 2)
                    }
                }
            }
        } else {
            if dd < 0 || dd >= c.len() {
                None
            } else {
                let out1 = if 0 <= s < out.len() {
                    out.update(s, c[dd])
                } else {
                    out
                };
                let aa2 = lz_hash(out1, aa, pp, s + 1);
                let pp2 = if pp + 1 < s + 1 {
                    s
                } else {
                    pp
                };
                lz_run(c, size, out1, s + 1, pp2, jj + 1, f, aa2, dd + 1)
            }
        }
    }
}

/// The `-19!` reconstruction of a compressed payload (starting at the
/// 4-byte declared size), or `None` when the declared size or the control
/// stream is malformed.
pub open spec fn spec_decompress(c: Seq<u8>, e: u8) -> Option<Seq<u8>> {
    if c.len() < 4 {
        None
    } else {
        let v = uint_value(c.subrange(0, 4), e);
        if v < 8 || v >= 0x80000000 {
            None
        } else {
            lz_run(
                c,
                v - 8,
                Seq::new((v - 8) as nat, |i: int| 0u8),
                0,
                0,
                8,
                0,
                Seq::new(256, |i: int| 0usize),
                4,
            )
        }
    }
}

proof fn lemma_lz_copy_len(out: Seq<u8>, rr: int, s: int, n: int)
    ensures
        lz_copy(out, rr, s, n).len() == out.len(),
    decreases n,
{
    if n > 0 {
        let out1 = if 0 <= rr < out.len() && 0 <= s < out.len() {
            out.update(s, out[rr])
        } else {
            out
        };
        lemma_lz_copy_len(out1, rr + 1, s + 1, n - 1);
    }
}

proof fn lemma_lz_run_len(
    c: Seq<u8>,
    size: int,
    out: Seq<u8>,
    s: int,
    pp: int,
    jj: int,
    f: usize,
    aa: Seq<usize>,
    dd: int,
)
    ensures
        lz_run(c, size, out, s, pp, jj, f, aa, dd) matches Some(o) ==> o.len() == out.len(),
    decreases c.len() - dd,
{
    if s >= size {
    } else if jj >= 8 {
        if !(dd < 0 || dd >= c.len()) {
            lemma_lz_run_len(c, size, out, s, pp, 0, c[dd] as usize, aa, dd + 1);
        }
    } else {
        let bit: usize = 1usize << (jj as u8);
        if (f & bit) != 0 {
            if !(dd < 0 || c.len() - dd < 2) {
                let rr0 = aa[c[dd] as int] as int;
                if !(size - s < 2 || size - rr0 < 2) {
                    let out1 = if 0 <= s < out.len() && 0 <= rr0 < out.len() {
                        out.update(s, out[rr0])
                    } else {
                        out
                    };
                    let out2 = if 0 <= s + 1 < out.len() && 0 <= rr0 + 1 < out.len() {
                        out1.update(s + 1, out1[rr0 + 1])
                    } else {
                        out1
                    };
                    let n = c[dd + 1] as int;
                    if !(n > size - (s + 2) || n > size - (rr0 + 2)) {
                        let out3 = lz_copy(out2, rr0 + 2, s + 2, n);
                        lemma_lz_copy_len(out2, rr0 + 2, s + 2, n);
                        let aa2 = lz_hash(out3, aa, pp, s + 2);
                        lemma_lz_run_len(c, size, out3, s + 2 + n, s + 2 + n, jj + 1, f, aa2, dd + 2);
                    }
                }
            }
        } else {
            if !(dd < 0 || dd >= c.len()) {
                let out1 = if 0 <= s < out.len() {
                    out.update(s, c[dd])
                } else {
                    out
                };
                let aa2 = lz_hash(out1, aa, pp, s + 1);
                let pp2 = if pp + 1 < s + 1 {
                    s
                } else {
                    pp
                };
                lemma_lz_run_len(c, size, out1, s + 1, pp2, jj + 1, f, aa2, dd + 1);
            }
        }
    }
}

/// Law: compression embeds the length of the frame it was given, and
/// decompression reproduces exactly that length.  The stream
/// `spec_compress(raw)` carries `raw.len()` in its size field, and whenever
/// `spec_decompress` succeeds on that stream's payload, its output has the
/// length of the original frame less the 8-byte header.
pub proof fn lemma_decompress_of_compress_len(raw: Seq<u8>)
    requires
        raw.len() > 8,
        raw.len() < 0x80000000,
        spec_compress(raw) is Some,
    ensures
        ({
            let c = spec_compress(raw).unwrap();
            &&& c.len() >= 12
            &&& uint_value(c.subrange(8, 12), ENCODING) == raw.len()
            &&& (spec_decompress(c.subrange(8, c.len() as int), ENCODING) matches Some(out)
                ==> out.len() == raw.len() - 8)
        }),
{
    let t = raw.len() as int;
    let e = t / 2;
    let rawsize = uint_bytes(raw.len(), 4, ENCODING);
    lemma_uint_bytes_len(raw.len(), 4, ENCODING);
    let out0 = Seq::new((t / 2) as nat, |i: int| 0u8).update(0, raw[0]).update(1, raw[1]).update(
        2,
        1u8,
    ).update(3, raw[3]).update(8, rawsize[0]).update(9, rawsize[1]).update(10, rawsize[2]).update(
        11,
        rawsize[3],
    );
    let st0 = GzState {
        out: out0,
        s: 8,
        d: 12,
        f: 0,
        h: 0,
        h0: 0,
        s0: 0,
        p: 0,
        a: Seq::new(256, |i: int| 0usize),
    };
    if t < 24 {
        assert(st0.d + 17 > e);
        assert(gz_groups(raw, t, e, st0) is None);
        assert(false);
    }
    lemma_gz_groups_prefix(raw, t, e, st0);
    let (o, d) = gz_groups(raw, t, e, st0).unwrap();
    let c = spec_compress(raw).unwrap();
    assert(c.len() == d);
    assert(c.subrange(8, 12) =~= rawsize);
    lemma_pow256_8();
    lemma_uint_value_of_bytes(raw.len(), 4, ENCODING);
    let payload = c.subrange(8, c.len() as int);
    assert(payload.subrange(0, 4) =~= c.subrange(8, 12));
    if spec_decompress(payload, ENCODING) is Some {
        let v = uint_value(payload.subrange(0, 4), ENCODING);
        lemma_lz_run_len(
            payload,
            v - 8,
            Seq::new((v - 8) as nat, |i: int| 0u8),
            0,
            0,
            8,
            0,
            Seq::new(256, |i: int| 0usize),
            4,
        );
    }
}

/// Decompress a payload in the manner of q's `-19!`.  The input starts at
/// the 4-byte declared uncompressed size (the 8-byte frame header has
/// already been removed); the result is the decompressed payload without
/// the conceptual header.
///
/// A declared size below the 8-byte minimum (including any value negative
/// as a 32-bit integer) is refused, and a declared size above
/// `max_decompressed_size` is refused as a compression bomb — in both cases
/// before any output is allocated.  Malformed back-references are reported
/// as errors, never out-of-bounds accesses.
#[verifier::loop_isolation(false)]
#[verifier::rlimit(60)]
pub fn decompress_sync(compressed: Vec<u8>, encoding: u8, max_decompressed_size: Option<usize>)
    -> (r: Result<Vec<u8>, Error>)
    ensures
        r matches Err(er) ==> (er is InvalidCompressedData || er
            is DecompressedSizeExceedsLimit),
        compressed@.len() < 4 ==> (r matches Err(er) && er is InvalidCompressedData),
        compressed@.len() >= 4 ==> {
            let v = uint_value(compressed@.subrange(0, 4), encoding);
            &&& (v < 8 || v >= 0x80000000) ==> (r matches Err(er) && er
                is InvalidCompressedData)
            &&& max_decompressed_size matches Some(m) ==> ((8 <= v < 0x80000000 && v - 8 > m)
                ==> (r matches Err(er) && er == (Error::DecompressedSizeExceedsLimit {
                size: (v - 8) as usize,
                max: m,
            })))
            &&& r matches Ok(out) ==> 8 <= v < 0x80000000 && out@.len() == v - 8 && (
            max_decompressed_size matches Some(m) ==> out@.len() <= m)
            &&& (8 <= v < 0x80000000 && (max_decompressed_size matches Some(m) ==> v - 8 <= m))
                ==> (match spec_decompress(compressed@, encoding) {
                Some(out) => r matches Ok(o) && o@ == out,
                None => r matches Err(er) && er is InvalidCompressedData,
            })
        },
{
    let clen: usize = compressed.len();
    if clen < 4 {
        return Err(Error::InvalidCompressedData(String::from_str(
            "need at least 4 bytes for the size field",
        )));
    }
    proof {
        lemma_pow256_8();
    }
    let size_raw = read_uint(compressed.as_slice(), 0, 4, encoding);
    if size_raw < 8 || size_raw >= 0x80000000u64 {
        return Err(Error::InvalidCompressedData(String::from_str(
            "declared size is less than minimum header size",
        )));
    }
    let size: usize = (size_raw as usize) - 8;
    match max_decompressed_size {
        Some(m) => {
            if size > m {
                return Err(Error::DecompressedSizeExceedsLimit { size, max: m });
            }
        },
        None => {},
    }

    let ghost target = spec_decompress(compressed@, encoding);

    let mut decompressed: Vec<u8> = Vec::new();
    let mut zi: usize = 0;
    while zi < size
        invariant
            zi <= size,
            decompressed@ =~= Seq::new(zi as nat, |i: int| 0u8),
        decreases size - zi,
    {
        decompressed.push(0);
        zi = zi + 1;
    }

    let mut aa: Vec<usize> = Vec::new();
    let mut ai: usize = 0;
    while ai < 256
        invariant
            ai <= 256,
            aa@.len() == ai,
            forall|x: int| 0 <= x < ai ==> aa@[x] == 0,
        decreases 256 - ai,
    {
        aa.push(0);
        ai = ai + 1;
    }

    let mut n: usize = 0;
    let mut f: usize = 0;
    let mut s: usize = 0;
    let mut pp: usize = 0;
    let mut jj: usize = 8;
    let mut dd: usize = 4;

    proof {
        assert(decompressed@ =~= Seq::new(size as nat, |i: int| 0u8));
        assert(aa@ =~= Seq::new(256, |i: int| 0usize));
        assert(lz_run(compressed@, size as int, decompressed@, 0, 0, 8, 0, aa@, 4) == target);
    }

    while s < size
        invariant
            s <= size,
            pp <= s,
            jj <= 8,
            dd <= clen == compressed@.len(),
            decompressed@.len() == size,
            aa@.len() == 256,
            size == 0 || (forall|x: int| 0 <= x < 256 ==> aa@[x] < size),
            lz_run(
                compressed@,
                size as int,
                decompressed@,
                s as int,
                pp as int,
                jj as int,
                f,
                aa@,
                dd as int,
            ) == target,
        decreases size - s, jj,
    {
        if jj >= 8 {
            if dd >= clen {
                proof {
                    assert(target is None);
                }
                return Err(Error::InvalidCompressedData(String::from_str(
                    "input ended inside the control stream",
                )));
            }
            f = compressed[dd] as usize;
            dd = dd + 1;
            jj = 0;
        } else {
            let ghost out0 = decompressed@;
            let ghost aa0 = aa@;
            let ghost s0 = s as int;
            let ghost pp0 = pp as int;
            let ghost jj0 = jj as int;
            let ghost dd0 = dd as int;
            let ghost f0 = f;
            let bit: usize = 1usize << (jj as u8);
            proof {
                assert((1usize << (jj0 as u8)) == bit);
            }
            if (f & bit) != 0 {
                // back-reference: hash index, two seed bytes, then a length
                if clen - dd < 2 {
                    proof {
                        assert(target is None);
                    }
                    return Err(Error::InvalidCompressedData(String::from_str(
                        "input ended inside a back-reference",
                    )));
                }
                let mut rr = aa[compressed[dd] as usize];
                dd = dd + 1;
                let ghost rr0 = rr as int;
                if size - s < 2 || size - rr < 2 {
                    proof {
                        assert(target is None);
                    }
                    return Err(Error::InvalidCompressedData(String::from_str(
                        "back-reference outside the output",
                    )));
                }
                let b0 = decompressed[rr];
                decompressed.set(s, b0);
                s = s + 1;
                rr = rr + 1;
                let b1 = decompressed[rr];
                decompressed.set(s, b1);
                s = s + 1;
                rr = rr + 1;
                let ghost out2v = decompressed@;
                proof {
                    assert(out2v =~= out0.update(s0, out0[rr0]).update(
                        s0 + 1,
                        out0.update(s0, out0[rr0])[rr0 + 1],
                    ));
                }
                n = compressed[dd] as usize;
                dd = dd + 1;
                if n > size - s || n > size - rr {
                    proof {
                        assert(target is None);
                    }
                    return Err(Error::InvalidCompressedData(String::from_str(
                        "back-reference copy outside the output",
                    )));
                }
                let mut m: usize = 0;
                while m < n
                    invariant
                        m <= n,
                        s + n <= size,
                        rr + n <= size,
                        decompressed@.len() == size,
                        lz_copy(decompressed@, (rr + m) as int, (s + m) as int, n - m)
                            == lz_copy(out2v, rr as int, s as int, n as int),
                    decreases n - m,
                {
                    let b = decompressed[rr + m];
                    decompressed.set(s + m, b);
                    m = m + 1;
                }
                let ghost out3v = decompressed@;
                proof {
                    assert(out3v == lz_copy(out2v, rr0 + 2, s0 + 2, n as int));
                }
                while pp + 1 < s
                    invariant
                        pp <= s <= size,
                        decompressed@ == out3v,
                        decompressed@.len() == size,
                        aa@.len() == 256,
                        size == 0 || (forall|x: int| 0 <= x < 256 ==> aa@[x] < size),
                        lz_hash(out3v, aa@, pp as int, s as int) == lz_hash(
                            out3v,
                            aa0,
                            pp0,
                            s0 + 2,
                        ),
                    decreases s - pp,
                {
                    let hx = (decompressed[pp] ^ decompressed[pp + 1]) as usize;
                    aa.set(hx, pp);
                    pp = pp + 1;
                }
                proof {
                    assert(aa@ == lz_hash(out3v, aa0, pp0, s0 + 2));
                }
                s = s + n;
                pp = s;
                proof {
                    assert(lz_run(
                        compressed@,
                        size as int,
                        decompressed@,
                        s as int,
                        pp as int,
                        jj0 + 1,
                        f,
                        aa@,
                        dd as int,
                    ) == target);
                }
            } else {
                // literal byte
                if dd >= clen {
                    proof {
                        assert(target is None);
                    }
                    return Err(Error::InvalidCompressedData(String::from_str(
                        "input ended inside a literal",
                    )));
                }
                decompressed.set(s, compressed[dd]);
                s = s + 1;
                dd = dd + 1;
                let ghost out1v = decompressed@;
                proof {
                    assert(out1v =~= out0.update(s0, compressed@[dd0]));
                }
                while pp + 1 < s
                    invariant
                        pp <= s <= size,
                        pp as int <= s0,
                        decompressed@ == out1v,
                        decompressed@.len() == size,
                        aa@.len() == 256,
                        size == 0 || (forall|x: int| 0 <= x < 256 ==> aa@[x] < size),
                        lz_hash(out1v, aa@, pp as int, s as int) == lz_hash(
                            out1v,
                            aa0,
                            pp0,
                            s0 + 1,
                        ),
                    decreases s - pp,
                {
                    let hx = (decompressed[pp] ^ decompressed[pp + 1]) as usize;
                    aa.set(hx, pp);
                    pp = pp + 1;
                }
                proof {
                    assert(aa@ == lz_hash(out1v, aa0, pp0, s0 + 1));
                    assert(pp as int == (if pp0 + 1 < s0 + 1 {
                        s0
                    } else {
                        pp0
                    }));
                    assert(lz_run(
                        compressed@,
                        size as int,
                        decompressed@,
                        s as int,
                        pp as int,
                        jj0 + 1,
                        f,
                        aa@,
                        dd as int,
                    ) == target);
                }
            }
            jj = jj + 1;
        }
    }
    proof {
        assert(lz_run(
            compressed@,
            size as int,
            decompressed@,
            s as int,
            pp as int,
            jj as int,
            f,
            aa@,
            dd as int,
        ) == Some(decompressed@));
    }
    Ok(decompressed)
}

} // verus!
