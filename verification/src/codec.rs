use vstd::prelude::*;

verus! {

/// The eight little-endian bytes of a 64-bit word.
pub open spec fn le8(w: u64) -> Seq<u8> {
    seq![
        (w & 0xff) as u8,
        ((w >> 8) & 0xff) as u8,
        ((w >> 16) & 0xff) as u8,
        ((w >> 24) & 0xff) as u8,
        ((w >> 32) & 0xff) as u8,
        ((w >> 40) & 0xff) as u8,
        ((w >> 48) & 0xff) as u8,
        ((w >> 56) & 0xff) as u8,
    ]
}

proof fn lemma_byte_masks(w: u64)
    ensures
        w & 0xff <= 0xff,
        (w >> 8) & 0xff <= 0xff,
        (w >> 16) & 0xff <= 0xff,
        (w >> 24) & 0xff <= 0xff,
        (w >> 32) & 0xff <= 0xff,
        (w >> 40) & 0xff <= 0xff,
        (w >> 48) & 0xff <= 0xff,
        (w >> 56) & 0xff <= 0xff,
{
    assert(w & 0xff <= 0xff && (w >> 8) & 0xff <= 0xff && (w >> 16) & 0xff <= 0xff
        && (w >> 24) & 0xff <= 0xff && (w >> 32) & 0xff <= 0xff && (w >> 40) & 0xff <= 0xff
        && (w >> 48) & 0xff <= 0xff && (w >> 56) & 0xff <= 0xff) by (bit_vector);
}

/// Reassembling a word from its little-endian bytes inverts `le8`.
proof fn lemma_word_of_bytes(b0: u8, b1: u8, b2: u8, b3: u8, b4: u8, b5: u8, b6: u8, b7: u8, w: u64)
    requires
        w == b0 as u64 | (b1 as u64) << 8 | (b2 as u64) << 16 | (b3 as u64) << 24
            | (b4 as u64) << 32 | (b5 as u64) << 40 | (b6 as u64) << 48 | (b7 as u64) << 56,
    ensures
        (w & 0xff) as u8 == b0,
        ((w >> 8) & 0xff) as u8 == b1,
        ((w >> 16) & 0xff) as u8 == b2,
        ((w >> 24) & 0xff) as u8 == b3,
        ((w >> 32) & 0xff) as u8 == b4,
        ((w >> 40) & 0xff) as u8 == b5,
        ((w >> 48) & 0xff) as u8 == b6,
        ((w >> 56) & 0xff) as u8 == b7,
{
    assert((w & 0xff) as u8 == b0 && ((w >> 8) & 0xff) as u8 == b1
        && ((w >> 16) & 0xff) as u8 == b2 && ((w >> 24) & 0xff) as u8 == b3
        && ((w >> 32) & 0xff) as u8 == b4 && ((w >> 40) & 0xff) as u8 == b5
        && ((w >> 48) & 0xff) as u8 == b6 && ((w >> 56) & 0xff) as u8 == b7) by (bit_vector)
        requires
            w == b0 as u64 | (b1 as u64) << 8 | (b2 as u64) << 16 | (b3 as u64) << 24
                | (b4 as u64) << 32 | (b5 as u64) << 40 | (b6 as u64) << 48 | (b7 as u64) << 56,
    ;
}

/// Append the eight little-endian bytes of `w` to `out`.
pub fn enc_u64(out: &mut Vec<u8>, w: u64)
    ensures
        final(out)@ == old(out)@ + le8(w),
{
    proof { lemma_byte_masks(w); }
    out.push((w & 0xff) as u8);
    out.push(((w >> 8) & 0xff) as u8);
    out.push(((w >> 16) & 0xff) as u8);
    out.push(((w >> 24) & 0xff) as u8);
    out.push(((w >> 32) & 0xff) as u8);
    out.push(((w >> 40) & 0xff) as u8);
    out.push(((w >> 48) & 0xff) as u8);
    out.push(((w >> 56) & 0xff) as u8);
    proof {
        assert(out@ =~= old(out)@ + le8(w));
    }
}

/// Read a 64-bit word from the eight bytes of `buf` that start at `pos`.
pub fn dec_u64(buf: &Vec<u8>, pos: usize) -> (r: Option<(u64, usize)>)
    ensures
        match r {
            Some(p) => {
                &&& pos + 8 <= buf@.len()
                &&& p.1 == pos + 8
                &&& le8(p.0) == buf@.subrange(pos as int, pos as int + 8)
            },
            None => pos + 8 > buf@.len(),
        },
{
    if pos >= buf.len() || buf.len() - pos < 8 {
        return None;
    }
    let b0 = buf[pos];
    let b1 = buf[pos + 1];
    let b2 = buf[pos + 2];
    let b3 = buf[pos + 3];
    let b4 = buf[pos + 4];
    let b5 = buf[pos + 5];
    let b6 = buf[pos + 6];
    let b7 = buf[pos + 7];
    let w: u64 = b0 as u64 | (b1 as u64) << 8u64 | (b2 as u64) << 16u64 | (b3 as u64) << 24u64
        | (b4 as u64) << 32u64 | (b5 as u64) << 40u64 | (b6 as u64) << 48u64
        | (b7 as u64) << 56u64;
    proof {
        lemma_word_of_bytes(b0, b1, b2, b3, b4, b5, b6, b7, w);
        assert(le8(w) =~= buf@.subrange(pos as int, pos as int + 8));
    }
    Some((w, pos + 8))
}

/// The sixteen little-endian bytes of a 128-bit value.
pub open spec fn le16(v: u128) -> Seq<u8> {
    le8((v & 0xffff_ffff_ffff_ffff) as u64) + le8(((v >> 64) & 0xffff_ffff_ffff_ffff) as u64)
}

/// Append the sixteen little-endian bytes of `v` to `out`.
pub fn enc_u128(out: &mut Vec<u8>, v: u128)
    ensures
        final(out)@ == old(out)@ + le16(v),
{
    proof {
        assert(v & 0xffff_ffff_ffff_ffff <= 0xffff_ffff_ffff_ffff
            && (v >> 64) & 0xffff_ffff_ffff_ffff <= 0xffff_ffff_ffff_ffff) by (bit_vector);
    }
    let lo: u64 = (v & 0xffff_ffff_ffff_ffff) as u64;
    let hi: u64 = ((v >> 64) & 0xffff_ffff_ffff_ffff) as u64;
    enc_u64(out, lo);
    enc_u64(out, hi);
    proof {
        assert(out@ =~= old(out)@ + le16(v));
    }
}

proof fn lemma_u128_of_words(lo: u64, hi: u64, v: u128)
    requires
        v == lo as u128 | (hi as u128) << 64,
    ensures
        (v & 0xffff_ffff_ffff_ffff) as u64 == lo,
        ((v >> 64) & 0xffff_ffff_ffff_ffff) as u64 == hi,
{
    assert((v & 0xffff_ffff_ffff_ffff) as u64 == lo
        && ((v >> 64) & 0xffff_ffff_ffff_ffff) as u64 == hi) by (bit_vector)
        requires
            v == lo as u128 | (hi as u128) << 64,
    ;
}

/// Read a 128-bit value from the sixteen bytes of `buf` that start at `pos`.
pub fn dec_u128(buf: &Vec<u8>, pos: usize) -> (r: Option<(u128, usize)>)
    ensures
        match r {
            Some(p) => {
                &&& pos + 16 <= buf@.len()
                &&& p.1 == pos + 16
                &&& le16(p.0) == buf@.subrange(pos as int, pos as int + 16)
            },
            None => pos + 16 > buf@.len(),
        },
{
    let lo_r = dec_u64(buf, pos);
    match lo_r {
        None => None,
        Some((lo, p1)) => {
            match dec_u64(buf, p1) {
                None => None,
                Some((hi, p2)) => {
                    let v: u128 = lo as u128 | (hi as u128) << 64u128;
                    proof {
                        lemma_u128_of_words(lo, hi, v);
                        assert(le16(v) =~= buf@.subrange(pos as int, pos as int + 16));
                    }
                    Some((v, p2))
                },
            }
        },
    }
}

/// Append every byte of `v` to `out`.
pub fn push_all(out: &mut Vec<u8>, v: &Vec<u8>)
    ensures
        final(out)@ == old(out)@ + v@,
{
    let n = v.len();
    for i in 0..n
        invariant
            n == v@.len(),
            out@ == old(out)@ + v@.take(i as int),
    {
        out.push(v[i]);
        proof {
            assert(v@.take(i as int + 1) =~= v@.take(i as int).push(v@[i as int]));
        }
    }
    proof {
        assert(v@.take(n as int) =~= v@);
    }
}

/// One byte holding a boolean flag.
pub open spec fn le_bool(b: bool) -> Seq<u8> {
    seq![if b { 1u8 } else { 0u8 }]
}

/// Append the flag byte of `b` to `out`.
pub fn enc_bool(out: &mut Vec<u8>, b: bool)
    ensures
        final(out)@ == old(out)@ + le_bool(b),
{
    out.push(if b { 1u8 } else { 0u8 });
    proof {
        assert(out@ =~= old(out)@ + le_bool(b));
    }
}

/// Read a boolean flag from the byte of `buf` at `pos`; any byte other
/// than zero or one is rejected.
pub fn dec_bool(buf: &Vec<u8>, pos: usize) -> (r: Option<(bool, usize)>)
    ensures
        match r {
            Some(p) => {
                &&& pos + 1 <= buf@.len()
                &&& p.1 == pos + 1
                &&& le_bool(p.0) == buf@.subrange(pos as int, pos as int + 1)
            },
            None => pos + 1 > buf@.len() || (pos < buf@.len() && buf@[pos as int] != 0
                && buf@[pos as int] != 1),
        },
{
    if pos >= buf.len() {
        return None;
    }
    let b = buf[pos];
    if b == 1 {
        proof {
            assert(le_bool(true) =~= buf@.subrange(pos as int, pos as int + 1));
        }
        Some((true, pos + 1))
    } else if b == 0 {
        proof {
            assert(le_bool(false) =~= buf@.subrange(pos as int, pos as int + 1));
        }
        Some((false, pos + 1))
    } else {
        None
    }
}

} // verus!
