use vstd::prelude::*;

use crate::codec::dec_bool;
use crate::codec::dec_u128;
use crate::codec::dec_u64;
use crate::codec::enc_bool;
use crate::codec::enc_u128;
use crate::codec::enc_u64;
use crate::codec::le16;
use crate::codec::le8;
use crate::codec::le_bool;
use crate::codec::push_all;
use crate::crypto::digest_bytes;
use crate::crypto::public_key_bytes;
use crate::crypto::BitDigest;
use crate::crypto::PublicKey;
use crate::status::LedgerStatus;
use crate::types::Asset;
use crate::types::AssetRecord;
use crate::types::AssetType;
use crate::types::AssetTypeCode;
use crate::types::ConfidentialMemo;
use crate::types::IssuerPublicKey;
use crate::types::Memo;
use crate::types::TxOutput;
use crate::types::TxnSID;
use crate::types::TxoSID;
use crate::types::Utxo;
use crate::umap::unique_keys;
use crate::umap::UMap;
use crate::wire::asset_enc;
use crate::wire::record_enc;

verus! {

// ---------------------------------------------------------------------
// The snapshot wire form of the global state.
// ---------------------------------------------------------------------
/// The wire form of one stored unspent output.
pub open spec fn utxo_entry_enc(e: (u128, Utxo)) -> Seq<u8> {
    le16(e.0) + record_enc(e.1.0.0)
}

/// The wire form of the stored unspent outputs, in entry order.
pub open spec fn utxo_entries_enc(s: Seq<(u128, Utxo)>) -> Seq<u8>
    decreases s.len(),
{
    if s.len() == 0 {
        Seq::empty()
    } else {
        utxo_entries_enc(s.drop_last()) + utxo_entry_enc(s.last())
    }
}

/// The wire form of one retained bitmap version.
pub open spec fn version_enc(v: (TxnSID, BitDigest)) -> Seq<u8> {
    le8(v.0.0 as u64) + v.1.bytes()
}

/// The wire form of the retained bitmap versions, in order.
pub open spec fn versions_enc(s: Seq<(TxnSID, BitDigest)>) -> Seq<u8>
    decreases s.len(),
{
    if s.len() == 0 {
        Seq::empty()
    } else {
        versions_enc(s.drop_last()) + version_enc(s.last())
    }
}

/// The wire form of one registered asset type.
pub open spec fn type_entry_enc(e: (u128, AssetType)) -> Seq<u8> {
    le16(e.0) + asset_enc(e.1.properties) + le8(e.1.units)
}

/// The wire form of the registered asset types, in entry order.
pub open spec fn type_entries_enc(s: Seq<(u128, AssetType)>) -> Seq<u8>
    decreases s.len(),
{
    if s.len() == 0 {
        Seq::empty()
    } else {
        type_entries_enc(s.drop_last()) + type_entry_enc(s.last())
    }
}

/// The wire form of one issuance watermark.
pub open spec fn num_entry_enc(e: (u128, u64)) -> Seq<u8> {
    le16(e.0) + le8(e.1)
}

/// The wire form of the issuance watermarks, in entry order.
pub open spec fn num_entries_enc(s: Seq<(u128, u64)>) -> Seq<u8>
    decreases s.len(),
{
    if s.len() == 0 {
        Seq::empty()
    } else {
        num_entries_enc(s.drop_last()) + num_entry_enc(s.last())
    }
}

/// The wire form of the four maps of the global state, each as a count and
/// its entries.
pub open spec fn status_maps_enc(st: LedgerStatus) -> Seq<u8> {
    le8(st.utxos.entries@.len() as u64) + utxo_entries_enc(st.utxos.entries@) + le8(
        st.utxo_map_versions@.len() as u64,
    ) + versions_enc(st.utxo_map_versions@) + le8(st.asset_types.entries@.len() as u64)
        + type_entries_enc(st.asset_types.entries@) + le8(st.issuance_num.entries@.len() as u64)
        + num_entries_enc(st.issuance_num.entries@)
}

/// The wire form of the counters and the chained hash.
pub open spec fn status_tail_enc(st: LedgerStatus) -> Seq<u8> {
    le8(st.next_txn.0 as u64) + le8(st.next_txo.0) + st.global_hash.bytes() + le8(
        st.global_commit_count,
    )
}

/// The snapshot wire form of the whole global state: each map as a count
/// and its entries, then the counters and the chained hash.
pub open spec fn status_enc(st: LedgerStatus) -> Seq<u8> {
    status_maps_enc(st) + status_tail_enc(st)
}

/// Two states carry the same data: entry lists, counters and hash all
/// agree, so their snapshots are byte-for-byte equal.
pub open spec fn same_status(a: LedgerStatus, b: LedgerStatus) -> bool {
    &&& a.utxos.entries@ == b.utxos.entries@
    &&& a.utxo_map_versions@ == b.utxo_map_versions@
    &&& a.asset_types.entries@ == b.asset_types.entries@
    &&& a.issuance_num.entries@ == b.issuance_num.entries@
    &&& a.next_txn == b.next_txn
    &&& a.next_txo == b.next_txo
    &&& a.global_hash == b.global_hash
    &&& a.global_commit_count == b.global_commit_count
}

// ---------------------------------------------------------------------
// Injectivity of the leaf encodings.
// ---------------------------------------------------------------------
proof fn lemma_le8_reconstruct(w: u64)
    ensures
        w == (w & 0xff) | ((w >> 8) & 0xff) << 8 | ((w >> 16) & 0xff) << 16 | ((w >> 24) & 0xff)
            << 24 | ((w >> 32) & 0xff) << 32 | ((w >> 40) & 0xff) << 40 | ((w >> 48) & 0xff) << 48
            | ((w >> 56) & 0xff) << 56,
        w & 0xff <= 0xff,
        (w >> 8) & 0xff <= 0xff,
        (w >> 16) & 0xff <= 0xff,
        (w >> 24) & 0xff <= 0xff,
        (w >> 32) & 0xff <= 0xff,
        (w >> 40) & 0xff <= 0xff,
        (w >> 48) & 0xff <= 0xff,
        (w >> 56) & 0xff <= 0xff,
{
    assert(w == (w & 0xff) | ((w >> 8) & 0xff) << 8 | ((w >> 16) & 0xff) << 16 | ((w >> 24) & 0xff)
        << 24 | ((w >> 32) & 0xff) << 32 | ((w >> 40) & 0xff) << 40 | ((w >> 48) & 0xff) << 48 | ((w
        >> 56) & 0xff) << 56 && w & 0xff <= 0xff && (w >> 8) & 0xff <= 0xff && (w >> 16) & 0xff
        <= 0xff && (w >> 24) & 0xff <= 0xff && (w >> 32) & 0xff <= 0xff && (w >> 40) & 0xff <= 0xff
        && (w >> 48) & 0xff <= 0xff && (w >> 56) & 0xff <= 0xff) by (bit_vector);
}

/// A word is pinned by its eight little-endian bytes.
pub proof fn lemma_le8_inj(a: u64, b: u64)
    requires
        le8(a) == le8(b),
    ensures
        a == b,
{
    lemma_le8_reconstruct(a);
    lemma_le8_reconstruct(b);
    assert(le8(a)[0] == le8(b)[0] && le8(a)[1] == le8(b)[1] && le8(a)[2] == le8(b)[2] && le8(a)[3]
        == le8(b)[3] && le8(a)[4] == le8(b)[4] && le8(a)[5] == le8(b)[5] && le8(a)[6] == le8(b)[6]
        && le8(a)[7] == le8(b)[7]);
}

proof fn lemma_le16_reconstruct(v: u128)
    ensures
        v == (v & 0xffff_ffff_ffff_ffff) | ((v >> 64) & 0xffff_ffff_ffff_ffff) << 64,
{
    assert(v == (v & 0xffff_ffff_ffff_ffff) | ((v >> 64) & 0xffff_ffff_ffff_ffff) << 64)
        by (bit_vector);
}

/// A 128-bit value is pinned by its sixteen little-endian bytes.
pub proof fn lemma_le16_inj(a: u128, b: u128)
    requires
        le16(a) == le16(b),
    ensures
        a == b,
{
    let la = (a & 0xffff_ffff_ffff_ffff) as u64;
    let ha = ((a >> 64) & 0xffff_ffff_ffff_ffff) as u64;
    let lb = (b & 0xffff_ffff_ffff_ffff) as u64;
    let hb = ((b >> 64) & 0xffff_ffff_ffff_ffff) as u64;
    assert(le8(la) =~= le16(a).take(8));
    assert(le8(ha) =~= le16(a).skip(8));
    assert(le8(lb) =~= le16(b).take(8));
    assert(le8(hb) =~= le16(b).skip(8));
    lemma_le8_inj(la, lb);
    lemma_le8_inj(ha, hb);
    lemma_le16_reconstruct(a);
    lemma_le16_reconstruct(b);
    assert(a == b) by (bit_vector)
        requires
            (a & 0xffff_ffff_ffff_ffff) as u64 == (b & 0xffff_ffff_ffff_ffff) as u64,
            ((a >> 64) & 0xffff_ffff_ffff_ffff) as u64 == ((b >> 64) & 0xffff_ffff_ffff_ffff)
                as u64,
    ;
}

/// A public key is pinned by its 32 bytes.
pub proof fn lemma_key_bytes_inj(a: PublicKey, b: PublicKey)
    requires
        a.bytes() == b.bytes(),
    ensures
        a == b,
{
    assert(le8(a.w0) =~= a.bytes().subrange(0, 8));
    assert(le8(a.w1) =~= a.bytes().subrange(8, 16));
    assert(le8(a.w2) =~= a.bytes().subrange(16, 24));
    assert(le8(a.w3) =~= a.bytes().subrange(24, 32));
    assert(le8(b.w0) =~= b.bytes().subrange(0, 8));
    assert(le8(b.w1) =~= b.bytes().subrange(8, 16));
    assert(le8(b.w2) =~= b.bytes().subrange(16, 24));
    assert(le8(b.w3) =~= b.bytes().subrange(24, 32));
    lemma_le8_inj(a.w0, b.w0);
    lemma_le8_inj(a.w1, b.w1);
    lemma_le8_inj(a.w2, b.w2);
    lemma_le8_inj(a.w3, b.w3);
}

/// A digest is pinned by its 32 bytes.
pub proof fn lemma_digest_bytes_inj(a: BitDigest, b: BitDigest)
    requires
        a.bytes() == b.bytes(),
    ensures
        a == b,
{
    assert(le8(a.w0) =~= a.bytes().subrange(0, 8));
    assert(le8(a.w1) =~= a.bytes().subrange(8, 16));
    assert(le8(a.w2) =~= a.bytes().subrange(16, 24));
    assert(le8(a.w3) =~= a.bytes().subrange(24, 32));
    assert(le8(b.w0) =~= b.bytes().subrange(0, 8));
    assert(le8(b.w1) =~= b.bytes().subrange(8, 16));
    assert(le8(b.w2) =~= b.bytes().subrange(16, 24));
    assert(le8(b.w3) =~= b.bytes().subrange(24, 32));
    lemma_le8_inj(a.w0, b.w0);
    lemma_le8_inj(a.w1, b.w1);
    lemma_le8_inj(a.w2, b.w2);
    lemma_le8_inj(a.w3, b.w3);
}

/// A record is pinned by its wire form.
pub proof fn lemma_record_enc_inj(a: AssetRecord, b: AssetRecord)
    requires
        record_enc(a) == record_enc(b),
    ensures
        a == b,
{
    assert(le8(a.amount) =~= record_enc(a).subrange(0, 8));
    assert(le16(a.code.val) =~= record_enc(a).subrange(8, 24));
    assert(a.owner.bytes() =~= record_enc(a).subrange(24, 56));
    assert(le8(b.amount) =~= record_enc(b).subrange(0, 8));
    assert(le16(b.code.val) =~= record_enc(b).subrange(8, 24));
    assert(b.owner.bytes() =~= record_enc(b).subrange(24, 56));
    lemma_le8_inj(a.amount, b.amount);
    lemma_le16_inj(a.code.val, b.code.val);
    lemma_key_bytes_inj(a.owner, b.owner);
}

/// If the bytes of `buf` starting at `pos` spell `a + b`, then `a` and
/// `b` each sit at their own offsets.
pub proof fn lemma_concat_extract(buf: Seq<u8>, pos: int, a: Seq<u8>, b: Seq<u8>)
    requires
        0 <= pos,
        pos + a.len() + b.len() <= buf.len(),
        buf.subrange(pos, pos + a.len() + b.len()) == a + b,
    ensures
        buf.subrange(pos, pos + a.len()) == a,
        buf.subrange(pos + a.len(), pos + a.len() + b.len()) == b,
{
    assert forall|i: int| 0 <= i < a.len() implies buf[pos + i] == a[i] by {
        assert((a + b)[i] == a[i]);
        assert(buf.subrange(pos, pos + a.len() + b.len())[i] == buf[pos + i]);
        assert(buf.subrange(pos, pos + a.len() + b.len())[i] == (a + b)[i]);
    }
    assert(buf.subrange(pos, pos + a.len()) =~= a);
    assert forall|i: int| 0 <= i < b.len() implies buf[pos + a.len() + i] == b[i] by {
        assert((a + b)[a.len() + i] == b[i]);
        assert(buf.subrange(pos, pos + a.len() + b.len())[a.len() + i] == buf[pos + a.len() + i]);
        assert(buf.subrange(pos, pos + a.len() + b.len())[a.len() + i] == (a + b)[a.len() + i]);
    }
    assert(buf.subrange(pos + a.len(), pos + a.len() + b.len()) =~= b);
}

// ---------------------------------------------------------------------
// Leaf decoders.
// ---------------------------------------------------------------------
/// Read a 32-byte digest starting at `pos`.
pub(crate) fn dec_digest(buf: &Vec<u8>, pos: usize) -> (r: Option<(BitDigest, usize)>)
    ensures
        match r {
            Some(p) => {
                &&& pos + 32 <= buf@.len()
                &&& p.1 == pos + 32
                &&& p.0.bytes() == buf@.subrange(pos as int, pos as int + 32)
            },
            None => pos + 32 > buf@.len(),
        },
{
    let r0 = dec_u64(buf, pos);
    let w0 = match r0 {
        None => {
            return None;
        },
        Some(p) => p.0,
    };
    if buf.len() - (pos + 8) < 24 {
        return None;
    }
    let w1 = dec_u64(buf, pos + 8).unwrap().0;
    let w2 = dec_u64(buf, pos + 16).unwrap().0;
    let w3 = dec_u64(buf, pos + 24).unwrap().0;
    let d = BitDigest { w0, w1, w2, w3 };
    proof {
        assert(d.bytes() =~= buf@.subrange(pos as int, pos as int + 32));
    }
    Some((d, pos + 32))
}

/// Read a 32-byte public key starting at `pos`.
pub(crate) fn dec_public_key(buf: &Vec<u8>, pos: usize) -> (r: Option<(PublicKey, usize)>)
    ensures
        match r {
            Some(p) => {
                &&& pos + 32 <= buf@.len()
                &&& p.1 == pos + 32
                &&& p.0.bytes() == buf@.subrange(pos as int, pos as int + 32)
            },
            None => pos + 32 > buf@.len(),
        },
{
    let r0 = dec_u64(buf, pos);
    let w0 = match r0 {
        None => {
            return None;
        },
        Some(p) => p.0,
    };
    if buf.len() - (pos + 8) < 24 {
        return None;
    }
    let w1 = dec_u64(buf, pos + 8).unwrap().0;
    let w2 = dec_u64(buf, pos + 16).unwrap().0;
    let w3 = dec_u64(buf, pos + 24).unwrap().0;
    let k = PublicKey { w0, w1, w2, w3 };
    proof {
        assert(k.bytes() =~= buf@.subrange(pos as int, pos as int + 32));
    }
    Some((k, pos + 32))
}

/// Read one record starting at `pos`.
pub(crate) fn dec_record(buf: &Vec<u8>, pos: usize) -> (r: Option<(AssetRecord, usize)>)
    ensures
        match r {
            Some(p) => {
                &&& pos + 56 <= buf@.len()
                &&& p.1 == pos + 56
                &&& record_enc(p.0) == buf@.subrange(pos as int, pos as int + 56)
            },
            None => pos + 56 > buf@.len(),
        },
{
    let amount = match dec_u64(buf, pos) {
        None => {
            return None;
        },
        Some(p) => p.0,
    };
    if buf.len() - (pos + 8) < 48 {
        return None;
    }
    let code = dec_u128(buf, pos + 8).unwrap().0;
    let owner = dec_public_key(buf, pos + 24).unwrap().0;
    let rec = AssetRecord { amount, code: AssetTypeCode { val: code }, owner };
    proof {
        assert(record_enc(rec) =~= buf@.subrange(pos as int, pos as int + 56));
    }
    Some((rec, pos + 56))
}

// ---------------------------------------------------------------------
// Entry decoders, each pinned to an expected entry when one is given.
// ---------------------------------------------------------------------
/// Read one stored unspent output. When the caller knows which entry the
/// bytes hold, the decoder is proven to return exactly that entry.
fn dec_utxo_entry(buf: &Vec<u8>, pos: usize, Ghost(exp): Ghost<Option<(u128, Utxo)>>) -> (r:
    Option<((u128, Utxo), usize)>)
    requires
        exp matches Some(e) ==> pos + 72 <= buf@.len() && buf@.subrange(
            pos as int,
            pos as int + 72,
        ) == utxo_entry_enc(e),
    ensures
        match r {
            Some(p) => {
                &&& pos + 72 <= buf@.len()
                &&& p.1 == pos + 72
                &&& utxo_entry_enc(p.0) == buf@.subrange(pos as int, pos as int + 72)
            },
            None => exp is None,
        },
        exp matches Some(e) ==> r == Some::<((u128, Utxo), usize)>((e, (pos + 72) as usize)),
{
    let k = match dec_u128(buf, pos) {
        None => {
            proof {
                if exp is Some {
                    assert(false);
                }
            }
            return None;
        },
        Some(p) => p.0,
    };
    if buf.len() - (pos + 16) < 56 {
        proof {
            if exp is Some {
                assert(false);
            }
        }
        return None;
    }
    let rec = dec_record(buf, pos + 16).unwrap().0;
    let e2 = (k, Utxo(TxOutput(rec)));
    proof {
        assert(utxo_entry_enc(e2) =~= buf@.subrange(pos as int, pos as int + 72));
        if let Some(e) = exp {
            assert(le16(e.0).len() == 16);
            assert(e.1.0.0.owner.bytes().len() == 32);
            assert(record_enc(e.1.0.0).len() == 56);
            lemma_concat_extract(buf@, pos as int, le16(e.0), record_enc(e.1.0.0));
            lemma_le16_inj(k, e.0);
            lemma_record_enc_inj(rec, e.1.0.0);
        }
    }
    Some((e2, pos + 72))
}

/// Read one retained bitmap version.
fn dec_version(buf: &Vec<u8>, pos: usize, Ghost(exp): Ghost<Option<(TxnSID, BitDigest)>>) -> (r:
    Option<((TxnSID, BitDigest), usize)>)
    requires
        exp matches Some(e) ==> pos + 40 <= buf@.len() && buf@.subrange(
            pos as int,
            pos as int + 40,
        ) == version_enc(e),
    ensures
        match r {
            Some(p) => {
                &&& pos + 40 <= buf@.len()
                &&& p.1 == pos + 40
                &&& version_enc(p.0) == buf@.subrange(pos as int, pos as int + 40)
            },
            None => exp is None,
        },
        exp matches Some(e) ==> r == Some::<((TxnSID, BitDigest), usize)>((e, (pos + 40) as usize)),
{
    let sid = match dec_u64(buf, pos) {
        None => {
            proof {
                if exp is Some {
                    assert(false);
                }
            }
            return None;
        },
        Some(p) => p.0,
    };
    if buf.len() - (pos + 8) < 32 {
        proof {
            if exp is Some {
                assert(false);
            }
        }
        return None;
    }
    let d = dec_digest(buf, pos + 8).unwrap().0;
    if sid > usize::MAX as u64 {
        proof {
            if let Some(e) = exp {
                assert(le8(e.0.0 as u64).len() == 8);
                assert(e.1.bytes().len() == 32);
                lemma_concat_extract(buf@, pos as int, le8(e.0.0 as u64), e.1.bytes());
                lemma_le8_inj(sid, e.0.0 as u64);
            }
        }
        return None;
    }
    let e2 = (TxnSID(sid as usize), d);
    proof {
        assert(version_enc(e2) =~= buf@.subrange(pos as int, pos as int + 40));
        if let Some(e) = exp {
            assert(le8(e.0.0 as u64).len() == 8);
            assert(e.1.bytes().len() == 32);
            lemma_concat_extract(buf@, pos as int, le8(e.0.0 as u64), e.1.bytes());
            lemma_le8_inj(sid, e.0.0 as u64);
            lemma_digest_bytes_inj(d, e.1);
        }
    }
    Some((e2, pos + 40))
}

/// Where each field of a stored asset type sits within its 74 bytes.
proof fn lemma_type_entry_parts(buf: Seq<u8>, pos: int, e: (u128, AssetType))
    requires
        0 <= pos,
        pos + 74 <= buf.len(),
        buf.subrange(pos, pos + 74) == type_entry_enc(e),
    ensures
        buf.subrange(pos, pos + 16) == le16(e.0),
        buf.subrange(pos + 16, pos + 32) == le16(e.1.properties.code.val),
        buf.subrange(pos + 32, pos + 64) == e.1.properties.issuer.key.bytes(),
        buf.subrange(pos + 64, pos + 65) == le_bool(e.1.properties.updatable),
        buf.subrange(pos + 65, pos + 66) == le_bool(e.1.properties.traceable),
        buf.subrange(pos + 66, pos + 74) == le8(e.1.units),
{
    let a = e.1.properties;
    assert(le16(e.0).len() == 16);
    assert(le16(a.code.val).len() == 16);
    assert(a.issuer.key.bytes().len() == 32);
    assert(le8(e.1.units).len() == 8);
    lemma_concat_extract(buf, pos, le16(e.0) + asset_enc(a), le8(e.1.units));
    lemma_concat_extract(buf, pos, le16(e.0), asset_enc(a));
    lemma_concat_extract(
        buf,
        pos + 16,
        le16(a.code.val) + a.issuer.key.bytes() + le_bool(a.updatable),
        le_bool(a.traceable),
    );
    lemma_concat_extract(
        buf,
        pos + 16,
        le16(a.code.val) + a.issuer.key.bytes(),
        le_bool(a.updatable),
    );
    lemma_concat_extract(buf, pos + 16, le16(a.code.val), a.issuer.key.bytes());
}

/// Read one registered asset type.
#[verifier::rlimit(100)]
fn dec_type_entry(buf: &Vec<u8>, pos: usize, Ghost(exp): Ghost<Option<(u128, AssetType)>>) -> (r:
    Option<((u128, AssetType), usize)>)
    requires
        exp matches Some(e) ==> pos + 74 <= buf@.len() && buf@.subrange(
            pos as int,
            pos as int + 74,
        ) == type_entry_enc(e),
    ensures
        match r {
            Some(p) => {
                &&& pos + 74 <= buf@.len()
                &&& p.1 == pos + 74
                &&& type_entry_enc(p.0) == buf@.subrange(pos as int, pos as int + 74)
            },
            None => exp is None,
        },
        exp matches Some(e) ==> r == Some::<((u128, AssetType), usize)>((e, (pos + 74) as usize)),
{
    let k = match dec_u128(buf, pos) {
        None => {
            proof {
                if exp is Some {
                    assert(false);
                }
            }
            return None;
        },
        Some(p) => p.0,
    };
    if buf.len() - (pos + 16) < 58 {
        proof {
            if exp is Some {
                assert(false);
            }
        }
        return None;
    }
    let code = dec_u128(buf, pos + 16).unwrap().0;
    let issuer = dec_public_key(buf, pos + 32).unwrap().0;
    let updatable = match dec_bool(buf, pos + 64) {
        None => {
            proof {
                if let Some(e) = exp {
                    lemma_type_entry_parts(buf@, pos as int, e);
                    assert(buf@.subrange(pos as int + 64, pos as int + 65)[0] == buf@[pos as int
                        + 64]);
                    assert(buf@[pos as int + 64] == le_bool(e.1.properties.updatable)[0]);
                    assert(false);
                }
            }
            return None;
        },
        Some(p) => p.0,
    };
    let traceable = match dec_bool(buf, pos + 65) {
        None => {
            proof {
                if let Some(e) = exp {
                    lemma_type_entry_parts(buf@, pos as int, e);
                    assert(buf@.subrange(pos as int + 65, pos as int + 66)[0] == buf@[pos as int
                        + 65]);
                    assert(buf@[pos as int + 65] == le_bool(e.1.properties.traceable)[0]);
                    assert(false);
                }
            }
            return None;
        },
        Some(p) => p.0,
    };
    let units = dec_u64(buf, pos + 66).unwrap().0;
    let t = AssetType {
        properties: Asset {
            code: AssetTypeCode { val: code },
            issuer: IssuerPublicKey { key: issuer },
            updatable,
            traceable,
            memo: Memo {  },
            confidential_memo: ConfidentialMemo {  },
        },
        units,
    };
    let e2 = (k, t);
    proof {
        assert(type_entry_enc(e2) =~= buf@.subrange(pos as int, pos as int + 74));
        if let Some(e) = exp {
            lemma_type_entry_parts(buf@, pos as int, e);
            lemma_le16_inj(k, e.0);
            lemma_le16_inj(code, e.1.properties.code.val);
            lemma_key_bytes_inj(issuer, e.1.properties.issuer.key);
            lemma_le8_inj(units, e.1.units);
            assert(le_bool(updatable)[0] == le_bool(e.1.properties.updatable)[0]);
            assert(updatable == e.1.properties.updatable);
            assert(le_bool(traceable)[0] == le_bool(e.1.properties.traceable)[0]);
            assert(traceable == e.1.properties.traceable);
        }
    }
    Some((e2, pos + 74))
}

/// Read one issuance watermark.
fn dec_num_entry(buf: &Vec<u8>, pos: usize, Ghost(exp): Ghost<Option<(u128, u64)>>) -> (r: Option<
    ((u128, u64), usize),
>)
    requires
        exp matches Some(e) ==> pos + 24 <= buf@.len() && buf@.subrange(
            pos as int,
            pos as int + 24,
        ) == num_entry_enc(e),
    ensures
        match r {
            Some(p) => {
                &&& pos + 24 <= buf@.len()
                &&& p.1 == pos + 24
                &&& num_entry_enc(p.0) == buf@.subrange(pos as int, pos as int + 24)
            },
            None => exp is None,
        },
        exp matches Some(e) ==> r == Some::<((u128, u64), usize)>((e, (pos + 24) as usize)),
{
    let k = match dec_u128(buf, pos) {
        None => {
            proof {
                if exp is Some {
                    assert(false);
                }
            }
            return None;
        },
        Some(p) => p.0,
    };
    if buf.len() - (pos + 16) < 8 {
        proof {
            if exp is Some {
                assert(false);
            }
        }
        return None;
    }
    let w = dec_u64(buf, pos + 16).unwrap().0;
    let e2 = (k, w);
    proof {
        assert(num_entry_enc(e2) =~= buf@.subrange(pos as int, pos as int + 24));
        if let Some(e) = exp {
            assert(le16(e.0).len() == 16);
            assert(le8(e.1).len() == 8);
            lemma_concat_extract(buf@, pos as int, le16(e.0), le8(e.1));
            lemma_le16_inj(k, e.0);
            lemma_le8_inj(w, e.1);
        }
    }
    Some((e2, pos + 24))
}


proof fn lemma_utxo_entries_cons(s: Seq<(u128, Utxo)>)
    requires
        s.len() > 0,
    ensures
        utxo_entries_enc(s) == utxo_entry_enc(s.first()) + utxo_entries_enc(s.drop_first()),
    decreases s.len(),
{
    if s.len() == 1 {
        assert(s.drop_last() =~= Seq::<(u128, Utxo)>::empty());
        assert(s.drop_first() =~= Seq::<(u128, Utxo)>::empty());
        assert(s.last() == s.first());
        assert(utxo_entries_enc(s) =~= utxo_entry_enc(s.first()) + utxo_entries_enc(s.drop_first()));
    } else {
        lemma_utxo_entries_cons(s.drop_last());
        assert(s.drop_last().first() == s.first());
        assert(s.drop_first().drop_last() =~= s.drop_last().drop_first());
        assert(s.drop_first().last() == s.last());
        assert(utxo_entries_enc(s) =~= utxo_entry_enc(s.first()) + utxo_entries_enc(s.drop_first()));
    }
}

/// Read `count` stored unspent outputs, pinned to the expected list when one is given.
#[verifier::loop_isolation(false)]
#[verifier::rlimit(100)]
fn dec_utxo_entries(buf: &Vec<u8>, pos: usize, count: u64, Ghost(exp): Ghost<Option<Seq<(u128, Utxo)>>>) -> (r:
    Option<(Vec<(u128, Utxo)>, usize)>)
    requires
        exp matches Some(s) ==> {
            &&& unique_keys(s)
            &&& s.len() == count
            &&& pos + utxo_entries_enc(s).len() <= buf@.len()
            &&& buf@.subrange(pos as int, pos + utxo_entries_enc(s).len()) == utxo_entries_enc(s)
        },
    ensures
        match r {
            Some(p) => {
                &&& unique_keys(p.0@)
                &&& p.0@.len() == count
                &&& pos <= p.1 <= buf@.len()
                &&& buf@.subrange(pos as int, p.1 as int) == utxo_entries_enc(p.0@)
            },
            None => exp is None,
        },
        exp matches Some(s) ==> (r matches Some(p) && p.0@ == s && p.1 == pos + utxo_entries_enc(s).len()),
{
    let mut entries: Vec<(u128, Utxo)> = Vec::new();
    if pos > buf.len() {
        return None;
    }
    let mut p: usize = pos;
    let mut i: u64 = 0;
    proof {
        assert(utxo_entries_enc(entries@) =~= Seq::<u8>::empty());
        assert(buf@.subrange(pos as int, pos as int) =~= Seq::<u8>::empty());
        if let Some(s) = exp {
            assert(s.skip(0) =~= s);
            assert(s.take(0) =~= Seq::<(u128, Utxo)>::empty());
        }
    }
    while i < count
        invariant
            i <= count,
            entries@.len() == i as int,
            unique_keys(entries@),
            pos <= p <= buf@.len(),
            buf@.subrange(pos as int, p as int) == utxo_entries_enc(entries@),
            exp matches Some(s) ==> {
                &&& entries@ == s.take(i as int)
                &&& p <= pos + utxo_entries_enc(s).len()
                &&& buf@.subrange(p as int, pos + utxo_entries_enc(s).len()) == utxo_entries_enc(s.skip(i as int))
            },
        decreases count - i,
    {
        let ghost gexp_entry: Option<(u128, Utxo)> = match exp {
            Some(s) => Some(s[i as int]),
            None => None,
        };
        proof {
            if let Some(s) = exp {
                lemma_utxo_entries_cons(s.skip(i as int));
                assert(s.skip(i as int).first() == s[i as int]);
                assert(s.skip(i as int).drop_first() =~= s.skip(i as int + 1));
                assert(pos + utxo_entries_enc(s).len() == p + utxo_entry_enc(s[i as int]).len() + utxo_entries_enc(
                    s.skip(i as int + 1),
                ).len());
                lemma_concat_extract(
                    buf@,
                    p as int,
                    utxo_entry_enc(s[i as int]),
                    utxo_entries_enc(s.skip(i as int + 1)),
                );
            }
        }
        let e = match dec_utxo_entry(buf, p, Ghost(gexp_entry)) {
            None => {
                return None;
            },
            Some(q) => q,
        };
        if crate::umap::entries_contain(&entries, e.0.0) {
            proof {
                if let Some(s) = exp {
                    let j = choose|j: int| 0 <= j < entries@.len() && (#[trigger] entries@[j]).0
                        == e.0.0;
                    assert(s[j].0 == s[i as int].0);
                    assert(false);
                }
            }
            return None;
        }
        let ghost entries_pre = entries@;
        entries.push(e.0);
        proof {
            assert(entries@.drop_last() =~= entries_pre);
            assert(buf@.subrange(pos as int, e.1 as int) =~= buf@.subrange(pos as int, p as int)
                + buf@.subrange(p as int, e.1 as int));
            assert forall|a: int, b: int|
                0 <= a < b < entries@.len() implies (#[trigger] entries@[a]).0 != (
            #[trigger] entries@[b]).0 by {
                if b < entries@.len() - 1 {
                    assert(entries@[a] == entries_pre[a] && entries@[b] == entries_pre[b]);
                } else {
                    assert(entries@[a] == entries_pre[a]);
                }
            }
            if let Some(s) = exp {
                assert(entries@ =~= s.take(i as int + 1));
            }
        }
        p = e.1;
        i = i + 1;
    }
    proof {
        if let Some(s) = exp {
            assert(s.take(count as int) =~= s);
            assert(s.skip(count as int) =~= Seq::<(u128, Utxo)>::empty());
            assert(utxo_entries_enc(s.skip(count as int)).len() == 0);
        }
    }
    Some((entries, p))
}

proof fn lemma_versions_cons(s: Seq<(TxnSID, BitDigest)>)
    requires
        s.len() > 0,
    ensures
        versions_enc(s) == version_enc(s.first()) + versions_enc(s.drop_first()),
    decreases s.len(),
{
    if s.len() == 1 {
        assert(s.drop_last() =~= Seq::<(TxnSID, BitDigest)>::empty());
        assert(s.drop_first() =~= Seq::<(TxnSID, BitDigest)>::empty());
        assert(s.last() == s.first());
        assert(versions_enc(s) =~= version_enc(s.first()) + versions_enc(s.drop_first()));
    } else {
        lemma_versions_cons(s.drop_last());
        assert(s.drop_last().first() == s.first());
        assert(s.drop_first().drop_last() =~= s.drop_last().drop_first());
        assert(s.drop_first().last() == s.last());
        assert(versions_enc(s) =~= version_enc(s.first()) + versions_enc(s.drop_first()));
    }
}

/// Read `count` retained bitmap versions, pinned to the expected list when one is given.
#[verifier::loop_isolation(false)]
#[verifier::rlimit(100)]
fn dec_versions(buf: &Vec<u8>, pos: usize, count: u64, Ghost(exp): Ghost<Option<Seq<(TxnSID, BitDigest)>>>) -> (r:
    Option<(Vec<(TxnSID, BitDigest)>, usize)>)
    requires
        exp matches Some(s) ==> {
            &&& true
            &&& s.len() == count
            &&& pos + versions_enc(s).len() <= buf@.len()
            &&& buf@.subrange(pos as int, pos + versions_enc(s).len()) == versions_enc(s)
        },
    ensures
        match r {
            Some(p) => {
                &&& true
                &&& p.0@.len() == count
                &&& pos <= p.1 <= buf@.len()
                &&& buf@.subrange(pos as int, p.1 as int) == versions_enc(p.0@)
            },
            None => exp is None,
        },
        exp matches Some(s) ==> (r matches Some(p) && p.0@ == s && p.1 == pos + versions_enc(s).len()),
{
    let mut entries: Vec<(TxnSID, BitDigest)> = Vec::new();
    if pos > buf.len() {
        return None;
    }
    let mut p: usize = pos;
    let mut i: u64 = 0;
    proof {
        assert(versions_enc(entries@) =~= Seq::<u8>::empty());
        assert(buf@.subrange(pos as int, pos as int) =~= Seq::<u8>::empty());
        if let Some(s) = exp {
            assert(s.skip(0) =~= s);
            assert(s.take(0) =~= Seq::<(TxnSID, BitDigest)>::empty());
        }
    }
    while i < count
        invariant
            i <= count,
            entries@.len() == i as int,
            
            pos <= p <= buf@.len(),
            buf@.subrange(pos as int, p as int) == versions_enc(entries@),
            exp matches Some(s) ==> {
                &&& entries@ == s.take(i as int)
                &&& p <= pos + versions_enc(s).len()
                &&& buf@.subrange(p as int, pos + versions_enc(s).len()) == versions_enc(s.skip(i as int))
            },
        decreases count - i,
    {
        let ghost gexp_entry: Option<(TxnSID, BitDigest)> = match exp {
            Some(s) => Some(s[i as int]),
            None => None,
        };
        proof {
            if let Some(s) = exp {
                lemma_versions_cons(s.skip(i as int));
                assert(s.skip(i as int).first() == s[i as int]);
                assert(s.skip(i as int).drop_first() =~= s.skip(i as int + 1));
                assert(pos + versions_enc(s).len() == p + version_enc(s[i as int]).len() + versions_enc(
                    s.skip(i as int + 1),
                ).len());
                lemma_concat_extract(
                    buf@,
                    p as int,
                    version_enc(s[i as int]),
                    versions_enc(s.skip(i as int + 1)),
                );
            }
        }
        let e = match dec_version(buf, p, Ghost(gexp_entry)) {
            None => {
                return None;
            },
            Some(q) => q,
        };

        let ghost entries_pre = entries@;
        entries.push(e.0);
        proof {
            assert(entries@.drop_last() =~= entries_pre);
            assert(buf@.subrange(pos as int, e.1 as int) =~= buf@.subrange(pos as int, p as int)
                + buf@.subrange(p as int, e.1 as int));

            if let Some(s) = exp {
                assert(entries@ =~= s.take(i as int + 1));
            }
        }
        p = e.1;
        i = i + 1;
    }
    proof {
        if let Some(s) = exp {
            assert(s.take(count as int) =~= s);
            assert(s.skip(count as int) =~= Seq::<(TxnSID, BitDigest)>::empty());
            assert(versions_enc(s.skip(count as int)).len() == 0);
        }
    }
    Some((entries, p))
}

proof fn lemma_type_entries_cons(s: Seq<(u128, AssetType)>)
    requires
        s.len() > 0,
    ensures
        type_entries_enc(s) == type_entry_enc(s.first()) + type_entries_enc(s.drop_first()),
    decreases s.len(),
{
    if s.len() == 1 {
        assert(s.drop_last() =~= Seq::<(u128, AssetType)>::empty());
        assert(s.drop_first() =~= Seq::<(u128, AssetType)>::empty());
        assert(s.last() == s.first());
        assert(type_entries_enc(s) =~= type_entry_enc(s.first()) + type_entries_enc(s.drop_first()));
    } else {
        lemma_type_entries_cons(s.drop_last());
        assert(s.drop_last().first() == s.first());
        assert(s.drop_first().drop_last() =~= s.drop_last().drop_first());
        assert(s.drop_first().last() == s.last());
        assert(type_entries_enc(s) =~= type_entry_enc(s.first()) + type_entries_enc(s.drop_first()));
    }
}

/// Read `count` registered asset types, pinned to the expected list when one is given.
#[verifier::loop_isolation(false)]
#[verifier::rlimit(100)]
fn dec_type_entries(buf: &Vec<u8>, pos: usize, count: u64, Ghost(exp): Ghost<Option<Seq<(u128, AssetType)>>>) -> (r:
    Option<(Vec<(u128, AssetType)>, usize)>)
    requires
        exp matches Some(s) ==> {
            &&& unique_keys(s)
            &&& s.len() == count
            &&& pos + type_entries_enc(s).len() <= buf@.len()
            &&& buf@.subrange(pos as int, pos + type_entries_enc(s).len()) == type_entries_enc(s)
        },
    ensures
        match r {
            Some(p) => {
                &&& unique_keys(p.0@)
                &&& p.0@.len() == count
                &&& pos <= p.1 <= buf@.len()
                &&& buf@.subrange(pos as int, p.1 as int) == type_entries_enc(p.0@)
            },
            None => exp is None,
        },
        exp matches Some(s) ==> (r matches Some(p) && p.0@ == s && p.1 == pos + type_entries_enc(s).len()),
{
    let mut entries: Vec<(u128, AssetType)> = Vec::new();
    if pos > buf.len() {
        return None;
    }
    let mut p: usize = pos;
    let mut i: u64 = 0;
    proof {
        assert(type_entries_enc(entries@) =~= Seq::<u8>::empty());
        assert(buf@.subrange(pos as int, pos as int) =~= Seq::<u8>::empty());
        if let Some(s) = exp {
            assert(s.skip(0) =~= s);
            assert(s.take(0) =~= Seq::<(u128, AssetType)>::empty());
        }
    }
    while i < count
        invariant
            i <= count,
            entries@.len() == i as int,
            unique_keys(entries@),
            pos <= p <= buf@.len(),
            buf@.subrange(pos as int, p as int) == type_entries_enc(entries@),
            exp matches Some(s) ==> {
                &&& entries@ == s.take(i as int)
                &&& p <= pos + type_entries_enc(s).len()
                &&& buf@.subrange(p as int, pos + type_entries_enc(s).len()) == type_entries_enc(s.skip(i as int))
            },
        decreases count - i,
    {
        let ghost gexp_entry: Option<(u128, AssetType)> = match exp {
            Some(s) => Some(s[i as int]),
            None => None,
        };
        proof {
            if let Some(s) = exp {
                lemma_type_entries_cons(s.skip(i as int));
                assert(s.skip(i as int).first() == s[i as int]);
                assert(s.skip(i as int).drop_first() =~= s.skip(i as int + 1));
                assert(pos + type_entries_enc(s).len() == p + type_entry_enc(s[i as int]).len() + type_entries_enc(
                    s.skip(i as int + 1),
                ).len());
                lemma_concat_extract(
                    buf@,
                    p as int,
                    type_entry_enc(s[i as int]),
                    type_entries_enc(s.skip(i as int + 1)),
                );
            }
        }
        let e = match dec_type_entry(buf, p, Ghost(gexp_entry)) {
            None => {
                return None;
            },
            Some(q) => q,
        };
        if crate::umap::entries_contain(&entries, e.0.0) {
            proof {
                if let Some(s) = exp {
                    let j = choose|j: int| 0 <= j < entries@.len() && (#[trigger] entries@[j]).0
                        == e.0.0;
                    assert(s[j].0 == s[i as int].0);
                    assert(false);
                }
            }
            return None;
        }
        let ghost entries_pre = entries@;
        entries.push(e.0);
        proof {
            assert(entries@.drop_last() =~= entries_pre);
            assert(buf@.subrange(pos as int, e.1 as int) =~= buf@.subrange(pos as int, p as int)
                + buf@.subrange(p as int, e.1 as int));
            assert forall|a: int, b: int|
                0 <= a < b < entries@.len() implies (#[trigger] entries@[a]).0 != (
            #[trigger] entries@[b]).0 by {
                if b < entries@.len() - 1 {
                    assert(entries@[a] == entries_pre[a] && entries@[b] == entries_pre[b]);
                } else {
                    assert(entries@[a] == entries_pre[a]);
                }
            }
            if let Some(s) = exp {
                assert(entries@ =~= s.take(i as int + 1));
            }
        }
        p = e.1;
        i = i + 1;
    }
    proof {
        if let Some(s) = exp {
            assert(s.take(count as int) =~= s);
            assert(s.skip(count as int) =~= Seq::<(u128, AssetType)>::empty());
            assert(type_entries_enc(s.skip(count as int)).len() == 0);
        }
    }
    Some((entries, p))
}

proof fn lemma_num_entries_cons(s: Seq<(u128, u64)>)
    requires
        s.len() > 0,
    ensures
        num_entries_enc(s) == num_entry_enc(s.first()) + num_entries_enc(s.drop_first()),
    decreases s.len(),
{
    if s.len() == 1 {
        assert(s.drop_last() =~= Seq::<(u128, u64)>::empty());
        assert(s.drop_first() =~= Seq::<(u128, u64)>::empty());
        assert(s.last() == s.first());
        assert(num_entries_enc(s) =~= num_entry_enc(s.first()) + num_entries_enc(s.drop_first()));
    } else {
        lemma_num_entries_cons(s.drop_last());
        assert(s.drop_last().first() == s.first());
        assert(s.drop_first().drop_last() =~= s.drop_last().drop_first());
        assert(s.drop_first().last() == s.last());
        assert(num_entries_enc(s) =~= num_entry_enc(s.first()) + num_entries_enc(s.drop_first()));
    }
}

/// Read `count` issuance watermarks, pinned to the expected list when one is given.
#[verifier::loop_isolation(false)]
#[verifier::rlimit(100)]
fn dec_num_entries(buf: &Vec<u8>, pos: usize, count: u64, Ghost(exp): Ghost<Option<Seq<(u128, u64)>>>) -> (r:
    Option<(Vec<(u128, u64)>, usize)>)
    requires
        exp matches Some(s) ==> {
            &&& unique_keys(s)
            &&& s.len() == count
            &&& pos + num_entries_enc(s).len() <= buf@.len()
            &&& buf@.subrange(pos as int, pos + num_entries_enc(s).len()) == num_entries_enc(s)
        },
    ensures
        match r {
            Some(p) => {
                &&& unique_keys(p.0@)
                &&& p.0@.len() == count
                &&& pos <= p.1 <= buf@.len()
                &&& buf@.subrange(pos as int, p.1 as int) == num_entries_enc(p.0@)
            },
            None => exp is None,
        },
        exp matches Some(s) ==> (r matches Some(p) && p.0@ == s && p.1 == pos + num_entries_enc(s).len()),
{
    let mut entries: Vec<(u128, u64)> = Vec::new();
    if pos > buf.len() {
        return None;
    }
    let mut p: usize = pos;
    let mut i: u64 = 0;
    proof {
        assert(num_entries_enc(entries@) =~= Seq::<u8>::empty());
        assert(buf@.subrange(pos as int, pos as int) =~= Seq::<u8>::empty());
        if let Some(s) = exp {
            assert(s.skip(0) =~= s);
            assert(s.take(0) =~= Seq::<(u128, u64)>::empty());
        }
    }
    while i < count
        invariant
            i <= count,
            entries@.len() == i as int,
            unique_keys(entries@),
            pos <= p <= buf@.len(),
            buf@.subrange(pos as int, p as int) == num_entries_enc(entries@),
            exp matches Some(s) ==> {
                &&& entries@ == s.take(i as int)
                &&& p <= pos + num_entries_enc(s).len()
                &&& buf@.subrange(p as int, pos + num_entries_enc(s).len()) == num_entries_enc(s.skip(i as int))
            },
        decreases count - i,
    {
        let ghost gexp_entry: Option<(u128, u64)> = match exp {
            Some(s) => Some(s[i as int]),
            None => None,
        };
        proof {
            if let Some(s) = exp {
                lemma_num_entries_cons(s.skip(i as int));
                assert(s.skip(i as int).first() == s[i as int]);
                assert(s.skip(i as int).drop_first() =~= s.skip(i as int + 1));
                assert(pos + num_entries_enc(s).len() == p + num_entry_enc(s[i as int]).len() + num_entries_enc(
                    s.skip(i as int + 1),
                ).len());
                lemma_concat_extract(
                    buf@,
                    p as int,
                    num_entry_enc(s[i as int]),
                    num_entries_enc(s.skip(i as int + 1)),
                );
            }
        }
        let e = match dec_num_entry(buf, p, Ghost(gexp_entry)) {
            None => {
                return None;
            },
            Some(q) => q,
        };
        if crate::umap::entries_contain(&entries, e.0.0) {
            proof {
                if let Some(s) = exp {
                    let j = choose|j: int| 0 <= j < entries@.len() && (#[trigger] entries@[j]).0
                        == e.0.0;
                    assert(s[j].0 == s[i as int].0);
                    assert(false);
                }
            }
            return None;
        }
        let ghost entries_pre = entries@;
        entries.push(e.0);
        proof {
            assert(entries@.drop_last() =~= entries_pre);
            assert(buf@.subrange(pos as int, e.1 as int) =~= buf@.subrange(pos as int, p as int)
                + buf@.subrange(p as int, e.1 as int));
            assert forall|a: int, b: int|
                0 <= a < b < entries@.len() implies (#[trigger] entries@[a]).0 != (
            #[trigger] entries@[b]).0 by {
                if b < entries@.len() - 1 {
                    assert(entries@[a] == entries_pre[a] && entries@[b] == entries_pre[b]);
                } else {
                    assert(entries@[a] == entries_pre[a]);
                }
            }
            if let Some(s) = exp {
                assert(entries@ =~= s.take(i as int + 1));
            }
        }
        p = e.1;
        i = i + 1;
    }
    proof {
        if let Some(s) = exp {
            assert(s.take(count as int) =~= s);
            assert(s.skip(count as int) =~= Seq::<(u128, u64)>::empty());
            assert(num_entries_enc(s.skip(count as int)).len() == 0);
        }
    }
    Some((entries, p))
}

// ---------------------------------------------------------------------
// Encoding and decoding whole snapshots.
// ---------------------------------------------------------------------
/// Append the wire form of the stored unspent outputs.
#[verifier::rlimit(100)]
#[verifier::spinoff_prover]
fn enc_utxo_entries(out: &mut Vec<u8>, es: &Vec<(u128, Utxo)>)
    ensures
        final(out)@ == old(out)@ + utxo_entries_enc(es@),
{
    let n = es.len();
    for i in 0..n
        invariant
            n == es@.len(),
            out@ == old(out)@ + utxo_entries_enc(es@.take(i as int)),
    {
        enc_u128(out, es[i].0);
        enc_u64(out, es[i].1.0.0.amount);
        enc_u128(out, es[i].1.0.0.code.val);
        push_all(out, &public_key_bytes(&es[i].1.0.0.owner));
        proof {
            assert(es@.take(i as int + 1).drop_last() =~= es@.take(i as int));
            assert(out@ =~= old(out)@ + utxo_entries_enc(es@.take(i as int + 1)));
        }
    }
    proof {
        assert(es@.take(n as int) =~= es@);
    }
}

/// Append the wire form of the retained bitmap versions.
#[verifier::rlimit(100)]
#[verifier::spinoff_prover]
fn enc_versions(out: &mut Vec<u8>, es: &Vec<(TxnSID, BitDigest)>)
    ensures
        final(out)@ == old(out)@ + versions_enc(es@),
{
    let n = es.len();
    for i in 0..n
        invariant
            n == es@.len(),
            out@ == old(out)@ + versions_enc(es@.take(i as int)),
    {
        enc_u64(out, es[i].0.0 as u64);
        push_all(out, &digest_bytes(&es[i].1));
        proof {
            assert(es@.take(i as int + 1).drop_last() =~= es@.take(i as int));
            assert(out@ =~= old(out)@ + versions_enc(es@.take(i as int + 1)));
        }
    }
    proof {
        assert(es@.take(n as int) =~= es@);
    }
}

/// Append the wire form of the registered asset types.
#[verifier::rlimit(100)]
#[verifier::spinoff_prover]
fn enc_type_entries(out: &mut Vec<u8>, es: &Vec<(u128, AssetType)>)
    ensures
        final(out)@ == old(out)@ + type_entries_enc(es@),
{
    let n = es.len();
    for i in 0..n
        invariant
            n == es@.len(),
            out@ == old(out)@ + type_entries_enc(es@.take(i as int)),
    {
        enc_u128(out, es[i].0);
        enc_u128(out, es[i].1.properties.code.val);
        push_all(out, &public_key_bytes(&es[i].1.properties.issuer.key));
        enc_bool(out, es[i].1.properties.updatable);
        enc_bool(out, es[i].1.properties.traceable);
        enc_u64(out, es[i].1.units);
        proof {
            assert(es@.take(i as int + 1).drop_last() =~= es@.take(i as int));
            assert(out@ =~= old(out)@ + type_entries_enc(es@.take(i as int + 1)));
        }
    }
    proof {
        assert(es@.take(n as int) =~= es@);
    }
}

/// Append the wire form of the issuance watermarks.
#[verifier::rlimit(100)]
#[verifier::spinoff_prover]
fn enc_num_entries(out: &mut Vec<u8>, es: &Vec<(u128, u64)>)
    ensures
        final(out)@ == old(out)@ + num_entries_enc(es@),
{
    let n = es.len();
    for i in 0..n
        invariant
            n == es@.len(),
            out@ == old(out)@ + num_entries_enc(es@.take(i as int)),
    {
        enc_u128(out, es[i].0);
        enc_u64(out, es[i].1);
        proof {
            assert(es@.take(i as int + 1).drop_last() =~= es@.take(i as int));
            assert(out@ =~= old(out)@ + num_entries_enc(es@.take(i as int + 1)));
        }
    }
    proof {
        assert(es@.take(n as int) =~= es@);
    }
}

/// The snapshot wire form of the global state.
#[verifier::rlimit(100)]
#[verifier::spinoff_prover]
pub fn encode_ledger_status(st: &LedgerStatus) -> (r: Vec<u8>)
    ensures
        r@ == status_enc(*st),
{
    let mut out: Vec<u8> = Vec::new();
    enc_u64(&mut out, st.utxos.entries.len() as u64);
    enc_utxo_entries(&mut out, &st.utxos.entries);
    enc_u64(&mut out, st.utxo_map_versions.len() as u64);
    enc_versions(&mut out, &st.utxo_map_versions);
    enc_u64(&mut out, st.asset_types.entries.len() as u64);
    enc_type_entries(&mut out, &st.asset_types.entries);
    enc_u64(&mut out, st.issuance_num.entries.len() as u64);
    enc_num_entries(&mut out, &st.issuance_num.entries);
    enc_u64(&mut out, st.next_txn.0 as u64);
    enc_u64(&mut out, st.next_txo.0);
    push_all(&mut out, &digest_bytes(&st.global_hash));
    enc_u64(&mut out, st.global_commit_count);
    proof {
        assert(out@ =~= status_enc(*st));
    }
    out
}

/// A snapshot splits into its map sections and its tail.
proof fn lemma_status_split(buf: Seq<u8>, st: LedgerStatus)
    requires
        buf == status_enc(st),
    ensures
        buf.len() == status_maps_enc(st).len() + 56,
        buf.subrange(0, status_maps_enc(st).len() as int) == status_maps_enc(st),
        buf.subrange(status_maps_enc(st).len() as int, buf.len() as int) == status_tail_enc(st),
{
    assert(status_tail_enc(st).len() == 56);
    assert(buf.subrange(0, buf.len() as int) =~= buf);
    lemma_concat_extract(buf, 0, status_maps_enc(st), status_tail_enc(st));
}

/// Where each map section of a snapshot sits within its bytes.
proof fn lemma_maps_parts(buf: Seq<u8>, st: LedgerStatus)
    requires
        status_maps_enc(st).len() <= buf.len(),
        buf.subrange(0, status_maps_enc(st).len() as int) == status_maps_enc(st),
    ensures
        ({
            let su = st.utxos.entries@;
            let sv = st.utxo_map_versions@;
            let st_ = st.asset_types.entries@;
            let sn = st.issuance_num.entries@;
            let o1 = 8int;
            let o2 = o1 + utxo_entries_enc(su).len();
            let o3 = o2 + 8;
            let o4 = o3 + versions_enc(sv).len();
            let o5 = o4 + 8;
            let o6 = o5 + type_entries_enc(st_).len();
            let o7 = o6 + 8;
            let o8 = o7 + num_entries_enc(sn).len();
            &&& status_maps_enc(st).len() == o8
            &&& buf.subrange(0, 8) == le8(su.len() as u64)
            &&& buf.subrange(o1, o2) == utxo_entries_enc(su)
            &&& buf.subrange(o2, o3) == le8(sv.len() as u64)
            &&& buf.subrange(o3, o4) == versions_enc(sv)
            &&& buf.subrange(o4, o5) == le8(st_.len() as u64)
            &&& buf.subrange(o5, o6) == type_entries_enc(st_)
            &&& buf.subrange(o6, o7) == le8(sn.len() as u64)
            &&& buf.subrange(o7, o8) == num_entries_enc(sn)
        }),
{
    let a1 = le8(st.utxos.entries@.len() as u64);
    let a2 = utxo_entries_enc(st.utxos.entries@);
    let a3 = le8(st.utxo_map_versions@.len() as u64);
    let a4 = versions_enc(st.utxo_map_versions@);
    let a5 = le8(st.asset_types.entries@.len() as u64);
    let a6 = type_entries_enc(st.asset_types.entries@);
    let a7 = le8(st.issuance_num.entries@.len() as u64);
    let a8 = num_entries_enc(st.issuance_num.entries@);
    assert(a1.len() == 8 && a3.len() == 8 && a5.len() == 8 && a7.len() == 8);
    lemma_concat_extract(buf, 0, a1 + a2 + a3 + a4 + a5 + a6 + a7, a8);
    lemma_concat_extract(buf, 0, a1 + a2 + a3 + a4 + a5 + a6, a7);
    lemma_concat_extract(buf, 0, a1 + a2 + a3 + a4 + a5, a6);
    lemma_concat_extract(buf, 0, a1 + a2 + a3 + a4, a5);
    lemma_concat_extract(buf, 0, a1 + a2 + a3, a4);
    lemma_concat_extract(buf, 0, a1 + a2, a3);
    lemma_concat_extract(buf, 0, a1, a2);
}

/// Where each tail field of a snapshot sits within its bytes.
proof fn lemma_tail_parts(buf: Seq<u8>, o8: int, st: LedgerStatus)
    requires
        0 <= o8,
        o8 + 56 <= buf.len(),
        buf.subrange(o8, o8 + 56) == status_tail_enc(st),
    ensures
        buf.subrange(o8, o8 + 8) == le8(st.next_txn.0 as u64),
        buf.subrange(o8 + 8, o8 + 16) == le8(st.next_txo.0),
        buf.subrange(o8 + 16, o8 + 48) == st.global_hash.bytes(),
        buf.subrange(o8 + 48, o8 + 56) == le8(st.global_commit_count),
{
    let a9 = le8(st.next_txn.0 as u64);
    let a10 = le8(st.next_txo.0);
    let a11 = st.global_hash.bytes();
    let a12 = le8(st.global_commit_count);
    assert(a9.len() == 8 && a10.len() == 8 && a11.len() == 32 && a12.len() == 8);
    lemma_concat_extract(buf, o8, a9 + a10 + a11, a12);
    lemma_concat_extract(buf, o8, a9 + a10, a11);
    lemma_concat_extract(buf, o8, a9, a10);
}

/// Read the unspent-output and version sections of a snapshot.
#[verifier::loop_isolation(false)]
#[verifier::rlimit(100)]
#[verifier::spinoff_prover]
fn dec_status_maps_a(buf: &Vec<u8>, Ghost(exp): Ghost<Option<LedgerStatus>>) -> (r: Option<
    (Vec<(u128, Utxo)>, Vec<(TxnSID, BitDigest)>, usize),
>)
    requires
        exp matches Some(st) ==> st.utxos.wf() && status_maps_enc(st).len() <= buf@.len()
            && buf@.subrange(0, status_maps_enc(st).len() as int) == status_maps_enc(st),
    ensures
        match r {
            Some(p) => {
                &&& unique_keys(p.0@)
                &&& p.2 <= buf@.len()
                &&& buf@.subrange(0, p.2 as int) == le8(p.0@.len() as u64) + utxo_entries_enc(p.0@)
                    + le8(p.1@.len() as u64) + versions_enc(p.1@)
            },
            None => exp is None,
        },
        exp matches Some(st) ==> (r matches Some(p) && p.0@ == st.utxos.entries@ && p.1@
            == st.utxo_map_versions@ && p.2 == 8 + utxo_entries_enc(st.utxos.entries@).len() + 8
            + versions_enc(st.utxo_map_versions@).len()),
{
    proof {
        if let Some(st) = exp {
            lemma_maps_parts(buf@, st);
        }
    }
    let cu = match dec_u64(buf, 0) {
        None => {
            return None;
        },
        Some(p) => p.0,
    };
    proof {
        if let Some(st) = exp {
            vstd::std_specs::vec::axiom_spec_len(&st.utxos.entries);
            lemma_le8_inj(cu, st.utxos.entries@.len() as u64);
        }
    }
    let (utxos_vec, p2) = match dec_utxo_entries(
        buf,
        8,
        cu,
        Ghost(
            match exp {
                Some(st) => Some(st.utxos.entries@),
                None => None,
            },
        ),
    ) {
        None => {
            return None;
        },
        Some(p) => p,
    };
    let cv = match dec_u64(buf, p2) {
        None => {
            return None;
        },
        Some(p) => p.0,
    };
    proof {
        if let Some(st) = exp {
            vstd::std_specs::vec::axiom_spec_len(&st.utxo_map_versions);
            lemma_le8_inj(cv, st.utxo_map_versions@.len() as u64);
        }
    }
    let (versions_vec, p4) = match dec_versions(
        buf,
        p2 + 8,
        cv,
        Ghost(
            match exp {
                Some(st) => Some(st.utxo_map_versions@),
                None => None,
            },
        ),
    ) {
        None => {
            return None;
        },
        Some(p) => p,
    };
    proof {
        let b = buf@;
        assert(b.subrange(0, p2 as int) =~= b.subrange(0, 8) + b.subrange(8, p2 as int));
        assert(b.subrange(0, p2 + 8) =~= b.subrange(0, p2 as int) + b.subrange(p2 as int, p2 + 8));
        assert(b.subrange(0, p4 as int) =~= b.subrange(0, p2 + 8) + b.subrange(p2 + 8, p4 as int));
    }
    Some((utxos_vec, versions_vec, p4))
}

/// Read the asset-type and watermark sections of a snapshot.
#[verifier::loop_isolation(false)]
#[verifier::rlimit(100)]
#[verifier::spinoff_prover]
fn dec_status_maps_b(buf: &Vec<u8>, pos: usize, Ghost(exp): Ghost<Option<LedgerStatus>>) -> (r:
    Option<(Vec<(u128, AssetType)>, Vec<(u128, u64)>, usize)>)
    requires
        exp matches Some(st) ==> st.asset_types.wf() && st.issuance_num.wf() && status_maps_enc(
            st,
        ).len() <= buf@.len() && buf@.subrange(0, status_maps_enc(st).len() as int)
            == status_maps_enc(st) && pos == 8 + utxo_entries_enc(st.utxos.entries@).len() + 8
            + versions_enc(st.utxo_map_versions@).len(),
    ensures
        match r {
            Some(p) => {
                &&& unique_keys(p.0@)
                &&& unique_keys(p.1@)
                &&& pos <= p.2 <= buf@.len()
                &&& buf@.subrange(pos as int, p.2 as int) == le8(p.0@.len() as u64)
                    + type_entries_enc(p.0@) + le8(p.1@.len() as u64) + num_entries_enc(p.1@)
            },
            None => exp is None,
        },
        exp matches Some(st) ==> (r matches Some(p) && p.0@ == st.asset_types.entries@ && p.1@
            == st.issuance_num.entries@ && p.2 == status_maps_enc(st).len()),
{
    proof {
        if let Some(st) = exp {
            lemma_maps_parts(buf@, st);
        }
    }
    let ct = match dec_u64(buf, pos) {
        None => {
            return None;
        },
        Some(p) => p.0,
    };
    proof {
        if let Some(st) = exp {
            vstd::std_specs::vec::axiom_spec_len(&st.asset_types.entries);
            lemma_le8_inj(ct, st.asset_types.entries@.len() as u64);
        }
    }
    let (types_vec, p6) = match dec_type_entries(
        buf,
        pos + 8,
        ct,
        Ghost(
            match exp {
                Some(st) => Some(st.asset_types.entries@),
                None => None,
            },
        ),
    ) {
        None => {
            return None;
        },
        Some(p) => p,
    };
    let cn = match dec_u64(buf, p6) {
        None => {
            return None;
        },
        Some(p) => p.0,
    };
    proof {
        if let Some(st) = exp {
            vstd::std_specs::vec::axiom_spec_len(&st.issuance_num.entries);
            lemma_le8_inj(cn, st.issuance_num.entries@.len() as u64);
        }
    }
    let (nums_vec, p8) = match dec_num_entries(
        buf,
        p6 + 8,
        cn,
        Ghost(
            match exp {
                Some(st) => Some(st.issuance_num.entries@),
                None => None,
            },
        ),
    ) {
        None => {
            return None;
        },
        Some(p) => p,
    };
    proof {
        let b = buf@;
        assert(b.subrange(pos as int, p6 as int) =~= b.subrange(pos as int, pos + 8) + b.subrange(
            pos + 8,
            p6 as int,
        ));
        assert(b.subrange(pos as int, p6 + 8) =~= b.subrange(pos as int, p6 as int) + b.subrange(
            p6 as int,
            p6 + 8,
        ));
        assert(b.subrange(pos as int, p8 as int) =~= b.subrange(pos as int, p6 + 8) + b.subrange(
            p6 + 8,
            p8 as int,
        ));
    }
    Some((types_vec, nums_vec, p8))
}

/// Two decoded map sections assemble into the map image of the state they
/// denote.
#[verifier::spinoff_prover]
proof fn lemma_maps_assemble(b: Seq<u8>, st2: LedgerStatus, p4: int, p8: int)
    requires
        0 <= p4 <= p8 <= b.len(),
        b.subrange(0, p4) == le8(st2.utxos.entries@.len() as u64) + utxo_entries_enc(
            st2.utxos.entries@,
        ) + le8(st2.utxo_map_versions@.len() as u64) + versions_enc(st2.utxo_map_versions@),
        b.subrange(p4, p8) == le8(st2.asset_types.entries@.len() as u64) + type_entries_enc(
            st2.asset_types.entries@,
        ) + le8(st2.issuance_num.entries@.len() as u64) + num_entries_enc(
            st2.issuance_num.entries@,
        ),
    ensures
        b.subrange(0, p8) == status_maps_enc(st2),
{
    assert(b.subrange(0, p8) =~= b.subrange(0, p4) + b.subrange(p4, p8));
    assert(b.subrange(0, p4) + b.subrange(p4, p8) =~= status_maps_enc(st2));
}

/// The four decoded tail fields assemble into the tail image of the state
/// they denote.
#[verifier::spinoff_prover]
proof fn lemma_tail_assemble(b: Seq<u8>, st2: LedgerStatus, p8: int)
    requires
        0 <= p8,
        p8 + 56 <= b.len(),
        b.subrange(p8, p8 + 8) == le8(st2.next_txn.0 as u64),
        b.subrange(p8 + 8, p8 + 16) == le8(st2.next_txo.0),
        b.subrange(p8 + 16, p8 + 48) == st2.global_hash.bytes(),
        b.subrange(p8 + 48, p8 + 56) == le8(st2.global_commit_count),
    ensures
        b.subrange(p8, p8 + 56) == status_tail_enc(st2),
{
    assert(st2.global_hash.bytes().len() == 32);
    assert(b.subrange(p8, p8 + 16) =~= b.subrange(p8, p8 + 8) + b.subrange(p8 + 8, p8 + 16));
    assert(b.subrange(p8, p8 + 48) =~= b.subrange(p8, p8 + 16) + b.subrange(p8 + 16, p8 + 48));
    assert(b.subrange(p8, p8 + 56) =~= b.subrange(p8, p8 + 48) + b.subrange(p8 + 48, p8 + 56));
    assert(b.subrange(p8, p8 + 8) + b.subrange(p8 + 8, p8 + 16) + b.subrange(p8 + 16, p8 + 48)
        + b.subrange(p8 + 48, p8 + 56) =~= status_tail_enc(st2));
}

/// Read the counters and chained hash at the end of a snapshot.
#[verifier::rlimit(100)]
#[verifier::spinoff_prover]
fn dec_status_tail(buf: &Vec<u8>, pos: usize, Ghost(exp): Ghost<Option<LedgerStatus>>) -> (r:
    Option<(TxnSID, TxoSID, BitDigest, u64)>)
    requires
        exp matches Some(st) ==> pos == status_maps_enc(st).len() && buf@ == status_enc(st),
    ensures
        match r {
            Some(p) => {
                &&& pos + 56 == buf@.len()
                &&& buf@.subrange(pos as int, pos + 8) == le8(p.0.0 as u64)
                &&& buf@.subrange(pos + 8, pos + 16) == le8(p.1.0)
                &&& buf@.subrange(pos + 16, pos + 48) == p.2.bytes()
                &&& buf@.subrange(pos + 48, pos + 56) == le8(p.3)
            },
            None => exp is None,
        },
        exp matches Some(st) ==> (r matches Some(p) && p.0 == st.next_txn && p.1 == st.next_txo
            && p.2 == st.global_hash && p.3 == st.global_commit_count),
{
    proof {
        if let Some(st) = exp {
            lemma_status_split(buf@, st);
            lemma_tail_parts(buf@, status_maps_enc(st).len() as int, st);
        }
    }
    let tn = match dec_u64(buf, pos) {
        None => {
            return None;
        },
        Some(p) => p.0,
    };
    proof {
        if let Some(st) = exp {
            lemma_le8_inj(tn, st.next_txn.0 as u64);
        }
    }
    if tn > usize::MAX as u64 {
        return None;
    }
    let to = match dec_u64(buf, pos + 8) {
        None => {
            return None;
        },
        Some(p) => p.0,
    };
    let h = match dec_digest(buf, pos + 16) {
        None => {
            return None;
        },
        Some(p) => p.0,
    };
    let gc = match dec_u64(buf, pos + 48) {
        None => {
            return None;
        },
        Some(p) => p.0,
    };
    if pos + 56 != buf.len() {
        return None;
    }
    proof {
        if let Some(st) = exp {
            lemma_le8_inj(to, st.next_txo.0);
            lemma_digest_bytes_inj(h, st.global_hash);
            lemma_le8_inj(gc, st.global_commit_count);
        }
    }
    Some((TxnSID(tn as usize), TxoSID(to), h, gc))
}

/// Decode a snapshot. When the caller knows which state the bytes hold,
/// decoding is proven to reproduce that state's data exactly: the snapshot
/// round trip loses nothing.
#[verifier::loop_isolation(false)]
#[verifier::rlimit(100)]
#[verifier::spinoff_prover]
pub fn decode_ledger_status_checked(
    buf: &Vec<u8>,
    Ghost(exp): Ghost<Option<LedgerStatus>>,
) -> (r: Option<LedgerStatus>)
    requires
        exp matches Some(st) ==> st.utxos.wf() && st.asset_types.wf() && st.issuance_num.wf()
            && buf@ == status_enc(st),
    ensures
        match r {
            Some(st2) => {
                &&& st2.utxos.wf()
                &&& st2.asset_types.wf()
                &&& st2.issuance_num.wf()
                &&& status_enc(st2) == buf@
            },
            None => exp is None,
        },
        exp matches Some(st) ==> (r matches Some(st2) && same_status(st2, st)),
{
    proof {
        if let Some(st) = exp {
            lemma_status_split(buf@, st);
        }
    }
    let (utxos_vec, versions_vec, p4) = match dec_status_maps_a(buf, Ghost(exp)) {
        None => {
            return None;
        },
        Some(p) => p,
    };
    let (types_vec, nums_vec, p8) = match dec_status_maps_b(buf, p4, Ghost(exp)) {
        None => {
            return None;
        },
        Some(p) => p,
    };
    let (tn, to, h, gc) = match dec_status_tail(buf, p8, Ghost(exp)) {
        None => {
            return None;
        },
        Some(p) => p,
    };
    let st2 = LedgerStatus {
        utxos: UMap { entries: utxos_vec },
        utxo_map_versions: versions_vec,
        asset_types: UMap { entries: types_vec },
        issuance_num: UMap { entries: nums_vec },
        next_txn: tn,
        next_txo: to,
        global_hash: h,
        global_commit_count: gc,
    };
    proof {
        let b = buf@;
        lemma_maps_assemble(b, st2, p4 as int, p8 as int);
        lemma_tail_assemble(b, st2, p8 as int);
        assert(b =~= b.subrange(0, p8 as int) + b.subrange(p8 as int, p8 + 56));
        assert(status_enc(st2) == b);
    }
    Some(st2)
}

/// Whether `buf` is the snapshot of some well-formed state.
pub open spec fn is_status_enc(buf: Seq<u8>) -> bool {
    exists|st: LedgerStatus|
        st.utxos.wf() && st.asset_types.wf() && st.issuance_num.wf() && buf == #[trigger] status_enc(
            st,
        )
}

/// Decode a snapshot from its bytes: a result is owed whenever the bytes
/// are the snapshot of some well-formed state, and whatever comes back
/// re-encodes to exactly the input.
pub fn decode_ledger_status(buf: &Vec<u8>) -> (r: Option<LedgerStatus>)
    ensures
        match r {
            Some(st2) => {
                &&& st2.utxos.wf()
                &&& st2.asset_types.wf()
                &&& st2.issuance_num.wf()
                &&& status_enc(st2) == buf@
            },
            None => !is_status_enc(buf@),
        },
{
    let ghost gexp: Option<LedgerStatus> = if is_status_enc(buf@) {
        Some(
            choose|st: LedgerStatus|
                st.utxos.wf() && st.asset_types.wf() && st.issuance_num.wf() && buf@
                    == #[trigger] status_enc(st),
        )
    } else {
        None
    };
    decode_ledger_status_checked(buf, Ghost(gexp))
}

} // verus!
