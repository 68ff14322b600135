use vstd::prelude::*;

use crate::codec::dec_bool;
use crate::codec::le16;
use crate::codec::le_bool;
use crate::codec::dec_u128;
use crate::codec::dec_u64;
use crate::codec::enc_u64;
use crate::codec::le8;
use crate::codec::push_all;
use crate::crypto::Signature;
use crate::effects::op_same;
use crate::effects::txn_same;
use crate::snapshot::dec_public_key;
use crate::snapshot::dec_record;
use crate::snapshot::lemma_concat_extract;
use crate::snapshot::lemma_key_bytes_inj;
use crate::snapshot::lemma_le16_inj;
use crate::snapshot::lemma_le8_inj;
use crate::snapshot::lemma_record_enc_inj;
use crate::types::Asset;
use crate::types::AssetRecord;
use crate::types::AssetTypeCode;
use crate::types::ConfidentialMemo;
use crate::types::DefineAsset;
use crate::types::DefineAssetBody;
use crate::types::FinalizedTransaction;
use crate::types::IssueAsset;
use crate::types::IssueAssetBody;
use crate::types::IssuerPublicKey;
use crate::types::Memo;
use crate::types::Operation;
use crate::types::SignedAddress;
use crate::types::Transaction;
use crate::types::TransferAsset;
use crate::types::TransferAssetBody;
use crate::types::TransferNote;
use crate::types::TxOutput;
use crate::types::TxnSID;
use crate::types::TxoRef;
use crate::types::TxoSID;
use crate::wire::op_enc;
use crate::wire::ops_enc;
use crate::wire::txn_enc;
use crate::wire::txn_bytes;

verus! {

/// The wire form of one committed transaction in the log: the transaction,
/// its identifier, and its leaf index.
pub open spec fn finalized_enc(ft: FinalizedTransaction) -> Seq<u8> {
    txn_enc(ft.txn) + le8(ft.tx_id.0 as u64) + le8(ft.merkle_id)
}

/// The wire form of a transaction log: the entries in order.
pub open spec fn log_enc(fts: Seq<FinalizedTransaction>) -> Seq<u8>
    decreases fts.len(),
{
    if fts.len() == 0 {
        Seq::empty()
    } else {
        log_enc(fts.drop_last()) + finalized_enc(fts.last())
    }
}

/// A signature is pinned by its 64 bytes.
proof fn lemma_sig_bytes_inj(a: Signature, b: Signature)
    requires
        a.bytes() == b.bytes(),
    ensures
        a == b,
{
    assert(le8(a.w0) =~= a.bytes().subrange(0, 8));
    assert(le8(a.w1) =~= a.bytes().subrange(8, 16));
    assert(le8(a.w2) =~= a.bytes().subrange(16, 24));
    assert(le8(a.w3) =~= a.bytes().subrange(24, 32));
    assert(le8(a.w4) =~= a.bytes().subrange(32, 40));
    assert(le8(a.w5) =~= a.bytes().subrange(40, 48));
    assert(le8(a.w6) =~= a.bytes().subrange(48, 56));
    assert(le8(a.w7) =~= a.bytes().subrange(56, 64));
    assert(le8(b.w0) =~= b.bytes().subrange(0, 8));
    assert(le8(b.w1) =~= b.bytes().subrange(8, 16));
    assert(le8(b.w2) =~= b.bytes().subrange(16, 24));
    assert(le8(b.w3) =~= b.bytes().subrange(24, 32));
    assert(le8(b.w4) =~= b.bytes().subrange(32, 40));
    assert(le8(b.w5) =~= b.bytes().subrange(40, 48));
    assert(le8(b.w6) =~= b.bytes().subrange(48, 56));
    assert(le8(b.w7) =~= b.bytes().subrange(56, 64));
    lemma_le8_inj(a.w0, b.w0);
    lemma_le8_inj(a.w1, b.w1);
    lemma_le8_inj(a.w2, b.w2);
    lemma_le8_inj(a.w3, b.w3);
    lemma_le8_inj(a.w4, b.w4);
    lemma_le8_inj(a.w5, b.w5);
    lemma_le8_inj(a.w6, b.w6);
    lemma_le8_inj(a.w7, b.w7);
}

/// Append the wire form of one committed transaction to the log.
pub fn enc_finalized(out: &mut Vec<u8>, ft: &FinalizedTransaction)
    ensures
        final(out)@ == old(out)@ + finalized_enc(*ft),
{
    push_all(out, &txn_bytes(&ft.txn));
    enc_u64(out, ft.tx_id.0 as u64);
    enc_u64(out, ft.merkle_id);
    proof {
        assert(out@ =~= old(out)@ + finalized_enc(*ft));
    }
}

/// The wire form of a whole transaction log.
pub fn encode_txn_log(fts: &Vec<FinalizedTransaction>) -> (r: Vec<u8>)
    ensures
        r@ == log_enc(fts@),
{
    let mut out: Vec<u8> = Vec::new();
    let n = fts.len();
    for i in 0..n
        invariant
            n == fts@.len(),
            out@ == log_enc(fts@.take(i as int)),
    {
        enc_finalized(&mut out, &fts[i]);
        proof {
            assert(fts@.take(i as int + 1).drop_last() =~= fts@.take(i as int));
        }
    }
    proof {
        assert(fts@.take(n as int) =~= fts@);
    }
    out
}

/// Read a 64-byte signature starting at `pos`.
fn dec_signature(buf: &Vec<u8>, pos: usize) -> (r: Option<(Signature, usize)>)
    ensures
        match r {
            Some(p) => {
                &&& pos + 64 <= buf@.len()
                &&& p.1 == pos + 64
                &&& p.0.bytes() == buf@.subrange(pos as int, pos as int + 64)
            },
            None => pos + 64 > buf@.len(),
        },
{
    if pos > buf.len() || buf.len() - pos < 64 {
        return None;
    }
    let w0 = dec_u64(buf, pos).unwrap().0;
    let w1 = dec_u64(buf, pos + 8).unwrap().0;
    let w2 = dec_u64(buf, pos + 16).unwrap().0;
    let w3 = dec_u64(buf, pos + 24).unwrap().0;
    let w4 = dec_u64(buf, pos + 32).unwrap().0;
    let w5 = dec_u64(buf, pos + 40).unwrap().0;
    let w6 = dec_u64(buf, pos + 48).unwrap().0;
    let w7 = dec_u64(buf, pos + 56).unwrap().0;
    let s = Signature { w0, w1, w2, w3, w4, w5, w6, w7 };
    proof {
        assert(s.bytes() =~= buf@.subrange(pos as int, pos as int + 64));
    }
    Some((s, pos + 64))
}


proof fn lemma_records_cons(s: Seq<AssetRecord>)
    requires
        s.len() > 0,
    ensures
        crate::wire::records_enc(s) == crate::wire::record_enc(s.first()) + crate::wire::records_enc(s.drop_first()),
    decreases s.len(),
{
    if s.len() == 1 {
        assert(s.drop_last() =~= Seq::<AssetRecord>::empty());
        assert(s.drop_first() =~= Seq::<AssetRecord>::empty());
        assert(s.last() == s.first());
        assert(crate::wire::records_enc(s) =~= crate::wire::record_enc(s.first()) + crate::wire::records_enc(s.drop_first()));
    } else {
        lemma_records_cons(s.drop_last());
        assert(s.drop_last().first() == s.first());
        assert(s.drop_first().drop_last() =~= s.drop_last().drop_first());
        assert(s.drop_first().last() == s.last());
        assert(crate::wire::records_enc(s) =~= crate::wire::record_enc(s.first()) + crate::wire::records_enc(s.drop_first()));
    }
}

proof fn lemma_outputs_cons(s: Seq<TxOutput>)
    requires
        s.len() > 0,
    ensures
        crate::wire::outputs_enc(s) == crate::wire::record_enc(s.first().0) + crate::wire::outputs_enc(s.drop_first()),
    decreases s.len(),
{
    if s.len() == 1 {
        assert(s.drop_last() =~= Seq::<TxOutput>::empty());
        assert(s.drop_first() =~= Seq::<TxOutput>::empty());
        assert(s.last() == s.first());
        assert(crate::wire::outputs_enc(s) =~= crate::wire::record_enc(s.first().0) + crate::wire::outputs_enc(s.drop_first()));
    } else {
        lemma_outputs_cons(s.drop_last());
        assert(s.drop_last().first() == s.first());
        assert(s.drop_first().drop_last() =~= s.drop_last().drop_first());
        assert(s.drop_first().last() == s.last());
        assert(crate::wire::outputs_enc(s) =~= crate::wire::record_enc(s.first().0) + crate::wire::outputs_enc(s.drop_first()));
    }
}

proof fn lemma_refs_cons(s: Seq<TxoRef>)
    requires
        s.len() > 0,
    ensures
        crate::wire::refs_enc(s) == crate::wire::txo_ref_enc(s.first()) + crate::wire::refs_enc(s.drop_first()),
    decreases s.len(),
{
    if s.len() == 1 {
        assert(s.drop_last() =~= Seq::<TxoRef>::empty());
        assert(s.drop_first() =~= Seq::<TxoRef>::empty());
        assert(s.last() == s.first());
        assert(crate::wire::refs_enc(s) =~= crate::wire::txo_ref_enc(s.first()) + crate::wire::refs_enc(s.drop_first()));
    } else {
        lemma_refs_cons(s.drop_last());
        assert(s.drop_last().first() == s.first());
        assert(s.drop_first().drop_last() =~= s.drop_last().drop_first());
        assert(s.drop_first().last() == s.last());
        assert(crate::wire::refs_enc(s) =~= crate::wire::txo_ref_enc(s.first()) + crate::wire::refs_enc(s.drop_first()));
    }
}

proof fn lemma_sigs_cons(s: Seq<SignedAddress>)
    requires
        s.len() > 0,
    ensures
        crate::wire::sigs_enc(s) == (s.first().address.bytes() + s.first().signature.bytes()) + crate::wire::sigs_enc(s.drop_first()),
    decreases s.len(),
{
    if s.len() == 1 {
        assert(s.drop_last() =~= Seq::<SignedAddress>::empty());
        assert(s.drop_first() =~= Seq::<SignedAddress>::empty());
        assert(s.last() == s.first());
        assert(crate::wire::sigs_enc(s) =~= (s.first().address.bytes() + s.first().signature.bytes()) + crate::wire::sigs_enc(s.drop_first()));
    } else {
        lemma_sigs_cons(s.drop_last());
        assert(s.drop_last().first() == s.first());
        assert(s.drop_first().drop_last() =~= s.drop_last().drop_first());
        assert(s.drop_first().last() == s.last());
        assert(crate::wire::sigs_enc(s) =~= (s.first().address.bytes() + s.first().signature.bytes()) + crate::wire::sigs_enc(s.drop_first()));
    }
}

proof fn lemma_ops_cons(s: Seq<Operation>)
    requires
        s.len() > 0,
    ensures
        ops_enc(s) == op_enc(s.first()) + ops_enc(s.drop_first()),
    decreases s.len(),
{
    if s.len() == 1 {
        assert(s.drop_last() =~= Seq::<Operation>::empty());
        assert(s.drop_first() =~= Seq::<Operation>::empty());
        assert(s.last() == s.first());
        assert(ops_enc(s) =~= op_enc(s.first()) + ops_enc(s.drop_first()));
    } else {
        lemma_ops_cons(s.drop_last());
        assert(s.drop_last().first() == s.first());
        assert(s.drop_first().drop_last() =~= s.drop_last().drop_first());
        assert(s.drop_first().last() == s.last());
        assert(ops_enc(s) =~= op_enc(s.first()) + ops_enc(s.drop_first()));
    }
}

proof fn lemma_log_cons(s: Seq<FinalizedTransaction>)
    requires
        s.len() > 0,
    ensures
        log_enc(s) == finalized_enc(s.first()) + log_enc(s.drop_first()),
    decreases s.len(),
{
    if s.len() == 1 {
        assert(s.drop_last() =~= Seq::<FinalizedTransaction>::empty());
        assert(s.drop_first() =~= Seq::<FinalizedTransaction>::empty());
        assert(s.last() == s.first());
        assert(log_enc(s) =~= finalized_enc(s.first()) + log_enc(s.drop_first()));
    } else {
        lemma_log_cons(s.drop_last());
        assert(s.drop_last().first() == s.first());
        assert(s.drop_first().drop_last() =~= s.drop_last().drop_first());
        assert(s.drop_first().last() == s.last());
        assert(log_enc(s) =~= finalized_enc(s.first()) + log_enc(s.drop_first()));
    }
}

/// Two committed-transaction entries carry the same data.
pub open spec fn finalized_same(a: FinalizedTransaction, b: FinalizedTransaction) -> bool {
    &&& txn_same(a.txn, b.txn)
    &&& a.tx_id == b.tx_id
    &&& a.merkle_id == b.merkle_id
}

/// Where each field of an asset definition sits within its 146 bytes.
#[verifier::rlimit(100)]
#[verifier::spinoff_prover]
proof fn lemma_define_parts(b: Seq<u8>, pos: int, d: DefineAsset)
    requires
        0 <= pos,
        pos + 146 <= b.len(),
        b.subrange(pos, pos + 146) == crate::wire::define_enc(d),
    ensures
        b.subrange(pos, pos + 16) == le16(d.body.asset.code.val),
        b.subrange(pos + 16, pos + 48) == d.body.asset.issuer.key.bytes(),
        b.subrange(pos + 48, pos + 49) == le_bool(d.body.asset.updatable),
        b.subrange(pos + 49, pos + 50) == le_bool(d.body.asset.traceable),
        b.subrange(pos + 50, pos + 82) == d.pubkey.key.bytes(),
        b.subrange(pos + 82, pos + 146) == d.signature.bytes(),
{
    let a = d.body.asset;
    assert(le16(a.code.val).len() == 16);
    assert(a.issuer.key.bytes().len() == 32);
    assert(d.pubkey.key.bytes().len() == 32);
    assert(d.signature.bytes().len() == 64);
    lemma_concat_extract(
        b,
        pos,
        crate::wire::define_body_enc(d.body) + d.pubkey.key.bytes(),
        d.signature.bytes(),
    );
    lemma_concat_extract(b, pos, crate::wire::define_body_enc(d.body), d.pubkey.key.bytes());
    lemma_concat_extract(
        b,
        pos,
        le16(a.code.val) + a.issuer.key.bytes() + le_bool(a.updatable),
        le_bool(a.traceable),
    );
    lemma_concat_extract(b, pos, le16(a.code.val) + a.issuer.key.bytes(), le_bool(a.updatable));
    lemma_concat_extract(b, pos, le16(a.code.val), a.issuer.key.bytes());
}

/// Where each field of an asset issuance sits within its bytes.
#[verifier::rlimit(100)]
#[verifier::spinoff_prover]
proof fn lemma_issue_parts(b: Seq<u8>, pos: int, i: IssueAsset)
    requires
        0 <= pos,
        pos + crate::wire::issue_enc(i).len() <= b.len(),
        b.subrange(pos, pos + crate::wire::issue_enc(i).len()) == crate::wire::issue_enc(i),
    ensures
        ({
            let lo = crate::wire::outputs_enc(i.body.records@).len();
            &&& crate::wire::issue_enc(i).len() == 136 + lo
            &&& b.subrange(pos, pos + 16) == le16(i.body.code.val)
            &&& b.subrange(pos + 16, pos + 24) == le8(i.body.seq_num)
            &&& b.subrange(pos + 24, pos + 32) == le8(i.body.num_outputs as u64)
            &&& b.subrange(pos + 32, pos + 40) == le8(i.body.records@.len() as u64)
            &&& b.subrange(pos + 40, pos + 40 + lo) == crate::wire::outputs_enc(i.body.records@)
            &&& b.subrange(pos + 40 + lo, pos + 72 + lo) == i.pubkey.key.bytes()
            &&& b.subrange(pos + 72 + lo, pos + 136 + lo) == i.signature.bytes()
        }),
{
    let a1 = le16(i.body.code.val);
    let a2 = le8(i.body.seq_num);
    let a3 = le8(i.body.num_outputs as u64);
    let a4 = le8(i.body.records@.len() as u64);
    let a5 = crate::wire::outputs_enc(i.body.records@);
    assert(a1.len() == 16 && a2.len() == 8 && a3.len() == 8 && a4.len() == 8);
    assert(i.pubkey.key.bytes().len() == 32);
    assert(i.signature.bytes().len() == 64);
    lemma_concat_extract(
        b,
        pos,
        crate::wire::issue_body_enc(i.body) + i.pubkey.key.bytes(),
        i.signature.bytes(),
    );
    lemma_concat_extract(b, pos, crate::wire::issue_body_enc(i.body), i.pubkey.key.bytes());
    lemma_concat_extract(b, pos, a1 + a2 + a3 + a4, a5);
    lemma_concat_extract(b, pos, a1 + a2 + a3, a4);
    lemma_concat_extract(b, pos, a1 + a2, a3);
    lemma_concat_extract(b, pos, a1, a2);
}

/// Where each section of a transfer sits within its bytes.
#[verifier::rlimit(100)]
#[verifier::spinoff_prover]
proof fn lemma_transfer_parts(b: Seq<u8>, pos: int, t: TransferAsset)
    requires
        0 <= pos,
        pos + crate::wire::transfer_enc(t).len() <= b.len(),
        b.subrange(pos, pos + crate::wire::transfer_enc(t).len()) == crate::wire::transfer_enc(t),
    ensures
        ({
            let lr = crate::wire::refs_enc(t.body.inputs@).len();
            let la = crate::wire::records_enc(t.body.transfer.inputs@).len();
            let lb = crate::wire::records_enc(t.body.transfer.outputs@).len();
            let ls = crate::wire::sigs_enc(t.body_signatures@).len();
            &&& crate::wire::transfer_enc(t).len() == 40 + lr + la + lb + ls
            &&& b.subrange(pos, pos + 8) == le8(t.body.inputs@.len() as u64)
            &&& b.subrange(pos + 8, pos + 8 + lr) == crate::wire::refs_enc(t.body.inputs@)
            &&& b.subrange(pos + 8 + lr, pos + 16 + lr) == le8(t.body.num_outputs as u64)
            &&& b.subrange(pos + 16 + lr, pos + 24 + lr) == le8(
                t.body.transfer.inputs@.len() as u64,
            )
            &&& b.subrange(pos + 24 + lr, pos + 24 + lr + la) == crate::wire::records_enc(
                t.body.transfer.inputs@,
            )
            &&& b.subrange(pos + 24 + lr + la, pos + 32 + lr + la) == le8(
                t.body.transfer.outputs@.len() as u64,
            )
            &&& b.subrange(pos + 32 + lr + la, pos + 32 + lr + la + lb)
                == crate::wire::records_enc(t.body.transfer.outputs@)
            &&& b.subrange(pos + 32 + lr + la + lb, pos + 40 + lr + la + lb) == le8(
                t.body_signatures@.len() as u64,
            )
            &&& b.subrange(pos + 40 + lr + la + lb, pos + 40 + lr + la + lb + ls)
                == crate::wire::sigs_enc(t.body_signatures@)
        }),
{
    let r1 = le8(t.body.inputs@.len() as u64);
    let r2 = crate::wire::refs_enc(t.body.inputs@);
    let r3 = le8(t.body.num_outputs as u64);
    let n1 = le8(t.body.transfer.inputs@.len() as u64);
    let n2 = crate::wire::records_enc(t.body.transfer.inputs@);
    let n3 = le8(t.body.transfer.outputs@.len() as u64);
    let n4 = crate::wire::records_enc(t.body.transfer.outputs@);
    let s1 = le8(t.body_signatures@.len() as u64);
    let s2 = crate::wire::sigs_enc(t.body_signatures@);
    assert(r1.len() == 8 && r3.len() == 8 && n1.len() == 8 && n3.len() == 8 && s1.len() == 8);
    lemma_concat_extract(b, pos, crate::wire::transfer_body_enc(t.body) + s1, s2);
    lemma_concat_extract(b, pos, crate::wire::transfer_body_enc(t.body), s1);
    lemma_concat_extract(b, pos, r1 + r2 + r3, crate::wire::note_enc(t.body.transfer));
    lemma_concat_extract(b, pos, r1 + r2, r3);
    lemma_concat_extract(b, pos, r1, r2);
    let np = pos + 16 + r2.len();
    lemma_concat_extract(b, np, n1 + n2 + n3, n4);
    lemma_concat_extract(b, np, n1 + n2, n3);
    lemma_concat_extract(b, np, n1, n2);
}

/// Read a count-prefixed list of records, pinned to the expected list when
/// one is given.
#[verifier::loop_isolation(false)]
#[verifier::rlimit(100)]
#[verifier::spinoff_prover]
fn dec_record_list(buf: &Vec<u8>, pos: usize, Ghost(exp): Ghost<Option<Seq<AssetRecord>>>) -> (r:
    Option<(Vec<AssetRecord>, usize)>)
    requires
        exp matches Some(s) ==> {
            &&& s.len() <= u64::MAX
            &&& pos + 8 + crate::wire::records_enc(s).len() <= buf@.len()
            &&& buf@.subrange(pos as int, pos as int + 8) == le8(s.len() as u64)
            &&& buf@.subrange(pos as int + 8, pos + 8 + crate::wire::records_enc(s).len())
                == crate::wire::records_enc(s)
        },
    ensures
        match r {
            Some(p) => {
                &&& pos <= p.1 <= buf@.len()
                &&& le8(p.0@.len() as u64) + crate::wire::records_enc(p.0@) == buf@.subrange(
                    pos as int,
                    p.1 as int,
                )
            },
            None => exp is None,
        },
        exp matches Some(s) ==> (r matches Some(p) && p.0@ == s && p.1 == pos + 8
            + crate::wire::records_enc(s).len()),
{
    let (count, mut p) = match dec_u64(buf, pos) {
        None => {
            return None;
        },
        Some(q) => q,
    };
    proof {
        if let Some(s) = exp {
            lemma_le8_inj(count, s.len() as u64);
            assert(s.skip(0) =~= s);
            assert(buf@.subrange(p as int, pos + 8 + crate::wire::records_enc(s).len())
                == crate::wire::records_enc(s.skip(0)));
        }
    }
    let mut recs: Vec<AssetRecord> = Vec::new();
    let mut i: u64 = 0;
    proof {
        assert(buf@.subrange(p as int, p as int) =~= crate::wire::records_enc(recs@));
    }
    while i < count
        invariant
            i <= count,
            recs@.len() == i,
            pos + 8 <= p <= buf@.len(),
            le8(count) == buf@.subrange(pos as int, pos as int + 8),
            buf@.subrange(pos as int + 8, p as int) == crate::wire::records_enc(recs@),
            exp matches Some(s) ==> {
                &&& recs@ == s.take(i as int)
                &&& p <= pos + 8 + crate::wire::records_enc(s).len()
                &&& buf@.subrange(p as int, pos + 8 + crate::wire::records_enc(s).len())
                    == crate::wire::records_enc(s.skip(i as int))
            },
        decreases count - i,
    {
        proof {
            if let Some(s) = exp {
                lemma_records_cons(s.skip(i as int));
                assert(s.skip(i as int).first() == s[i as int]);
                assert(s.skip(i as int).drop_first() =~= s.skip(i as int + 1));
                assert(crate::wire::record_enc(s[i as int]).len() == 56) by {
                    assert(s[i as int].owner.bytes().len() == 32);
                }
                lemma_concat_extract(
                    buf@,
                    p as int,
                    crate::wire::record_enc(s[i as int]),
                    crate::wire::records_enc(s.skip(i as int + 1)),
                );
            }
        }
        let (rec, p2) = match dec_record(buf, p) {
            None => {
                proof {
                    if exp is Some {
                        assert(false);
                    }
                }
                return None;
            },
            Some(q) => q,
        };
        proof {
            if let Some(s) = exp {
                lemma_record_enc_inj(rec, s[i as int]);
            }
        }
        let ghost pre = recs@;
        recs.push(rec);
        proof {
            assert(recs@.drop_last() =~= pre);
            assert(buf@.subrange(pos as int + 8, p2 as int) =~= buf@.subrange(
                pos as int + 8,
                p as int,
            ) + buf@.subrange(p as int, p2 as int));
            if let Some(s) = exp {
                assert(recs@ =~= s.take(i as int + 1));
            }
        }
        p = p2;
        i = i + 1;
    }
    proof {
        assert(recs@.len() as u64 == count);
        assert(le8(recs@.len() as u64) + crate::wire::records_enc(recs@) =~= buf@.subrange(
            pos as int,
            p as int,
        ));
        if let Some(s) = exp {
            assert(s.take(count as int) =~= s);
            assert(s.skip(count as int) =~= Seq::<AssetRecord>::empty());
            assert(crate::wire::records_enc(s.skip(count as int)).len() == 0);
        }
    }
    Some((recs, p))
}

/// Read a count-prefixed list of outputs, pinned to the expected list when
/// one is given.
#[verifier::loop_isolation(false)]
#[verifier::rlimit(100)]
#[verifier::spinoff_prover]
fn dec_output_list(buf: &Vec<u8>, pos: usize, Ghost(exp): Ghost<Option<Seq<TxOutput>>>) -> (r:
    Option<(Vec<TxOutput>, usize)>)
    requires
        exp matches Some(s) ==> {
            &&& s.len() <= u64::MAX
            &&& pos + 8 + crate::wire::outputs_enc(s).len() <= buf@.len()
            &&& buf@.subrange(pos as int, pos as int + 8) == le8(s.len() as u64)
            &&& buf@.subrange(pos as int + 8, pos + 8 + crate::wire::outputs_enc(s).len())
                == crate::wire::outputs_enc(s)
        },
    ensures
        match r {
            Some(p) => {
                &&& pos <= p.1 <= buf@.len()
                &&& le8(p.0@.len() as u64) + crate::wire::outputs_enc(p.0@) == buf@.subrange(
                    pos as int,
                    p.1 as int,
                )
            },
            None => exp is None,
        },
        exp matches Some(s) ==> (r matches Some(p) && p.0@ == s && p.1 == pos + 8
            + crate::wire::outputs_enc(s).len()),
{
    let (count, mut p) = match dec_u64(buf, pos) {
        None => {
            return None;
        },
        Some(q) => q,
    };
    proof {
        if let Some(s) = exp {
            lemma_le8_inj(count, s.len() as u64);
            assert(s.skip(0) =~= s);
            assert(buf@.subrange(p as int, pos + 8 + crate::wire::outputs_enc(s).len())
                == crate::wire::outputs_enc(s.skip(0)));
        }
    }
    let mut recs: Vec<TxOutput> = Vec::new();
    let mut i: u64 = 0;
    proof {
        assert(buf@.subrange(p as int, p as int) =~= crate::wire::outputs_enc(recs@));
    }
    while i < count
        invariant
            i <= count,
            recs@.len() == i,
            pos + 8 <= p <= buf@.len(),
            buf@.subrange(pos as int + 8, p as int) == crate::wire::outputs_enc(recs@),
            exp matches Some(s) ==> {
                &&& recs@ == s.take(i as int)
                &&& p <= pos + 8 + crate::wire::outputs_enc(s).len()
                &&& buf@.subrange(p as int, pos + 8 + crate::wire::outputs_enc(s).len())
                    == crate::wire::outputs_enc(s.skip(i as int))
            },
        decreases count - i,
    {
        proof {
            if let Some(s) = exp {
                lemma_outputs_cons(s.skip(i as int));
                assert(s.skip(i as int).first() == s[i as int]);
                assert(s.skip(i as int).drop_first() =~= s.skip(i as int + 1));
                assert(crate::wire::record_enc(s[i as int].0).len() == 56) by {
                    assert(s[i as int].0.owner.bytes().len() == 32);
                }
                lemma_concat_extract(
                    buf@,
                    p as int,
                    crate::wire::record_enc(s[i as int].0),
                    crate::wire::outputs_enc(s.skip(i as int + 1)),
                );
            }
        }
        let (rec, p2) = match dec_record(buf, p) {
            None => {
                proof {
                    if exp is Some {
                        assert(false);
                    }
                }
                return None;
            },
            Some(q) => q,
        };
        proof {
            if let Some(s) = exp {
                lemma_record_enc_inj(rec, s[i as int].0);
            }
        }
        let ghost pre = recs@;
        recs.push(TxOutput(rec));
        proof {
            assert(recs@.drop_last() =~= pre);
            assert(buf@.subrange(pos as int + 8, p2 as int) =~= buf@.subrange(
                pos as int + 8,
                p as int,
            ) + buf@.subrange(p as int, p2 as int));
            if let Some(s) = exp {
                assert(recs@ =~= s.take(i as int + 1));
            }
        }
        p = p2;
        i = i + 1;
    }
    proof {
        assert(recs@.len() as u64 == count);
        assert(le8(recs@.len() as u64) + crate::wire::outputs_enc(recs@) =~= buf@.subrange(
            pos as int,
            p as int,
        ));
        if let Some(s) = exp {
            assert(s.take(count as int) =~= s);
            assert(s.skip(count as int) =~= Seq::<TxOutput>::empty());
            assert(crate::wire::outputs_enc(s.skip(count as int)).len() == 0);
        }
    }
    Some((recs, p))
}

/// Read a count-prefixed list of output references, pinned to the expected
/// list when one is given.
#[verifier::loop_isolation(false)]
#[verifier::rlimit(100)]
#[verifier::spinoff_prover]
fn dec_ref_list(buf: &Vec<u8>, pos: usize, Ghost(exp): Ghost<Option<Seq<TxoRef>>>) -> (r: Option<
    (Vec<TxoRef>, usize),
>)
    requires
        exp matches Some(s) ==> {
            &&& s.len() <= u64::MAX
            &&& pos + 8 + crate::wire::refs_enc(s).len() <= buf@.len()
            &&& buf@.subrange(pos as int, pos as int + 8) == le8(s.len() as u64)
            &&& buf@.subrange(pos as int + 8, pos + 8 + crate::wire::refs_enc(s).len())
                == crate::wire::refs_enc(s)
        },
    ensures
        match r {
            Some(p) => {
                &&& pos <= p.1 <= buf@.len()
                &&& le8(p.0@.len() as u64) + crate::wire::refs_enc(p.0@) == buf@.subrange(
                    pos as int,
                    p.1 as int,
                )
            },
            None => exp is None,
        },
        exp matches Some(s) ==> (r matches Some(p) && p.0@ == s && p.1 == pos + 8
            + crate::wire::refs_enc(s).len()),
{
    let (count, mut p) = match dec_u64(buf, pos) {
        None => {
            return None;
        },
        Some(q) => q,
    };
    proof {
        if let Some(s) = exp {
            lemma_le8_inj(count, s.len() as u64);
            assert(s.skip(0) =~= s);
            assert(buf@.subrange(p as int, pos + 8 + crate::wire::refs_enc(s).len())
                == crate::wire::refs_enc(s.skip(0)));
        }
    }
    let mut refs: Vec<TxoRef> = Vec::new();
    let mut i: u64 = 0;
    proof {
        assert(buf@.subrange(p as int, p as int) =~= crate::wire::refs_enc(refs@));
    }
    while i < count
        invariant
            i <= count,
            refs@.len() == i,
            pos + 8 <= p <= buf@.len(),
            buf@.subrange(pos as int + 8, p as int) == crate::wire::refs_enc(refs@),
            exp matches Some(s) ==> {
                &&& refs@ == s.take(i as int)
                &&& p <= pos + 8 + crate::wire::refs_enc(s).len()
                &&& buf@.subrange(p as int, pos + 8 + crate::wire::refs_enc(s).len())
                    == crate::wire::refs_enc(s.skip(i as int))
            },
        decreases count - i,
    {
        proof {
            if let Some(s) = exp {
                lemma_refs_cons(s.skip(i as int));
                assert(s.skip(i as int).first() == s[i as int]);
                assert(s.skip(i as int).drop_first() =~= s.skip(i as int + 1));
                assert(crate::wire::txo_ref_enc(s[i as int]).len() == 9);
                lemma_concat_extract(
                    buf@,
                    p as int,
                    crate::wire::txo_ref_enc(s[i as int]),
                    crate::wire::refs_enc(s.skip(i as int + 1)),
                );
                assert(buf@.subrange(p as int, p as int + 9)[0] == buf@[p as int]);
                match s[i as int] {
                    TxoRef::Relative(offs) => {
                        assert(crate::wire::txo_ref_enc(s[i as int])[0] == 0u8);
                    },
                    TxoRef::Absolute(sid) => {
                        assert(crate::wire::txo_ref_enc(s[i as int])[0] == 1u8);
                    },
                }
            }
        }
        if p >= buf.len() {
            proof {
                if exp is Some {
                    assert(false);
                }
            }
            return None;
        }
        let tag = buf[p];
        let (w, p2) = match dec_u64(buf, p + 1) {
            None => {
                proof {
                    if exp is Some {
                        assert(false);
                    }
                }
                return None;
            },
            Some(q) => q,
        };
        let rf = if tag == 0 {
            TxoRef::Relative(w)
        } else if tag == 1 {
            TxoRef::Absolute(TxoSID(w))
        } else {
            proof {
                if let Some(s) = exp {
                    assert(false);
                }
            }
            return None;
        };
        proof {
            if let Some(s) = exp {
                match s[i as int] {
                    TxoRef::Relative(offs) => {
                        lemma_concat_extract(buf@, p as int, seq![0u8], le8(offs));
                        assert(buf@.subrange(p as int, p as int + 1)[0] == buf@[p as int]);
                        assert(buf@[p as int] == 0);
                        lemma_le8_inj(w, offs);
                    },
                    TxoRef::Absolute(sid) => {
                        lemma_concat_extract(buf@, p as int, seq![1u8], le8(sid.0));
                        assert(buf@.subrange(p as int, p as int + 1)[0] == buf@[p as int]);
                        assert(buf@[p as int] == 1);
                        lemma_le8_inj(w, sid.0);
                    },
                }
                assert(rf == s[i as int]);
            }
        }
        let ghost pre = refs@;
        refs.push(rf);
        proof {
            assert(refs@.drop_last() =~= pre);
            assert(crate::wire::txo_ref_enc(rf) =~= buf@.subrange(p as int, p2 as int));
            assert(buf@.subrange(pos as int + 8, p2 as int) =~= buf@.subrange(
                pos as int + 8,
                p as int,
            ) + buf@.subrange(p as int, p2 as int));
            if let Some(s) = exp {
                assert(refs@ =~= s.take(i as int + 1));
            }
        }
        p = p2;
        i = i + 1;
    }
    proof {
        assert(refs@.len() as u64 == count);
        assert(le8(refs@.len() as u64) + crate::wire::refs_enc(refs@) =~= buf@.subrange(
            pos as int,
            p as int,
        ));
        if let Some(s) = exp {
            assert(s.take(count as int) =~= s);
            assert(s.skip(count as int) =~= Seq::<TxoRef>::empty());
            assert(crate::wire::refs_enc(s.skip(count as int)).len() == 0);
        }
    }
    Some((refs, p))
}

/// Read a count-prefixed list of body signatures, pinned to the expected
/// list when one is given.
#[verifier::loop_isolation(false)]
#[verifier::rlimit(100)]
#[verifier::spinoff_prover]
fn dec_sig_list(buf: &Vec<u8>, pos: usize, Ghost(exp): Ghost<Option<Seq<SignedAddress>>>) -> (r:
    Option<(Vec<SignedAddress>, usize)>)
    requires
        exp matches Some(s) ==> {
            &&& s.len() <= u64::MAX
            &&& pos + 8 + crate::wire::sigs_enc(s).len() <= buf@.len()
            &&& buf@.subrange(pos as int, pos as int + 8) == le8(s.len() as u64)
            &&& buf@.subrange(pos as int + 8, pos + 8 + crate::wire::sigs_enc(s).len())
                == crate::wire::sigs_enc(s)
        },
    ensures
        match r {
            Some(p) => {
                &&& pos <= p.1 <= buf@.len()
                &&& le8(p.0@.len() as u64) + crate::wire::sigs_enc(p.0@) == buf@.subrange(
                    pos as int,
                    p.1 as int,
                )
            },
            None => exp is None,
        },
        exp matches Some(s) ==> (r matches Some(p) && p.0@ == s && p.1 == pos + 8
            + crate::wire::sigs_enc(s).len()),
{
    let (count, mut p) = match dec_u64(buf, pos) {
        None => {
            return None;
        },
        Some(q) => q,
    };
    proof {
        if let Some(s) = exp {
            lemma_le8_inj(count, s.len() as u64);
            assert(s.skip(0) =~= s);
            assert(buf@.subrange(p as int, pos + 8 + crate::wire::sigs_enc(s).len())
                == crate::wire::sigs_enc(s.skip(0)));
        }
    }
    let mut sigs: Vec<SignedAddress> = Vec::new();
    let mut i: u64 = 0;
    proof {
        assert(buf@.subrange(p as int, p as int) =~= crate::wire::sigs_enc(sigs@));
    }
    while i < count
        invariant
            i <= count,
            sigs@.len() == i,
            pos + 8 <= p <= buf@.len(),
            buf@.subrange(pos as int + 8, p as int) == crate::wire::sigs_enc(sigs@),
            exp matches Some(s) ==> {
                &&& sigs@ == s.take(i as int)
                &&& p <= pos + 8 + crate::wire::sigs_enc(s).len()
                &&& buf@.subrange(p as int, pos + 8 + crate::wire::sigs_enc(s).len())
                    == crate::wire::sigs_enc(s.skip(i as int))
            },
        decreases count - i,
    {
        proof {
            if let Some(s) = exp {
                lemma_sigs_step(
                    buf@,
                    p as int,
                    pos + 8 + crate::wire::sigs_enc(s).len(),
                    s,
                    i as int,
                );
            }
        }
        let (address, p2) = match dec_public_key(buf, p) {
            None => {
                proof {
                    if exp is Some {
                        assert(false);
                    }
                }
                return None;
            },
            Some(q) => q,
        };
        let (signature, p3) = match dec_signature(buf, p2) {
            None => {
                proof {
                    if exp is Some {
                        assert(false);
                    }
                }
                return None;
            },
            Some(q) => q,
        };
        proof {
            if let Some(s) = exp {
                lemma_key_bytes_inj(address, s[i as int].address);
                lemma_sig_bytes_inj(signature, s[i as int].signature);
            }
        }
        let ghost pre = sigs@;
        sigs.push(SignedAddress { address, signature });
        proof {
            assert(sigs@.drop_last() =~= pre);
            assert(buf@.subrange(pos as int + 8, p3 as int) =~= buf@.subrange(
                pos as int + 8,
                p as int,
            ) + buf@.subrange(p as int, p2 as int) + buf@.subrange(p2 as int, p3 as int));
            if let Some(s) = exp {
                assert(sigs@ =~= s.take(i as int + 1));
            }
        }
        p = p3;
        i = i + 1;
    }
    proof {
        assert(sigs@.len() as u64 == count);
        assert(le8(sigs@.len() as u64) + crate::wire::sigs_enc(sigs@) =~= buf@.subrange(
            pos as int,
            p as int,
        ));
        if let Some(s) = exp {
            assert(s.take(count as int) =~= s);
            assert(s.skip(count as int) =~= Seq::<SignedAddress>::empty());
            assert(crate::wire::sigs_enc(s.skip(count as int)).len() == 0);
        }
    }
    Some((sigs, p))
}

/// Components found at their offsets assemble into a definition's wire
/// form.
#[verifier::rlimit(100)]
#[verifier::spinoff_prover]
proof fn lemma_define_assemble(b: Seq<u8>, pos: int, d: DefineAsset)
    requires
        0 <= pos,
        pos + 146 <= b.len(),
        b.subrange(pos, pos + 16) == le16(d.body.asset.code.val),
        b.subrange(pos + 16, pos + 48) == d.body.asset.issuer.key.bytes(),
        b.subrange(pos + 48, pos + 49) == le_bool(d.body.asset.updatable),
        b.subrange(pos + 49, pos + 50) == le_bool(d.body.asset.traceable),
        b.subrange(pos + 50, pos + 82) == d.pubkey.key.bytes(),
        b.subrange(pos + 82, pos + 146) == d.signature.bytes(),
    ensures
        b.subrange(pos, pos + 146) == crate::wire::define_enc(d),
{
    assert(b.subrange(pos, pos + 48) =~= b.subrange(pos, pos + 16) + b.subrange(
        pos + 16,
        pos + 48,
    ));
    assert(b.subrange(pos, pos + 49) =~= b.subrange(pos, pos + 48) + b.subrange(
        pos + 48,
        pos + 49,
    ));
    assert(b.subrange(pos, pos + 50) =~= b.subrange(pos, pos + 49) + b.subrange(
        pos + 49,
        pos + 50,
    ));
    assert(b.subrange(pos, pos + 82) =~= b.subrange(pos, pos + 50) + b.subrange(
        pos + 50,
        pos + 82,
    ));
    assert(b.subrange(pos, pos + 146) =~= b.subrange(pos, pos + 82) + b.subrange(
        pos + 82,
        pos + 146,
    ));
    assert(b.subrange(pos, pos + 146) == crate::wire::define_enc(d));
}

/// Components found at their offsets assemble into an issuance's wire
/// form.
#[verifier::rlimit(100)]
#[verifier::spinoff_prover]
proof fn lemma_issue_assemble(b: Seq<u8>, pos: int, p4: int, i: IssueAsset)
    requires
        0 <= pos,
        pos + 32 <= p4,
        p4 + 96 <= b.len(),
        b.subrange(pos, pos + 16) == le16(i.body.code.val),
        b.subrange(pos + 16, pos + 24) == le8(i.body.seq_num),
        b.subrange(pos + 24, pos + 32) == le8(i.body.num_outputs as u64),
        b.subrange(pos + 32, p4) == le8(i.body.records@.len() as u64) + crate::wire::outputs_enc(
            i.body.records@,
        ),
        b.subrange(p4, p4 + 32) == i.pubkey.key.bytes(),
        b.subrange(p4 + 32, p4 + 96) == i.signature.bytes(),
    ensures
        b.subrange(pos, p4 + 96) == crate::wire::issue_enc(i),
        crate::wire::issue_enc(i).len() == p4 + 96 - pos,
{
    let la = le16(i.body.code.val);
    let lb = le8(i.body.seq_num);
    let lc = le8(i.body.num_outputs as u64);
    let ld = le8(i.body.records@.len() as u64);
    let le_ = crate::wire::outputs_enc(i.body.records@);
    assert(b.subrange(pos, pos + 24) =~= la + lb);
    assert(b.subrange(pos, pos + 32) =~= b.subrange(pos, pos + 24) + lc);
    assert(b.subrange(pos, p4) =~= b.subrange(pos, pos + 32) + b.subrange(pos + 32, p4));
    assert(la + lb + lc + (ld + le_) =~= la + lb + lc + ld + le_);
    assert(b.subrange(pos, p4) == crate::wire::issue_body_enc(i.body));
    assert(b.subrange(pos, p4 + 32) =~= b.subrange(pos, p4) + b.subrange(p4, p4 + 32));
    assert(b.subrange(pos, p4 + 96) =~= b.subrange(pos, p4 + 32) + b.subrange(p4 + 32, p4 + 96));
    assert(b.subrange(pos, p4 + 96) == crate::wire::issue_enc(i));
}

/// Components found at their offsets assemble into a transfer's wire form.
#[verifier::rlimit(100)]
#[verifier::spinoff_prover]
proof fn lemma_transfer_assemble(
    b: Seq<u8>,
    pos: int,
    p2: int,
    p4: int,
    p5: int,
    p6: int,
    t: TransferAsset,
)
    requires
        0 <= pos <= p2,
        p2 + 8 <= p4 <= p5 <= p6 <= b.len(),
        b.subrange(pos, p2) == le8(t.body.inputs@.len() as u64) + crate::wire::refs_enc(
            t.body.inputs@,
        ),
        b.subrange(p2, p2 + 8) == le8(t.body.num_outputs as u64),
        b.subrange(p2 + 8, p4) == le8(t.body.transfer.inputs@.len() as u64)
            + crate::wire::records_enc(t.body.transfer.inputs@),
        b.subrange(p4, p5) == le8(t.body.transfer.outputs@.len() as u64)
            + crate::wire::records_enc(t.body.transfer.outputs@),
        b.subrange(p5, p6) == le8(t.body_signatures@.len() as u64) + crate::wire::sigs_enc(
            t.body_signatures@,
        ),
    ensures
        b.subrange(pos, p6) == crate::wire::transfer_enc(t),
        crate::wire::transfer_enc(t).len() == p6 - pos,
{
    let ra = le8(t.body.inputs@.len() as u64);
    let rb = crate::wire::refs_enc(t.body.inputs@);
    let rc = le8(t.body.num_outputs as u64);
    let rd = le8(t.body.transfer.inputs@.len() as u64);
    let re_ = crate::wire::records_enc(t.body.transfer.inputs@);
    let rf = le8(t.body.transfer.outputs@.len() as u64);
    let rg = crate::wire::records_enc(t.body.transfer.outputs@);
    assert(b.subrange(pos, p2 + 8) =~= b.subrange(pos, p2) + b.subrange(p2, p2 + 8));
    assert(b.subrange(pos, p4) =~= b.subrange(pos, p2 + 8) + b.subrange(p2 + 8, p4));
    assert(b.subrange(pos, p5) =~= b.subrange(pos, p4) + b.subrange(p4, p5));
    assert((ra + rb) + rc + (rd + re_) + (rf + rg) =~= ra + rb + rc + (rd + re_ + rf + rg));
    assert(b.subrange(pos, p5) == crate::wire::transfer_body_enc(t.body));
    assert(b.subrange(pos, p6) =~= b.subrange(pos, p5) + b.subrange(p5, p6));
    assert((ra + rb + rc + (rd + re_ + rf + rg)) + (le8(t.body_signatures@.len() as u64)
        + crate::wire::sigs_enc(t.body_signatures@)) =~= crate::wire::transfer_enc(t));
    assert(b.subrange(pos, p6) == crate::wire::transfer_enc(t));
}

/// The bytes of one signed address sit at the head of a signature list's
/// suffix.
#[verifier::rlimit(100)]
#[verifier::spinoff_prover]
proof fn lemma_sigs_step(b: Seq<u8>, p: int, end: int, s: Seq<SignedAddress>, i: int)
    requires
        0 <= i < s.len(),
        0 <= p <= end <= b.len(),
        b.subrange(p, end) == crate::wire::sigs_enc(s.skip(i)),
    ensures
        p + 96 <= end,
        b.subrange(p, p + 32) == s[i].address.bytes(),
        b.subrange(p + 32, p + 96) == s[i].signature.bytes(),
        b.subrange(p + 96, end) == crate::wire::sigs_enc(s.skip(i + 1)),
{
    lemma_sigs_cons(s.skip(i));
    assert(s.skip(i).first() == s[i]);
    assert(s.skip(i).drop_first() =~= s.skip(i + 1));
    assert(s[i].address.bytes().len() == 32);
    assert(s[i].signature.bytes().len() == 64);
    assert(end - p == crate::wire::sigs_enc(s.skip(i)).len());
    assert(crate::wire::sigs_enc(s.skip(i)).len() == 96 + crate::wire::sigs_enc(
        s.skip(i + 1),
    ).len());
    lemma_concat_extract(
        b,
        p,
        s[i].address.bytes() + s[i].signature.bytes(),
        crate::wire::sigs_enc(s.skip(i + 1)),
    );
    lemma_concat_extract(b, p, s[i].address.bytes(), s[i].signature.bytes());
}

/// One log entry's bytes sit at the head of a log suffix.
#[verifier::rlimit(100)]
#[verifier::spinoff_prover]
proof fn lemma_log_step(b: Seq<u8>, p: int, fts: Seq<FinalizedTransaction>, n: int)
    requires
        0 <= n < fts.len(),
        0 <= p <= b.len(),
        b.subrange(p, b.len() as int) == log_enc(fts.skip(n)),
    ensures
        p + finalized_enc(fts[n]).len() <= b.len(),
        b.subrange(p, p + finalized_enc(fts[n]).len()) == finalized_enc(fts[n]),
        b.subrange(p + finalized_enc(fts[n]).len(), b.len() as int) == log_enc(fts.skip(n + 1)),
{
    lemma_log_cons(fts.skip(n));
    assert(fts.skip(n).first() == fts[n]);
    assert(fts.skip(n).drop_first() =~= fts.skip(n + 1));
    assert(b.len() - p == log_enc(fts.skip(n)).len());
    assert(log_enc(fts.skip(n)).len() == finalized_enc(fts[n]).len() + log_enc(
        fts.skip(n + 1),
    ).len());
    lemma_concat_extract(b, p, finalized_enc(fts[n]), log_enc(fts.skip(n + 1)));
}

/// Read one asset definition operation (after its tag), pinned to the
/// expected operation when one is given.
#[verifier::rlimit(100)]
#[verifier::spinoff_prover]
fn dec_define(buf: &Vec<u8>, pos: usize, Ghost(exp): Ghost<Option<DefineAsset>>) -> (r: Option<
    (DefineAsset, usize),
>)
    requires
        exp matches Some(d) ==> pos + 146 <= buf@.len() && buf@.subrange(pos as int, pos as int
            + 146) == crate::wire::define_enc(d),
    ensures
        match r {
            Some(p) => {
                &&& pos <= p.1 <= buf@.len()
                &&& crate::wire::define_enc(p.0) == buf@.subrange(pos as int, p.1 as int)
            },
            None => exp is None,
        },
        exp matches Some(d) ==> r == Some::<(DefineAsset, usize)>((d, (pos + 146) as usize)),
{
    proof {
        if let Some(d) = exp {
            lemma_define_parts(buf@, pos as int, d);
        }
    }
    let code = match dec_u128(buf, pos) {
        None => {
            proof {
                if exp is Some {
                    assert(false);
                }
            }
            return None;
        },
        Some(p) => p.0,
    };
    let (issuer, p2) = match dec_public_key(buf, pos + 16) {
        None => {
            proof {
                if exp is Some {
                    assert(false);
                }
            }
            return None;
        },
        Some(p) => p,
    };
    let (updatable, p3) = match dec_bool(buf, p2) {
        None => {
            proof {
                if let Some(d) = exp {
                    assert(buf@.subrange(pos as int + 48, pos as int + 49)[0] == buf@[pos as int
                        + 48]);
                    assert(buf@[pos as int + 48] == le_bool(d.body.asset.updatable)[0]);
                    assert(false);
                }
            }
            return None;
        },
        Some(p) => p,
    };
    let (traceable, p4) = match dec_bool(buf, p3) {
        None => {
            proof {
                if let Some(d) = exp {
                    assert(buf@.subrange(pos as int + 49, pos as int + 50)[0] == buf@[pos as int
                        + 49]);
                    assert(buf@[pos as int + 49] == le_bool(d.body.asset.traceable)[0]);
                    assert(false);
                }
            }
            return None;
        },
        Some(p) => p,
    };
    let (pubkey, p5) = match dec_public_key(buf, p4) {
        None => {
            proof {
                if exp is Some {
                    assert(false);
                }
            }
            return None;
        },
        Some(p) => p,
    };
    let (sig, p6) = match dec_signature(buf, p5) {
        None => {
            proof {
                if exp is Some {
                    assert(false);
                }
            }
            return None;
        },
        Some(p) => p,
    };
    let d2 = DefineAsset {
        body: DefineAssetBody {
            asset: Asset {
                code: AssetTypeCode { val: code },
                issuer: IssuerPublicKey { key: issuer },
                updatable,
                traceable,
                memo: Memo {  },
                confidential_memo: ConfidentialMemo {  },
            },
        },
        pubkey: IssuerPublicKey { key: pubkey },
        signature: sig,
    };
    proof {
        lemma_define_assemble(buf@, pos as int, d2);
        if let Some(d) = exp {
            lemma_le16_inj(code, d.body.asset.code.val);
            lemma_key_bytes_inj(issuer, d.body.asset.issuer.key);
            assert(le_bool(updatable)[0] == le_bool(d.body.asset.updatable)[0]);
            assert(updatable == d.body.asset.updatable);
            assert(le_bool(traceable)[0] == le_bool(d.body.asset.traceable)[0]);
            assert(traceable == d.body.asset.traceable);
            lemma_key_bytes_inj(pubkey, d.pubkey.key);
            lemma_sig_bytes_inj(sig, d.signature);
            assert(d2 == d);
        }
    }
    Some((d2, p6))
}

/// Read one asset issuance operation (after its tag), pinned to the
/// expected operation when one is given.
#[verifier::rlimit(100)]
#[verifier::spinoff_prover]
fn dec_issue(buf: &Vec<u8>, pos: usize, Ghost(exp): Ghost<Option<IssueAsset>>) -> (r: Option<
    (IssueAsset, usize),
>)
    requires
        exp matches Some(iv) ==> pos + crate::wire::issue_enc(iv).len() <= buf@.len()
            && buf@.subrange(pos as int, pos + crate::wire::issue_enc(iv).len())
            == crate::wire::issue_enc(iv),
    ensures
        match r {
            Some(p) => {
                &&& pos <= p.1 <= buf@.len()
                &&& crate::wire::issue_enc(p.0) == buf@.subrange(pos as int, p.1 as int)
            },
            None => exp is None,
        },
        exp matches Some(iv) ==> (r matches Some(p) && op_same(
            Operation::IssueAsset(p.0),
            Operation::IssueAsset(iv),
        ) && p.1 == pos + crate::wire::issue_enc(iv).len()),
{
    proof {
        if let Some(iv) = exp {
            vstd::std_specs::vec::axiom_spec_len(&iv.body.records);
            lemma_issue_parts(buf@, pos as int, iv);
        }
    }
    let code = match dec_u128(buf, pos) {
        None => {
            proof {
                if exp is Some {
                    assert(false);
                }
            }
            return None;
        },
        Some(q) => q.0,
    };
    let seq_num = match dec_u64(buf, pos + 16) {
        None => {
            proof {
                if exp is Some {
                    assert(false);
                }
            }
            return None;
        },
        Some(q) => q.0,
    };
    let num_outputs_w = match dec_u64(buf, pos + 24) {
        None => {
            proof {
                if exp is Some {
                    assert(false);
                }
            }
            return None;
        },
        Some(q) => q.0,
    };
    proof {
        if let Some(iv) = exp {
            lemma_le8_inj(num_outputs_w, iv.body.num_outputs as u64);
        }
    }
    if num_outputs_w > usize::MAX as u64 {
        proof {
            if exp is Some {
                assert(false);
            }
        }
        return None;
    }
    let (records, p4) = match dec_output_list(
        buf,
        pos + 32,
        Ghost(
            match exp {
                Some(iv) => Some(iv.body.records@),
                None => None,
            },
        ),
    ) {
        None => {
            return None;
        },
        Some(q) => q,
    };
    let (pubkey, p5) = match dec_public_key(buf, p4) {
        None => {
            proof {
                if exp is Some {
                    assert(false);
                }
            }
            return None;
        },
        Some(q) => q,
    };
    let (sig, p6) = match dec_signature(buf, p5) {
        None => {
            proof {
                if exp is Some {
                    assert(false);
                }
            }
            return None;
        },
        Some(q) => q,
    };
    let iss = IssueAsset {
        body: IssueAssetBody {
            code: AssetTypeCode { val: code },
            seq_num,
            num_outputs: num_outputs_w as usize,
            records,
        },
        pubkey: IssuerPublicKey { key: pubkey },
        signature: sig,
    };
    proof {
        lemma_issue_assemble(buf@, pos as int, p4 as int, iss);
        if let Some(iv) = exp {
            lemma_le16_inj(code, iv.body.code.val);
            lemma_le8_inj(seq_num, iv.body.seq_num);
            lemma_key_bytes_inj(pubkey, iv.pubkey.key);
            lemma_sig_bytes_inj(sig, iv.signature);
        }
    }
    Some((iss, p6))
}

/// Read one transfer operation (after its tag), pinned to the expected
/// operation when one is given.
#[verifier::rlimit(100)]
#[verifier::spinoff_prover]
fn dec_transfer(buf: &Vec<u8>, pos: usize, Ghost(exp): Ghost<Option<TransferAsset>>) -> (r: Option<
    (TransferAsset, usize),
>)
    requires
        exp matches Some(tv) ==> pos + crate::wire::transfer_enc(tv).len() <= buf@.len()
            && buf@.subrange(pos as int, pos + crate::wire::transfer_enc(tv).len())
            == crate::wire::transfer_enc(tv),
    ensures
        match r {
            Some(p) => {
                &&& pos <= p.1 <= buf@.len()
                &&& crate::wire::transfer_enc(p.0) == buf@.subrange(pos as int, p.1 as int)
            },
            None => exp is None,
        },
        exp matches Some(tv) ==> (r matches Some(p) && op_same(
            Operation::TransferAsset(p.0),
            Operation::TransferAsset(tv),
        ) && p.1 == pos + crate::wire::transfer_enc(tv).len()),
{
    proof {
        if let Some(tv) = exp {
            vstd::std_specs::vec::axiom_spec_len(&tv.body.inputs);
            vstd::std_specs::vec::axiom_spec_len(&tv.body.transfer.inputs);
            vstd::std_specs::vec::axiom_spec_len(&tv.body.transfer.outputs);
            vstd::std_specs::vec::axiom_spec_len(&tv.body_signatures);
            lemma_transfer_parts(buf@, pos as int, tv);
        }
    }
    let (inputs, p2) = match dec_ref_list(
        buf,
        pos,
        Ghost(
            match exp {
                Some(tv) => Some(tv.body.inputs@),
                None => None,
            },
        ),
    ) {
        None => {
            return None;
        },
        Some(q) => q,
    };
    let num_outputs_w = match dec_u64(buf, p2) {
        None => {
            proof {
                if exp is Some {
                    assert(false);
                }
            }
            return None;
        },
        Some(q) => q.0,
    };
    proof {
        if let Some(tv) = exp {
            lemma_le8_inj(num_outputs_w, tv.body.num_outputs as u64);
        }
    }
    if num_outputs_w > usize::MAX as u64 {
        proof {
            if exp is Some {
                assert(false);
            }
        }
        return None;
    }
    let (note_inputs, p4) = match dec_record_list(
        buf,
        p2 + 8,
        Ghost(
            match exp {
                Some(tv) => Some(tv.body.transfer.inputs@),
                None => None,
            },
        ),
    ) {
        None => {
            return None;
        },
        Some(q) => q,
    };
    let (note_outputs, p5) = match dec_record_list(
        buf,
        p4,
        Ghost(
            match exp {
                Some(tv) => Some(tv.body.transfer.outputs@),
                None => None,
            },
        ),
    ) {
        None => {
            return None;
        },
        Some(q) => q,
    };
    let (body_signatures, p6) = match dec_sig_list(
        buf,
        p5,
        Ghost(
            match exp {
                Some(tv) => Some(tv.body_signatures@),
                None => None,
            },
        ),
    ) {
        None => {
            return None;
        },
        Some(q) => q,
    };
    let t = TransferAsset {
        body: TransferAssetBody {
            inputs,
            num_outputs: num_outputs_w as usize,
            transfer: TransferNote { inputs: note_inputs, outputs: note_outputs },
        },
        body_signatures,
    };
    proof {
        lemma_transfer_assemble(
            buf@,
            pos as int,
            p2 as int,
            p4 as int,
            p5 as int,
            p6 as int,
            t,
        );
    }
    Some((t, p6))
}

/// Read one operation — its tag byte, then the operation — pinned to the
/// expected operation when one is given.
#[verifier::rlimit(100)]
#[verifier::spinoff_prover]
fn dec_operation(buf: &Vec<u8>, pos: usize, Ghost(exp): Ghost<Option<Operation>>) -> (r: Option<
    (Operation, usize),
>)
    requires
        exp matches Some(op) ==> pos + op_enc(op).len() <= buf@.len() && buf@.subrange(
            pos as int,
            pos + op_enc(op).len(),
        ) == op_enc(op),
    ensures
        match r {
            Some(p) => {
                &&& pos < p.1 <= buf@.len()
                &&& op_enc(p.0) == buf@.subrange(pos as int, p.1 as int)
            },
            None => exp is None,
        },
        exp matches Some(op) ==> (r matches Some(p) && op_same(p.0, op) && p.1 == pos + op_enc(
            op,
        ).len()),
{
    proof {
        if let Some(op) = exp {
            match op {
                Operation::DefineAsset(d) => {
                    lemma_concat_extract(buf@, pos as int, seq![0u8], crate::wire::define_enc(d));
                    assert(buf@.subrange(pos as int, pos as int + 1)[0] == buf@[pos as int]);
                },
                Operation::IssueAsset(i) => {
                    lemma_concat_extract(buf@, pos as int, seq![1u8], crate::wire::issue_enc(i));
                    assert(buf@.subrange(pos as int, pos as int + 1)[0] == buf@[pos as int]);
                },
                Operation::TransferAsset(t) => {
                    lemma_concat_extract(
                        buf@,
                        pos as int,
                        seq![2u8],
                        crate::wire::transfer_enc(t),
                    );
                    assert(buf@.subrange(pos as int, pos as int + 1)[0] == buf@[pos as int]);
                },
            }
        }
    }
    if pos >= buf.len() {
        proof {
            if exp is Some {
                assert(false);
            }
        }
        return None;
    }
    let tag = buf[pos];
    if tag == 0 {
        let (d, p2) = match dec_define(
            buf,
            pos + 1,
            Ghost(
                match exp {
                    Some(Operation::DefineAsset(d)) => Some(d),
                    _ => None,
                },
            ),
        ) {
            None => {
                proof {
                    if exp is Some {
                        assert(false);
                    }
                }
                return None;
            },
            Some(q) => q,
        };
        proof {
            lemma_tag_merge(
                buf@,
                pos as int,
                p2 as int,
                0u8,
                buf@.subrange(pos as int + 1, p2 as int),
            );
            assert(op_enc(Operation::DefineAsset(d)) == buf@.subrange(pos as int, p2 as int));
        }
        Some((Operation::DefineAsset(d), p2))
    } else if tag == 1 {
        let (i, p2) = match dec_issue(
            buf,
            pos + 1,
            Ghost(
                match exp {
                    Some(Operation::IssueAsset(i)) => Some(i),
                    _ => None,
                },
            ),
        ) {
            None => {
                proof {
                    if exp is Some {
                        assert(false);
                    }
                }
                return None;
            },
            Some(q) => q,
        };
        proof {
            lemma_tag_merge(
                buf@,
                pos as int,
                p2 as int,
                1u8,
                buf@.subrange(pos as int + 1, p2 as int),
            );
            assert(op_enc(Operation::IssueAsset(i)) == buf@.subrange(pos as int, p2 as int));
        }
        Some((Operation::IssueAsset(i), p2))
    } else if tag == 2 {
        let (t, p2) = match dec_transfer(
            buf,
            pos + 1,
            Ghost(
                match exp {
                    Some(Operation::TransferAsset(t)) => Some(t),
                    _ => None,
                },
            ),
        ) {
            None => {
                proof {
                    if exp is Some {
                        assert(false);
                    }
                }
                return None;
            },
            Some(q) => q,
        };
        proof {
            lemma_tag_merge(
                buf@,
                pos as int,
                p2 as int,
                2u8,
                buf@.subrange(pos as int + 1, p2 as int),
            );
            assert(op_enc(Operation::TransferAsset(t)) == buf@.subrange(pos as int, p2 as int));
        }
        Some((Operation::TransferAsset(t), p2))
    } else {
        proof {
            if exp is Some {
                assert(false);
            }
        }
        None
    }
}

/// Bytes starting with `tag` and continuing with `body` spell the tagged
/// form.
#[verifier::spinoff_prover]
proof fn lemma_tag_merge(b: Seq<u8>, pos: int, p2: int, tag: u8, body: Seq<u8>)
    requires
        0 <= pos < p2 <= b.len(),
        b[pos] == tag,
        b.subrange(pos + 1, p2) == body,
    ensures
        b.subrange(pos, p2) == seq![tag] + body,
{
    assert(b.subrange(pos, p2) =~= seq![tag] + body);
}

/// One more operation's bytes extend an operation list's encoding.
#[verifier::rlimit(100)]
#[verifier::spinoff_prover]
proof fn lemma_ops_extend(b: Seq<u8>, base: int, p: int, p2: int, pre: Seq<Operation>, op: Operation)
    requires
        0 <= base <= p <= p2 <= b.len(),
        b.subrange(base, p) == ops_enc(pre),
        b.subrange(p, p2) == op_enc(op),
    ensures
        b.subrange(base, p2) == ops_enc(pre.push(op)),
{
    assert(pre.push(op).drop_last() =~= pre);
    assert(pre.push(op).last() == op);
    assert(b.subrange(base, p2) =~= b.subrange(base, p) + b.subrange(p, p2));
}

/// Read one transaction — its operation count, then each operation —
/// pinned to the expected transaction when one is given.
#[verifier::loop_isolation(false)]
#[verifier::rlimit(100)]
#[verifier::spinoff_prover]
fn dec_txn(buf: &Vec<u8>, pos: usize, Ghost(exp): Ghost<Option<Transaction>>) -> (r: Option<
    (Transaction, usize),
>)
    requires
        exp matches Some(t) ==> pos + txn_enc(t).len() <= buf@.len() && buf@.subrange(
            pos as int,
            pos + txn_enc(t).len(),
        ) == txn_enc(t),
    ensures
        match r {
            Some(p) => {
                &&& pos + 8 <= p.1 <= buf@.len()
                &&& txn_enc(p.0) == buf@.subrange(pos as int, p.1 as int)
            },
            None => exp is None,
        },
        exp matches Some(t) ==> (r matches Some(p) && txn_same(p.0, t) && p.1 == pos + txn_enc(
            t,
        ).len()),
{
    proof {
        if let Some(t) = exp {
            vstd::std_specs::vec::axiom_spec_len(&t.operations);
            assert(le8(t.operations@.len() as u64).len() == 8);
            lemma_concat_extract(
                buf@,
                pos as int,
                le8(t.operations@.len() as u64),
                ops_enc(t.operations@),
            );
        }
    }
    let (count, mut p) = match dec_u64(buf, pos) {
        None => {
            proof {
                if exp is Some {
                    assert(false);
                }
            }
            return None;
        },
        Some(q) => q,
    };
    proof {
        if let Some(t) = exp {
            lemma_le8_inj(count, t.operations@.len() as u64);
            assert(t.operations@.skip(0) =~= t.operations@);
            assert(buf@.subrange(p as int, pos + 8 + ops_enc(t.operations@).len()) == ops_enc(
                t.operations@.skip(0),
            ));
        }
    }
    let mut ops: Vec<Operation> = Vec::new();
    let mut i: u64 = 0;
    proof {
        assert(buf@.subrange(p as int, p as int) =~= ops_enc(ops@));
    }
    while i < count
        invariant
            i <= count,
            ops@.len() == i,
            pos + 8 <= p <= buf@.len(),
            buf@.subrange(pos as int + 8, p as int) == ops_enc(ops@),
            exp matches Some(t) ==> {
                &&& forall|j: int| 0 <= j < i ==> op_same(#[trigger] ops@[j], t.operations@[j])
                &&& p <= pos + 8 + ops_enc(t.operations@).len()
                &&& buf@.subrange(p as int, pos + 8 + ops_enc(t.operations@).len()) == ops_enc(
                    t.operations@.skip(i as int),
                )
            },
        decreases count - i,
    {
        proof {
            if let Some(t) = exp {
                lemma_ops_cons(t.operations@.skip(i as int));
                assert(t.operations@.skip(i as int).first() == t.operations@[i as int]);
                assert(t.operations@.skip(i as int).drop_first() =~= t.operations@.skip(
                    i as int + 1,
                ));
                lemma_concat_extract(
                    buf@,
                    p as int,
                    op_enc(t.operations@[i as int]),
                    ops_enc(t.operations@.skip(i as int + 1)),
                );
            }
        }
        let (op, p2) = match dec_operation(
            buf,
            p,
            Ghost(
                match exp {
                    Some(t) => Some(t.operations@[i as int]),
                    None => None,
                },
            ),
        ) {
            None => {
                return None;
            },
            Some(q) => q,
        };
        let ghost pre = ops@;
        ops.push(op);
        proof {
            lemma_ops_extend(buf@, pos as int + 8, p as int, p2 as int, pre, op);
            assert(ops@ =~= pre.push(op));
        }
        p = p2;
        i = i + 1;
    }
    let t2 = Transaction { operations: ops };
    proof {
        assert(t2.operations@.len() as u64 == count);
        assert(buf@.subrange(pos as int, p as int) =~= buf@.subrange(pos as int, pos as int + 8)
            + buf@.subrange(pos as int + 8, p as int));
        assert(txn_enc(t2) == buf@.subrange(pos as int, p as int));
        if let Some(t) = exp {
            assert(t.operations@.skip(count as int) =~= Seq::<Operation>::empty());
            assert(ops_enc(t.operations@.skip(count as int)).len() == 0);
        }
    }
    Some((t2, p))
}

/// Read one committed transaction from the log, pinned to the expected
/// entry when one is given.
#[verifier::rlimit(100)]
#[verifier::spinoff_prover]
fn dec_finalized(buf: &Vec<u8>, pos: usize, Ghost(exp): Ghost<Option<FinalizedTransaction>>) -> (r:
    Option<(FinalizedTransaction, usize)>)
    requires
        exp matches Some(ft) ==> pos + finalized_enc(ft).len() <= buf@.len() && buf@.subrange(
            pos as int,
            pos + finalized_enc(ft).len(),
        ) == finalized_enc(ft),
    ensures
        match r {
            Some(p) => {
                &&& pos < p.1 <= buf@.len()
                &&& finalized_enc(p.0) == buf@.subrange(pos as int, p.1 as int)
            },
            None => exp is None,
        },
        exp matches Some(ft) ==> (r matches Some(p) && finalized_same(p.0, ft) && p.1 == pos
            + finalized_enc(ft).len()),
{
    proof {
        if let Some(ft) = exp {
            assert(le8(ft.tx_id.0 as u64).len() == 8 && le8(ft.merkle_id).len() == 8);
            lemma_concat_extract(
                buf@,
                pos as int,
                txn_enc(ft.txn) + le8(ft.tx_id.0 as u64),
                le8(ft.merkle_id),
            );
            lemma_concat_extract(buf@, pos as int, txn_enc(ft.txn), le8(ft.tx_id.0 as u64));
        }
    }
    let (txn, p2) = match dec_txn(
        buf,
        pos,
        Ghost(
            match exp {
                Some(ft) => Some(ft.txn),
                None => None,
            },
        ),
    ) {
        None => {
            return None;
        },
        Some(q) => q,
    };
    let tx_id_w = match dec_u64(buf, p2) {
        None => {
            proof {
                if exp is Some {
                    assert(false);
                }
            }
            return None;
        },
        Some(q) => q.0,
    };
    proof {
        if let Some(ft) = exp {
            lemma_le8_inj(tx_id_w, ft.tx_id.0 as u64);
        }
    }
    if tx_id_w > usize::MAX as u64 {
        proof {
            if exp is Some {
                assert(false);
            }
        }
        return None;
    }
    let merkle_id = match dec_u64(buf, p2 + 8) {
        None => {
            proof {
                if exp is Some {
                    assert(false);
                }
            }
            return None;
        },
        Some(q) => q.0,
    };
    let ft2 = FinalizedTransaction { txn, tx_id: TxnSID(tx_id_w as usize), merkle_id };
    proof {
        let b = buf@;
        assert(b.subrange(pos as int, p2 as int + 8) =~= b.subrange(pos as int, p2 as int)
            + b.subrange(p2 as int, p2 as int + 8));
        assert(b.subrange(pos as int, p2 as int + 16) =~= b.subrange(pos as int, p2 as int + 8)
            + b.subrange(p2 as int + 8, p2 as int + 16));
        assert(finalized_enc(ft2) == b.subrange(pos as int, p2 as int + 16));
        if let Some(ft) = exp {
            lemma_le8_inj(merkle_id, ft.merkle_id);
        }
    }
    Some((ft2, p2 + 16))
}

/// Read committed transactions from the start of a log until its bytes no
/// longer parse, and say how many bytes were consumed. The consumed prefix
/// is exactly the wire form of what came back, and when the caller knows
/// which entries the log holds, the decoder is proven to return exactly
/// those entries with the whole buffer consumed: the log round trip loses
/// nothing.
#[verifier::loop_isolation(false)]
#[verifier::rlimit(100)]
#[verifier::spinoff_prover]
pub fn decode_txn_log_checked(
    buf: &Vec<u8>,
    Ghost(exp): Ghost<Option<Seq<FinalizedTransaction>>>,
) -> (r: (Vec<FinalizedTransaction>, usize))
    requires
        exp matches Some(fts) ==> buf@ == log_enc(fts),
    ensures
        r.1 <= buf@.len(),
        buf@.subrange(0, r.1 as int) == log_enc(r.0@),
        exp matches Some(fts) ==> {
            &&& r.0@.len() == fts.len()
            &&& forall|i: int| 0 <= i < fts.len() ==> finalized_same(#[trigger] r.0@[i], fts[i])
            &&& r.1 == buf@.len()
        },
{
    let mut out: Vec<FinalizedTransaction> = Vec::new();
    let mut p: usize = 0;
    proof {
        assert(buf@.subrange(0, 0) =~= log_enc(out@));
        if let Some(fts) = exp {
            assert(fts.skip(0) =~= fts);
            assert(buf@.subrange(0, buf@.len() as int) =~= buf@);
            assert(buf@.subrange(0, buf@.len() as int) == log_enc(fts.skip(0)));
        }
    }
    loop
        invariant
            p <= buf@.len(),
            buf@.subrange(0, p as int) == log_enc(out@),
            exp matches Some(fts) ==> {
                &&& out@.len() <= fts.len()
                &&& forall|i: int|
                    0 <= i < out@.len() ==> finalized_same(#[trigger] out@[i], fts[i])
                &&& buf@.subrange(p as int, buf@.len() as int) == log_enc(
                    fts.skip(out@.len() as int),
                )
            },
        decreases buf@.len() - p,
    {
        let ghost gentry: Option<FinalizedTransaction> = match exp {
            Some(fts) => if out@.len() < fts.len() {
                Some(fts[out@.len() as int])
            } else {
                None
            },
            None => None,
        };
        proof {
            if let Some(fts) = exp {
                if out@.len() < fts.len() {
                    lemma_log_step(buf@, p as int, fts, out@.len() as int);
                } else {
                    assert(fts.skip(out@.len() as int) =~= Seq::<FinalizedTransaction>::empty());
                    assert(log_enc(fts.skip(out@.len() as int)).len() == 0);
                }
            }
        }
        match dec_finalized(buf, p, Ghost(gentry)) {
            None => {
                proof {
                    if let Some(fts) = exp {
                        assert(out@.len() == fts.len());
                        assert(p == buf@.len());
                    }
                }
                return (out, p);
            },
            Some((ft, p2)) => {
                proof {
                    if let Some(fts) = exp {
                        if out@.len() >= fts.len() {
                            assert(p == buf@.len());
                            assert(finalized_enc(ft).len() == p2 - p);
                            assert(le8(ft.tx_id.0 as u64).len() == 8);
                            assert(false);
                        }
                    }
                }
                let ghost pre = out@;
                out.push(ft);
                proof {
                    assert(out@.drop_last() =~= pre);
                    assert(buf@.subrange(0, p2 as int) =~= buf@.subrange(0, p as int)
                        + buf@.subrange(p as int, p2 as int));
                }
                p = p2;
            },
        }
    }
}

/// Whether `buf` is the wire form of some transaction log.
pub open spec fn is_log_enc(buf: Seq<u8>) -> bool {
    exists|fts: Seq<FinalizedTransaction>| buf == #[trigger] log_enc(fts)
}

/// Read committed transactions from the start of a log until its bytes no
/// longer parse: the consumed prefix is exactly the wire form of what came
/// back, and a well-formed log is consumed in full.
pub fn decode_txn_log(buf: &Vec<u8>) -> (r: (Vec<FinalizedTransaction>, usize))
    ensures
        r.1 <= buf@.len(),
        buf@.subrange(0, r.1 as int) == log_enc(r.0@),
        is_log_enc(buf@) ==> r.1 == buf@.len(),
{
    let ghost gexp: Option<Seq<FinalizedTransaction>> = if is_log_enc(buf@) {
        Some(choose|fts: Seq<FinalizedTransaction>| buf@ == #[trigger] log_enc(fts))
    } else {
        None
    };
    decode_txn_log_checked(buf, Ghost(gexp))
}

} // verus!
