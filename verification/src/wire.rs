use vstd::prelude::*;

use crate::codec::enc_bool;
use crate::codec::enc_u128;
use crate::codec::enc_u64;
use crate::codec::le16;
use crate::codec::le8;
use crate::codec::le_bool;
use crate::types::Asset;
use crate::types::DefineAsset;
use crate::types::IssueAsset;
use crate::types::Operation;
use crate::types::SignedAddress;
use crate::types::Transaction;
use crate::types::TransferAsset;
use crate::types::TxnSID;
use crate::types::AssetRecord;
use crate::types::DefineAssetBody;
use crate::types::IssueAssetBody;
use crate::types::TransferAssetBody;
use crate::types::TransferNote;
use crate::types::TxOutput;
use crate::types::TxoRef;

verus! {

/// The wire form of an asset record.
pub open spec fn record_enc(r: AssetRecord) -> Seq<u8> {
    le8(r.amount) + le16(r.code.val) + r.owner.bytes()
}

/// The wire form of a list of asset records, in order.
pub open spec fn records_enc(rs: Seq<AssetRecord>) -> Seq<u8>
    decreases rs.len(),
{
    if rs.len() == 0 {
        Seq::empty()
    } else {
        records_enc(rs.drop_last()) + record_enc(rs.last())
    }
}

/// The wire form of a list of transaction outputs, in order.
pub open spec fn outputs_enc(rs: Seq<TxOutput>) -> Seq<u8>
    decreases rs.len(),
{
    if rs.len() == 0 {
        Seq::empty()
    } else {
        outputs_enc(rs.drop_last()) + record_enc(rs.last().0)
    }
}

/// The wire form of an output reference: a tag byte, then the offset or the
/// absolute identifier.
pub open spec fn txo_ref_enc(r: TxoRef) -> Seq<u8> {
    match r {
        TxoRef::Relative(offs) => seq![0u8] + le8(offs),
        TxoRef::Absolute(sid) => seq![1u8] + le8(sid.0),
    }
}

/// The wire form of a list of output references, in order.
pub open spec fn refs_enc(rs: Seq<TxoRef>) -> Seq<u8>
    decreases rs.len(),
{
    if rs.len() == 0 {
        Seq::empty()
    } else {
        refs_enc(rs.drop_last()) + txo_ref_enc(rs.last())
    }
}

/// The wire form of an asset declaration.
pub open spec fn asset_enc(a: Asset) -> Seq<u8> {
    le16(a.code.val) + a.issuer.key.bytes() + le_bool(a.updatable) + le_bool(a.traceable)
}

/// The bytes an asset definition is signed over.
pub open spec fn define_body_enc(b: DefineAssetBody) -> Seq<u8> {
    asset_enc(b.asset)
}

/// The bytes an asset issuance is signed over.
pub open spec fn issue_body_enc(b: IssueAssetBody) -> Seq<u8> {
    le16(b.code.val) + le8(b.seq_num) + le8(b.num_outputs as u64) + le8(b.records@.len() as u64)
        + outputs_enc(b.records@)
}

/// The wire form of a transfer note.
pub open spec fn note_enc(n: TransferNote) -> Seq<u8> {
    le8(n.inputs@.len() as u64) + records_enc(n.inputs@) + le8(n.outputs@.len() as u64)
        + records_enc(n.outputs@)
}

/// The bytes a transfer is signed over.
pub open spec fn transfer_body_enc(b: TransferAssetBody) -> Seq<u8> {
    le8(b.inputs@.len() as u64) + refs_enc(b.inputs@) + le8(b.num_outputs as u64) + note_enc(
        b.transfer,
    )
}

/// Append the wire form of one record.
pub fn enc_record(out: &mut Vec<u8>, r: &AssetRecord)
    ensures
        final(out)@ == old(out)@ + record_enc(*r),
{
    enc_u64(out, r.amount);
    enc_u128(out, r.code.val);
    crate::codec::push_all(out, &crate::crypto::public_key_bytes(&r.owner));
    proof {
        assert(out@ =~= old(out)@ + record_enc(*r));
    }
}

/// Append the wire form of a list of records.
pub fn enc_records(out: &mut Vec<u8>, rs: &Vec<AssetRecord>)
    ensures
        final(out)@ == old(out)@ + records_enc(rs@),
{
    let n = rs.len();
    for i in 0..n
        invariant
            n == rs@.len(),
            out@ == old(out)@ + records_enc(rs@.take(i as int)),
    {
        enc_record(out, &rs[i]);
        proof {
            assert(rs@.take(i as int + 1).drop_last() =~= rs@.take(i as int));
            assert(rs@.take(i as int + 1).last() == rs@[i as int]);
        }
    }
    proof {
        assert(rs@.take(n as int) =~= rs@);
    }
}

/// Append the wire form of a list of outputs.
pub fn enc_outputs(out: &mut Vec<u8>, rs: &Vec<TxOutput>)
    ensures
        final(out)@ == old(out)@ + outputs_enc(rs@),
{
    let n = rs.len();
    for i in 0..n
        invariant
            n == rs@.len(),
            out@ == old(out)@ + outputs_enc(rs@.take(i as int)),
    {
        enc_record(out, &rs[i].0);
        proof {
            assert(rs@.take(i as int + 1).drop_last() =~= rs@.take(i as int));
            assert(rs@.take(i as int + 1).last() == rs@[i as int]);
        }
    }
    proof {
        assert(rs@.take(n as int) =~= rs@);
    }
}

/// Append the wire form of one output reference.
pub fn enc_txo_ref(out: &mut Vec<u8>, r: &TxoRef)
    ensures
        final(out)@ == old(out)@ + txo_ref_enc(*r),
{
    match r {
        TxoRef::Relative(offs) => {
            out.push(0u8);
            enc_u64(out, *offs);
        },
        TxoRef::Absolute(sid) => {
            out.push(1u8);
            enc_u64(out, sid.0);
        },
    }
    proof {
        assert(out@ =~= old(out)@ + txo_ref_enc(*r));
    }
}

/// Append the wire form of a list of output references.
pub fn enc_refs(out: &mut Vec<u8>, rs: &Vec<TxoRef>)
    ensures
        final(out)@ == old(out)@ + refs_enc(rs@),
{
    let n = rs.len();
    for i in 0..n
        invariant
            n == rs@.len(),
            out@ == old(out)@ + refs_enc(rs@.take(i as int)),
    {
        enc_txo_ref(out, &rs[i]);
        proof {
            assert(rs@.take(i as int + 1).drop_last() =~= rs@.take(i as int));
            assert(rs@.take(i as int + 1).last() == rs@[i as int]);
        }
    }
    proof {
        assert(rs@.take(n as int) =~= rs@);
    }
}

/// The bytes an asset definition is signed over.
pub fn define_body_bytes(b: &DefineAssetBody) -> (r: Vec<u8>)
    ensures
        r@ == define_body_enc(*b),
{
    let mut out: Vec<u8> = Vec::new();
    enc_u128(&mut out, b.asset.code.val);
    crate::codec::push_all(&mut out, &crate::crypto::public_key_bytes(&b.asset.issuer.key));
    enc_bool(&mut out, b.asset.updatable);
    enc_bool(&mut out, b.asset.traceable);
    proof {
        assert(out@ =~= define_body_enc(*b));
    }
    out
}

/// The bytes an asset issuance is signed over.
pub fn issue_body_bytes(b: &IssueAssetBody) -> (r: Vec<u8>)
    ensures
        r@ == issue_body_enc(*b),
{
    let mut out: Vec<u8> = Vec::new();
    enc_u128(&mut out, b.code.val);
    enc_u64(&mut out, b.seq_num);
    enc_u64(&mut out, b.num_outputs as u64);
    enc_u64(&mut out, b.records.len() as u64);
    enc_outputs(&mut out, &b.records);
    proof {
        assert(out@ =~= issue_body_enc(*b));
    }
    out
}

/// The bytes a transfer is signed over.
pub fn transfer_body_bytes(b: &TransferAssetBody) -> (r: Vec<u8>)
    ensures
        r@ == transfer_body_enc(*b),
{
    let mut out: Vec<u8> = Vec::new();
    enc_u64(&mut out, b.inputs.len() as u64);
    enc_refs(&mut out, &b.inputs);
    enc_u64(&mut out, b.num_outputs as u64);
    enc_u64(&mut out, b.transfer.inputs.len() as u64);
    enc_records(&mut out, &b.transfer.inputs);
    enc_u64(&mut out, b.transfer.outputs.len() as u64);
    enc_records(&mut out, &b.transfer.outputs);
    proof {
        assert(out@ =~= transfer_body_enc(*b));
    }
    out
}

/// The wire form of a whole asset definition operation.
pub open spec fn define_enc(d: DefineAsset) -> Seq<u8> {
    define_body_enc(d.body) + d.pubkey.key.bytes() + d.signature.bytes()
}

/// The wire form of a whole asset issuance operation.
pub open spec fn issue_enc(i: IssueAsset) -> Seq<u8> {
    issue_body_enc(i.body) + i.pubkey.key.bytes() + i.signature.bytes()
}

/// The wire form of a list of body signatures, in order.
pub open spec fn sigs_enc(ss: Seq<SignedAddress>) -> Seq<u8>
    decreases ss.len(),
{
    if ss.len() == 0 {
        Seq::empty()
    } else {
        sigs_enc(ss.drop_last()) + ss.last().address.bytes() + ss.last().signature.bytes()
    }
}

/// The wire form of a whole transfer operation.
pub open spec fn transfer_enc(t: TransferAsset) -> Seq<u8> {
    transfer_body_enc(t.body) + le8(t.body_signatures@.len() as u64) + sigs_enc(t.body_signatures@)
}

/// The wire form of one operation: a tag byte, then the operation.
pub open spec fn op_enc(op: Operation) -> Seq<u8> {
    match op {
        Operation::DefineAsset(d) => seq![0u8] + define_enc(d),
        Operation::IssueAsset(i) => seq![1u8] + issue_enc(i),
        Operation::TransferAsset(t) => seq![2u8] + transfer_enc(t),
    }
}

/// The wire form of a list of operations, in order.
pub open spec fn ops_enc(ops: Seq<Operation>) -> Seq<u8>
    decreases ops.len(),
{
    if ops.len() == 0 {
        Seq::empty()
    } else {
        ops_enc(ops.drop_last()) + op_enc(ops.last())
    }
}

/// The wire form of a transaction: its operation count, then each
/// operation.
pub open spec fn txn_enc(t: Transaction) -> Seq<u8> {
    le8(t.operations@.len() as u64) + ops_enc(t.operations@)
}

/// The bytes hashed into the accumulator for a transaction committed under
/// `sid`: the transaction's wire form, then the identifier.
pub open spec fn merkle_leaf_enc(t: Transaction, sid: TxnSID) -> Seq<u8> {
    txn_enc(t) + le8(sid.0 as u64)
}

/// Append the wire form of a list of body signatures.
fn enc_sigs(out: &mut Vec<u8>, ss: &Vec<SignedAddress>)
    ensures
        final(out)@ == old(out)@ + sigs_enc(ss@),
{
    let n = ss.len();
    for i in 0..n
        invariant
            n == ss@.len(),
            out@ == old(out)@ + sigs_enc(ss@.take(i as int)),
    {
        let sa = &ss[i];
        crate::codec::push_all(out, &crate::crypto::public_key_bytes(&sa.address));
        crate::codec::push_all(out, &crate::crypto::signature_bytes(&sa.signature));
        proof {
            assert(ss@.take(i as int + 1).drop_last() =~= ss@.take(i as int));
            assert(out@ =~= old(out)@ + sigs_enc(ss@.take(i as int + 1)));
        }
    }
    proof {
        assert(ss@.take(n as int) =~= ss@);
    }
}

/// Append the wire form of one operation.
pub fn enc_operation(out: &mut Vec<u8>, op: &Operation)
    ensures
        final(out)@ == old(out)@ + op_enc(*op),
{
    match op {
        Operation::DefineAsset(d) => {
            out.push(0u8);
            crate::codec::push_all(out, &define_body_bytes(&d.body));
            crate::codec::push_all(out, &crate::crypto::public_key_bytes(&d.pubkey.key));
            crate::codec::push_all(out, &crate::crypto::signature_bytes(&d.signature));
        },
        Operation::IssueAsset(i) => {
            out.push(1u8);
            crate::codec::push_all(out, &issue_body_bytes(&i.body));
            crate::codec::push_all(out, &crate::crypto::public_key_bytes(&i.pubkey.key));
            crate::codec::push_all(out, &crate::crypto::signature_bytes(&i.signature));
        },
        Operation::TransferAsset(t) => {
            out.push(2u8);
            crate::codec::push_all(out, &transfer_body_bytes(&t.body));
            enc_u64(out, t.body_signatures.len() as u64);
            enc_sigs(out, &t.body_signatures);
        },
    }
    proof {
        assert(out@ =~= old(out)@ + op_enc(*op));
    }
}

/// The wire form of a transaction.
pub fn txn_bytes(t: &Transaction) -> (r: Vec<u8>)
    ensures
        r@ == txn_enc(*t),
{
    let mut out: Vec<u8> = Vec::new();
    enc_u64(&mut out, t.operations.len() as u64);
    let n = t.operations.len();
    for i in 0..n
        invariant
            n == t.operations@.len(),
            out@ == le8(t.operations@.len() as u64) + ops_enc(t.operations@.take(i as int)),
    {
        enc_operation(&mut out, &t.operations[i]);
        proof {
            assert(t.operations@.take(i as int + 1).drop_last() =~= t.operations@.take(i as int));
        }
    }
    proof {
        assert(t.operations@.take(n as int) =~= t.operations@);
        assert(out@ =~= txn_enc(*t));
    }
    out
}

/// The accumulator leaf hash binding a transaction to its identifier.
pub fn txn_merkle_hash(t: &Transaction, sid: TxnSID) -> (r: crate::crypto::BitDigest)
    ensures
        r.bytes() == crate::crypto::sha256_of(merkle_leaf_enc(*t, sid)),
{
    let mut buf = txn_bytes(t);
    enc_u64(&mut buf, sid.0 as u64);
    proof {
        assert(buf@ =~= merkle_leaf_enc(*t, sid));
    }
    crate::crypto::hash_bytes(&buf)
}

} // verus!
