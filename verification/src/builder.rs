use vstd::prelude::*;

use crate::crypto::pk_of;
use crate::crypto::public_of_secret;
use crate::crypto::sig_of;
use crate::crypto::sig_verify_ok;
use crate::crypto::sign_message;
use crate::crypto::PublicKey;
use crate::crypto::SecretKey;
use crate::crypto::Signature;
use crate::effects::all_sigs_ok;
use crate::errors::PlatformError;
use crate::types::Asset;
use crate::types::AssetRecord;
use crate::types::AssetTypeCode;
use crate::types::ConfidentialMemo;
use crate::types::DefineAsset;
use crate::types::DefineAssetBody;
use crate::types::IssueAsset;
use crate::types::IssueAssetBody;
use crate::types::IssuerPublicKey;
use crate::types::Memo;
use crate::types::Operation;
use crate::types::SignedAddress;
use crate::types::Transaction;
use crate::types::TransferAsset;
use crate::types::TransferAssetBody;
use crate::types::TransferNote;
use crate::types::TxOutput;
use crate::types::TxoRef;
use crate::wire::define_body_enc;
use crate::wire::issue_body_enc;
use crate::wire::transfer_body_enc;

verus! {

/// Derive the public key that signs for `seed`; the secret key is the seed
/// itself.
pub fn build_keys(seed: &SecretKey) -> (r: (PublicKey, SecretKey))
    ensures
        r.0.bytes() == pk_of(seed.bytes()),
        r.1 == *seed,
{
    (public_of_secret(seed), *seed)
}

/// Sign `message` with `secret_key`; the public key rides along only to
/// mirror how callers hold their key pairs.
pub fn compute_signature(secret_key: &SecretKey, _public_key: &PublicKey, message: &Vec<u8>) -> (r:
    Signature)
    ensures
        r.bytes() == sig_of(secret_key.bytes(), message@),
        sig_verify_ok(pk_of(secret_key.bytes()), message@, r.bytes()),
{
    sign_message(secret_key, message)
}

/// Assemble an asset-definition body from its parts.
pub fn asset_creation_body(
    token_code: &AssetTypeCode,
    issuer_key: &PublicKey,
    updatable: bool,
    traceable: bool,
    memo: Option<Memo>,
    confidential_memo: Option<ConfidentialMemo>,
) -> (r: DefineAssetBody)
    ensures
        r.asset.code == *token_code,
        r.asset.issuer.key == *issuer_key,
        r.asset.updatable == updatable,
        r.asset.traceable == traceable,
{
    let m = match memo {
        Some(m) => m,
        None => Memo {  },
    };
    let cm = match confidential_memo {
        Some(cm) => cm,
        None => ConfidentialMemo {  },
    };
    DefineAssetBody {
        asset: Asset {
            code: *token_code,
            issuer: IssuerPublicKey { key: *issuer_key },
            updatable,
            traceable,
            memo: m,
            confidential_memo: cm,
        },
    }
}

/// Sign an asset-definition body into a definition operation.
pub fn asset_creation_operation(
    asset_body: &DefineAssetBody,
    public_key: &PublicKey,
    secret_key: &SecretKey,
) -> (r: DefineAsset)
    ensures
        r.body == *asset_body,
        r.pubkey.key == *public_key,
        r.signature.bytes() == sig_of(secret_key.bytes(), define_body_enc(*asset_body)),
        sig_verify_ok(pk_of(secret_key.bytes()), define_body_enc(*asset_body), r.signature.bytes()),
{
    let body_bytes = crate::wire::define_body_bytes(asset_body);
    let sig = compute_signature(secret_key, public_key, &body_bytes);
    DefineAsset { body: *asset_body, pubkey: IssuerPublicKey { key: *public_key }, signature: sig }
}

/// A plain copy of a list of outputs.
pub(crate) fn copy_outputs(v: &Vec<TxOutput>) -> (r: Vec<TxOutput>)
    ensures
        r@ == v@,
{
    let mut r: Vec<TxOutput> = Vec::new();
    let n = v.len();
    for i in 0..n
        invariant
            n == v@.len(),
            r@ == v@.take(i as int),
    {
        r.push(v[i]);
        proof {
            assert(v@.take(i as int + 1) =~= v@.take(i as int).push(v@[i as int]));
        }
    }
    proof {
        assert(v@.take(n as int) =~= v@);
    }
    r
}

/// A plain copy of a list of records.
pub(crate) fn copy_records(v: &Vec<AssetRecord>) -> (r: Vec<AssetRecord>)
    ensures
        r@ == v@,
{
    let mut r: Vec<AssetRecord> = Vec::new();
    let n = v.len();
    for i in 0..n
        invariant
            n == v@.len(),
            r@ == v@.take(i as int),
    {
        r.push(v[i]);
        proof {
            assert(v@.take(i as int + 1) =~= v@.take(i as int).push(v@[i as int]));
        }
    }
    proof {
        assert(v@.take(n as int) =~= v@);
    }
    r
}

/// A plain copy of a list of output references.
pub(crate) fn copy_refs(v: &Vec<TxoRef>) -> (r: Vec<TxoRef>)
    ensures
        r@ == v@,
{
    let mut r: Vec<TxoRef> = Vec::new();
    let n = v.len();
    for i in 0..n
        invariant
            n == v@.len(),
            r@ == v@.take(i as int),
    {
        r.push(v[i]);
        proof {
            assert(v@.take(i as int + 1) =~= v@.take(i as int).push(v@[i as int]));
        }
    }
    proof {
        assert(v@.take(n as int) =~= v@);
    }
    r
}

/// A plain copy of a list of body signatures.
pub(crate) fn copy_sigs(v: &Vec<SignedAddress>) -> (r: Vec<SignedAddress>)
    ensures
        r@ == v@,
{
    let mut r: Vec<SignedAddress> = Vec::new();
    let n = v.len();
    for i in 0..n
        invariant
            n == v@.len(),
            r@ == v@.take(i as int),
    {
        r.push(v[i]);
        proof {
            assert(v@.take(i as int + 1) =~= v@.take(i as int).push(v@[i as int]));
        }
    }
    proof {
        assert(v@.take(n as int) =~= v@);
    }
    r
}

/// A deep copy of a transfer operation.
pub(crate) fn copy_transfer(t: &TransferAsset) -> (r: TransferAsset)
    ensures
        r.body.inputs@ == t.body.inputs@,
        r.body.num_outputs == t.body.num_outputs,
        r.body.transfer.inputs@ == t.body.transfer.inputs@,
        r.body.transfer.outputs@ == t.body.transfer.outputs@,
        r.body_signatures@ == t.body_signatures@,
{
    TransferAsset {
        body: TransferAssetBody {
            inputs: copy_refs(&t.body.inputs),
            num_outputs: t.body.num_outputs,
            transfer: TransferNote {
                inputs: copy_records(&t.body.transfer.inputs),
                outputs: copy_records(&t.body.transfer.outputs),
            },
        },
        body_signatures: copy_sigs(&t.body_signatures),
    }
}

/// Accumulates operations into a transaction.
#[derive(Clone, Debug, PartialEq, Eq)]
pub struct TransactionBuilder {
    pub txn: Transaction,
    pub outputs: u64,
}

impl TransactionBuilder {
    /// A builder holding an empty transaction.
    pub fn new() -> (r: TransactionBuilder)
        ensures
            r.txn.operations@.len() == 0,
            r.outputs == 0,
    {
        TransactionBuilder { txn: Transaction::new(), outputs: 0 }
    }

    /// The transaction built so far.
    pub fn transaction(&self) -> (r: &Transaction)
        ensures
            r == self.txn,
    {
        &self.txn
    }

    /// Append one ready-made operation.
    pub fn add_operation(&mut self, op: Operation)
        ensures
            final(self).txn.operations@ == old(self).txn.operations@.push(op),
            final(self).outputs == old(self).outputs,
    {
        self.txn.add_operation(op);
    }

    /// Append a signed asset definition.
    pub fn add_operation_create_asset(
        &mut self,
        pub_key: &PublicKey,
        priv_key: &SecretKey,
        token_code: AssetTypeCode,
        updatable: bool,
        traceable: bool,
        memo: Option<Memo>,
    ) -> (r: Result<(), PlatformError>)
        ensures
            r is Ok,
            final(self).outputs == old(self).outputs,
            final(self).txn.operations@.len() == old(self).txn.operations@.len() + 1,
            final(self).txn.operations@.drop_last() == old(self).txn.operations@,
            ({
                let op = final(self).txn.operations@.last();
                &&& op is DefineAsset
                &&& op->DefineAsset_0.body.asset.code == token_code
                &&& op->DefineAsset_0.body.asset.updatable == updatable
                &&& op->DefineAsset_0.body.asset.traceable == traceable
                &&& op->DefineAsset_0.pubkey.key == *pub_key
                &&& op->DefineAsset_0.signature.bytes() == sig_of(
                    priv_key.bytes(),
                    define_body_enc(op->DefineAsset_0.body),
                )
            }),
    {
        let body = asset_creation_body(&token_code, pub_key, updatable, traceable, memo, None);
        let op = asset_creation_operation(&body, pub_key, priv_key);
        self.txn.add_operation(Operation::DefineAsset(op));
        Ok(())
    }

    /// Append a signed asset issuance over the given records.
    pub fn add_operation_issue_asset(
        &mut self,
        pub_key: &PublicKey,
        priv_key: &SecretKey,
        token_code: &AssetTypeCode,
        seq_num: u64,
        records: &Vec<TxOutput>,
    ) -> (r: Result<(), PlatformError>)
        ensures
            r is Ok,
            final(self).outputs == old(self).outputs,
            final(self).txn.operations@.len() == old(self).txn.operations@.len() + 1,
            final(self).txn.operations@.drop_last() == old(self).txn.operations@,
            ({
                let op = final(self).txn.operations@.last();
                &&& op is IssueAsset
                &&& op->IssueAsset_0.body.code == *token_code
                &&& op->IssueAsset_0.body.seq_num == seq_num
                &&& op->IssueAsset_0.body.num_outputs == records@.len()
                &&& op->IssueAsset_0.body.records@ == records@
                &&& op->IssueAsset_0.pubkey.key == *pub_key
                &&& op->IssueAsset_0.signature.bytes() == sig_of(
                    priv_key.bytes(),
                    issue_body_enc(op->IssueAsset_0.body),
                )
            }),
    {
        let body = IssueAssetBody {
            code: *token_code,
            seq_num,
            num_outputs: records.len(),
            records: copy_outputs(records),
        };
        let body_bytes = crate::wire::issue_body_bytes(&body);
        let sig = compute_signature(priv_key, pub_key, &body_bytes);
        let op = IssueAsset {
            body,
            pubkey: IssuerPublicKey { key: *pub_key },
            signature: sig,
        };
        self.txn.add_operation(Operation::IssueAsset(op));
        Ok(())
    }

    /// Append an unsigned transfer over the given inputs and outputs.
    pub fn add_operation_transfer_asset(
        &mut self,
        input_sids: Vec<TxoRef>,
        input_records: &Vec<AssetRecord>,
        output_records: &Vec<AssetRecord>,
    ) -> (r: Result<(), PlatformError>)
        ensures
            r is Ok,
            final(self).outputs == old(self).outputs,
            final(self).txn.operations@.len() == old(self).txn.operations@.len() + 1,
            final(self).txn.operations@.drop_last() == old(self).txn.operations@,
            ({
                let op = final(self).txn.operations@.last();
                &&& op is TransferAsset
                &&& op->TransferAsset_0.body.inputs@ == input_sids@
                &&& op->TransferAsset_0.body.num_outputs == output_records@.len()
                &&& op->TransferAsset_0.body.transfer.inputs@ == input_records@
                &&& op->TransferAsset_0.body.transfer.outputs@ == output_records@
                &&& op->TransferAsset_0.body_signatures@.len() == 0
            }),
    {
        let op = TransferAsset {
            body: TransferAssetBody {
                inputs: input_sids,
                num_outputs: output_records.len(),
                transfer: TransferNote {
                    inputs: copy_records(input_records),
                    outputs: copy_records(output_records),
                },
            },
            body_signatures: Vec::new(),
        };
        self.txn.add_operation(Operation::TransferAsset(op));
        Ok(())
    }

    /// The wire form of the transaction built so far.
    pub fn serialize(&self) -> (r: Result<Vec<u8>, PlatformError>)
        ensures
            r is Ok,
            r->Ok_0@ == crate::wire::txn_enc(self.txn),
    {
        Ok(crate::wire::txn_bytes(&self.txn))
    }
}

/// The sum of a list of spend amounts.
pub open spec fn sum_u64(s: Seq<u64>) -> int
    decreases s.len(),
{
    if s.len() == 0 {
        0
    } else {
        sum_u64(s.drop_last()) + s.last()
    }
}

/// The sum of the amounts of a list of records.
pub open spec fn records_total(rs: Seq<AssetRecord>) -> int
    decreases rs.len(),
{
    if rs.len() == 0 {
        0
    } else {
        records_total(rs.drop_last()) + rs.last().amount
    }
}

/// The change records a balancing pass adds: for every input spent only in
/// part, a record returning the rest to its owner.
pub open spec fn remainders(spends: Seq<u64>, recs: Seq<AssetRecord>) -> Seq<AssetRecord>
    decreases recs.len(),
{
    if recs.len() == 0 {
        Seq::empty()
    } else {
        remainders(spends.drop_last(), recs.drop_last()) + (if spends.last() < recs.last().amount {
            seq![
                AssetRecord {
                    amount: (recs.last().amount - spends.last()) as u64,
                    code: recs.last().code,
                    owner: recs.last().owner,
                },
            ]
        } else {
            Seq::empty()
        })
    }
}

/// Builds one transfer operation: inputs with the amount of each to spend,
/// outputs, a balancing pass, finalization and signing.
#[derive(Clone, Debug, PartialEq, Eq)]
pub struct TransferOperationBuilder {
    pub input_sids: Vec<TxoRef>,
    pub input_records: Vec<AssetRecord>,
    pub spend_amounts: Vec<u64>,
    pub output_records: Vec<AssetRecord>,
    pub transfer: Option<TransferAsset>,
}

impl TransferOperationBuilder {
    /// One spend amount accompanies every input.
    pub open spec fn wf(self) -> bool {
        &&& self.input_sids@.len() == self.input_records@.len()
        &&& self.spend_amounts@.len() == self.input_records@.len()
    }

    /// An empty transfer builder.
    pub fn new() -> (r: TransferOperationBuilder)
        ensures
            r.wf(),
            r.input_sids@.len() == 0,
            r.input_records@.len() == 0,
            r.spend_amounts@.len() == 0,
            r.output_records@.len() == 0,
            r.transfer is None,
    {
        TransferOperationBuilder {
            input_sids: Vec::new(),
            input_records: Vec::new(),
            spend_amounts: Vec::new(),
            output_records: Vec::new(),
            transfer: None,
        }
    }

    /// Add one input: where it sits on the ledger, its record, and how much
    /// of it to spend; the rest is refunded by `balance`. Rejected once the
    /// transfer has been finalized.
    pub fn add_input(&mut self, txo_sid: TxoRef, open_ar: AssetRecord, amount: u64) -> (r: Result<
        (),
        PlatformError,
    >)
        requires
            old(self).wf(),
        ensures
            final(self).wf(),
            match r {
                Ok(_) => {
                    &&& old(self).transfer is None
                    &&& *final(self) == (TransferOperationBuilder {
                        input_sids: final(self).input_sids,
                        input_records: final(self).input_records,
                        spend_amounts: final(self).spend_amounts,
                        ..*old(self)
                    })
                    &&& final(self).input_sids@ == old(self).input_sids@.push(txo_sid)
                    &&& final(self).input_records@ == old(self).input_records@.push(open_ar)
                    &&& final(self).spend_amounts@ == old(self).spend_amounts@.push(amount)
                },
                Err(e) => {
                    &&& e == PlatformError::InvariantError
                    &&& old(self).transfer is Some
                    &&& *final(self) == *old(self)
                },
            },
    {
        if self.transfer.is_some() {
            return Err(PlatformError::InvariantError);
        }
        self.input_sids.push(txo_sid);
        self.input_records.push(open_ar);
        self.spend_amounts.push(amount);
        Ok(())
    }

    /// Add one output record. Rejected once the transfer has been
    /// finalized.
    pub fn add_output(&mut self, amount: u64, recipient: &PublicKey, code: AssetTypeCode) -> (r:
        Result<(), PlatformError>)
        requires
            old(self).wf(),
        ensures
            final(self).wf(),
            match r {
                Ok(_) => {
                    &&& old(self).transfer is None
                    &&& *final(self) == (TransferOperationBuilder {
                        output_records: final(self).output_records,
                        ..*old(self)
                    })
                    &&& final(self).output_records@ == old(self).output_records@.push(
                        (AssetRecord { amount, code, owner: *recipient }),
                    )
                },
                Err(e) => {
                    &&& e == PlatformError::InvariantError
                    &&& old(self).transfer is Some
                    &&& *final(self) == *old(self)
                },
            },
    {
        if self.transfer.is_some() {
            return Err(PlatformError::InvariantError);
        }
        self.output_records.push(AssetRecord { amount, code, owner: *recipient });
        Ok(())
    }

    /// Balance the transfer: every input must cover its spend amount, the
    /// spend total must equal the output total, and each partly spent input
    /// earns a change record back to its owner.
    #[verifier::loop_isolation(false)]
    pub fn balance(&mut self) -> (r: Result<(), PlatformError>)
        requires
            old(self).wf(),
        ensures
            final(self).wf(),
            match r {
                Ok(_) => {
                    &&& old(self).transfer is None
                    &&& forall|i: int|
                        0 <= i < old(self).spend_amounts@.len() ==> #[trigger] old(
                            self,
                        ).spend_amounts@[i] <= old(self).input_records@[i].amount
                    &&& sum_u64(old(self).spend_amounts@) == records_total(
                        old(self).output_records@,
                    )
                    &&& *final(self) == (TransferOperationBuilder {
                        output_records: final(self).output_records,
                        ..*old(self)
                    })
                    &&& final(self).output_records@ == old(self).output_records@ + remainders(
                        old(self).spend_amounts@,
                        old(self).input_records@,
                    )
                    &&& records_total(final(self).output_records@) == records_total(
                        old(self).input_records@,
                    )
                },
                Err(e) => {
                    &&& *final(self) == *old(self)
                    &&& (if old(self).transfer is Some {
                        e == PlatformError::InvariantError
                    } else {
                        e == PlatformError::InputsError && !((forall|i: int|
                            0 <= i < old(self).spend_amounts@.len() ==> #[trigger] old(
                                self,
                            ).spend_amounts@[i] <= old(self).input_records@[i].amount) && sum_u64(
                            old(self).spend_amounts@,
                        ) == records_total(old(self).output_records@))
                    })
                },
            },
    {
        if self.transfer.is_some() {
            return Err(PlatformError::InvariantError);
        }
        let mut partials: Vec<AssetRecord> = Vec::new();
        let mut spend_total: u128 = 0;
        let n = self.spend_amounts.len();
        for i in 0..n
            invariant
                partials@ == remainders(
                    self.spend_amounts@.take(i as int),
                    self.input_records@.take(i as int),
                ),
                forall|j: int|
                    0 <= j < i ==> #[trigger] self.spend_amounts@[j]
                        <= self.input_records@[j].amount,
                spend_total as int == sum_u64(self.spend_amounts@.take(i as int)),
                spend_total <= i * (u64::MAX as int),
        {
            proof {
                assert(self.spend_amounts@.take(i as int + 1).drop_last() =~= self.spend_amounts@.take(
                    i as int,
                ));
                assert(self.input_records@.take(i as int + 1).drop_last() =~= self.input_records@.take(
                    i as int,
                ));
                assert(n as int * (u64::MAX as int) <= (u64::MAX as int) * (u64::MAX as int))
                    by (nonlinear_arith)
                    requires
                        n as int <= u64::MAX as int,
                ;
            }
            let spend = self.spend_amounts[i];
            let oar = self.input_records[i];
            if spend > oar.amount {
                return Err(PlatformError::InputsError);
            }
            if spend < oar.amount {
                partials.push(
                    AssetRecord { amount: oar.amount - spend, code: oar.code, owner: oar.owner },
                );
            }
            spend_total = spend_total + spend as u128;
            proof {
                assert(partials@ =~= remainders(
                    self.spend_amounts@.take(i as int + 1),
                    self.input_records@.take(i as int + 1),
                ));
            }
        }
        proof {
            assert(self.spend_amounts@.take(n as int) =~= self.spend_amounts@);
            assert(self.input_records@.take(n as int) =~= self.input_records@);
        }
        let mut output_total: u128 = 0;
        let m = self.output_records.len();
        for i in 0..m
            invariant
                output_total as int == records_total(self.output_records@.take(i as int)),
                output_total <= i * (u64::MAX as int),
        {
            proof {
                assert(self.output_records@.take(i as int + 1).drop_last()
                    =~= self.output_records@.take(i as int));
                assert(m as int * (u64::MAX as int) <= (u64::MAX as int) * (u64::MAX as int))
                    by (nonlinear_arith)
                    requires
                        m as int <= u64::MAX as int,
                ;
            }
            output_total = output_total + self.output_records[i].amount as u128;
        }
        proof {
            assert(self.output_records@.take(m as int) =~= self.output_records@);
        }
        if spend_total != output_total {
            return Err(PlatformError::InputsError);
        }
        let ghost outputs0 = self.output_records@;
        let np = partials.len();
        let mut k: usize = 0;
        while k < np
            invariant
                k <= np,
                np == partials@.len(),
                self.output_records@ == outputs0 + partials@.take(k as int),
                *self == (TransferOperationBuilder {
                    output_records: self.output_records,
                    ..*old(self)
                }),
            decreases np - k,
        {
            self.output_records.push(partials[k]);
            proof {
                assert(outputs0 + partials@.take(k as int + 1) =~= (outputs0 + partials@.take(
                    k as int,
                )).push(partials@[k as int]));
            }
            k = k + 1;
        }
        proof {
            assert(partials@.take(np as int) =~= partials@);
            lemma_balance_totals(old(self).spend_amounts@, old(self).input_records@);
            lemma_records_total_concat(outputs0, partials@);
        }
        Ok(())
    }

    /// Finalize the transfer: freeze the inputs, outputs and note into an
    /// operation awaiting signatures.
    pub fn create(&mut self) -> (r: Result<(), PlatformError>)
        requires
            old(self).wf(),
        ensures
            final(self).wf(),
            r is Ok,
            *final(self) == (TransferOperationBuilder { transfer: final(self).transfer, ..*old(self) }),
            ({
                let t = final(self).transfer;
                &&& t is Some
                &&& t->0.body.inputs@ == old(self).input_sids@
                &&& t->0.body.num_outputs == old(self).output_records@.len()
                &&& t->0.body.transfer.inputs@ == old(self).input_records@
                &&& t->0.body.transfer.outputs@ == old(self).output_records@
                &&& t->0.body_signatures@.len() == 0
            }),
    {
        let op = TransferAsset {
            body: TransferAssetBody {
                inputs: copy_refs(&self.input_sids),
                num_outputs: self.output_records.len(),
                transfer: TransferNote {
                    inputs: copy_records(&self.input_records),
                    outputs: copy_records(&self.output_records),
                },
            },
            body_signatures: Vec::new(),
        };
        self.transfer = Some(op);
        Ok(())
    }

    /// Sign the finalized transfer with one key.
    pub fn sign(&mut self, pub_key: &PublicKey, priv_key: &SecretKey) -> (r: Result<
        (),
        PlatformError,
    >)
        requires
            old(self).wf(),
        ensures
            final(self).wf(),
            match r {
                Ok(_) => {
                    &&& old(self).transfer is Some
                    &&& *final(self) == (TransferOperationBuilder {
                        transfer: final(self).transfer,
                        ..*old(self)
                    })
                    &&& final(self).transfer is Some
                    &&& ({
                        let t0 = old(self).transfer->0;
                        let t1 = final(self).transfer->0;
                        &&& t1.body.inputs@ == t0.body.inputs@
                        &&& t1.body.num_outputs == t0.body.num_outputs
                        &&& t1.body.transfer.inputs@ == t0.body.transfer.inputs@
                        &&& t1.body.transfer.outputs@ == t0.body.transfer.outputs@
                        &&& t1.body_signatures@.len() == t0.body_signatures@.len() + 1
                        &&& t1.body_signatures@.drop_last() == t0.body_signatures@
                        &&& t1.body_signatures@.last().address == *pub_key
                        &&& t1.body_signatures@.last().signature.bytes() == sig_of(
                            priv_key.bytes(),
                            transfer_body_enc(t1.body),
                        )
                    })
                },
                Err(e) => {
                    &&& e == PlatformError::InvariantError
                    &&& old(self).transfer is None
                    &&& *final(self) == *old(self)
                },
            },
    {
        let t = match &self.transfer {
            None => {
                return Err(PlatformError::InvariantError);
            },
            Some(t) => t,
        };
        let mut new_transfer = copy_transfer(t);
        let body_bytes = crate::wire::transfer_body_bytes(&new_transfer.body);
        let sig = compute_signature(priv_key, pub_key, &body_bytes);
        proof {
            assert(transfer_body_enc(new_transfer.body) =~= transfer_body_enc(
                old(self).transfer->0.body,
            ));
        }
        new_transfer.body_signatures.push(SignedAddress { address: *pub_key, signature: sig });
        proof {
            assert(new_transfer.body_signatures@.drop_last()
                =~= old(self).transfer->0.body_signatures@);
        }
        self.transfer = Some(new_transfer);
        Ok(())
    }

    /// The finalized transfer as an operation.
    pub fn transaction(&self) -> (r: Result<Operation, PlatformError>)
        ensures
            match r {
                Ok(op) => {
                    &&& self.transfer is Some
                    &&& op is TransferAsset
                    &&& ({
                        let t0 = self.transfer->0;
                        let t1 = op->TransferAsset_0;
                        &&& t1.body.inputs@ == t0.body.inputs@
                        &&& t1.body.num_outputs == t0.body.num_outputs
                        &&& t1.body.transfer.inputs@ == t0.body.transfer.inputs@
                        &&& t1.body.transfer.outputs@ == t0.body.transfer.outputs@
                        &&& t1.body_signatures@ == t0.body_signatures@
                    })
                },
                Err(e) => {
                    &&& e == PlatformError::InvariantError
                    &&& self.transfer is None
                },
            },
    {
        match &self.transfer {
            None => Err(PlatformError::InvariantError),
            Some(t) => Ok(Operation::TransferAsset(copy_transfer(t))),
        }
    }

    /// Check that the finalized transfer carries valid signatures and that
    /// every input owner has signed.
    #[verifier::loop_isolation(false)]
    #[verifier::rlimit(100)]
    pub fn validate_signatures(&self) -> (r: Result<(), PlatformError>)
        ensures
            match r {
                Ok(_) => {
                    &&& self.transfer is Some
                    &&& all_sigs_ok(self.transfer->0)
                    &&& owners_signed(self.transfer->0)
                },
                Err(e) => {
                    &&& e == PlatformError::InvariantError
                    &&& (self.transfer is None || !all_sigs_ok(self.transfer->0) || !owners_signed(
                        self.transfer->0,
                    ))
                },
            },
    {
        let t = match &self.transfer {
            None => {
                return Err(PlatformError::InvariantError);
            },
            Some(t) => t,
        };
        let body_bytes = crate::wire::transfer_body_bytes(&t.body);
        let ns = t.body_signatures.len();
        for i in 0..ns
            invariant
                forall|k: int|
                    0 <= k < i ==> sig_verify_ok(
                        (#[trigger] t.body_signatures@[k]).address.bytes(),
                        transfer_body_enc(t.body),
                        t.body_signatures@[k].signature.bytes(),
                    ),
        {
            let sa = &t.body_signatures[i];
            if !crate::crypto::verify_signature(&sa.address, &body_bytes, &sa.signature) {
                assert(!all_sigs_ok(self.transfer->0));
                return Err(PlatformError::InvariantError);
            }
        }
        let nin = t.body.transfer.inputs.len();
        for i in 0..nin
            invariant
                forall|k: int|
                    0 <= k < i ==> exists|j: int|
                        0 <= j < t.body_signatures@.len() && (#[trigger] t.body_signatures@[j]).address
                            == (#[trigger] t.body.transfer.inputs@[k]).owner,
        {
            let owner = t.body.transfer.inputs[i].owner;
            let found = find_signer(&t.body_signatures, &owner);
            if !found {
                assert(!owners_signed(self.transfer->0));
                return Err(PlatformError::InvariantError);
            }
        }
        Ok(())
    }
}

/// Whether some signature in `sigs` was made under `owner`.
fn find_signer(sigs: &Vec<SignedAddress>, owner: &PublicKey) -> (r: bool)
    ensures
        r == exists|j: int| 0 <= j < sigs@.len() && (#[trigger] sigs@[j]).address == *owner,
{
    let n = sigs.len();
    for j in 0..n
        invariant
            n == sigs@.len(),
            forall|k: int| 0 <= k < j ==> (#[trigger] sigs@[k]).address != *owner,
    {
        if sigs[j].address == *owner {
            return true;
        }
    }
    false
}

/// Every consumed record's owner is among the signing addresses.
pub open spec fn owners_signed(t: TransferAsset) -> bool {
    forall|i: int|
        0 <= i < t.body.transfer.inputs@.len() ==> exists|j: int|
            0 <= j < t.body_signatures@.len() && (#[trigger] t.body_signatures@[j]).address == (
            #[trigger] t.body.transfer.inputs@[i]).owner
}

/// Record totals add up across concatenation.
proof fn lemma_records_total_concat(a: Seq<AssetRecord>, b: Seq<AssetRecord>)
    ensures
        records_total(a + b) == records_total(a) + records_total(b),
    decreases b.len(),
{
    if b.len() == 0 {
        assert(a + b =~= a);
    } else {
        lemma_records_total_concat(a, b.drop_last());
        assert((a + b).drop_last() =~= a + b.drop_last());
        assert((a + b).last() == b.last());
    }
}

/// After a balancing pass, the outputs and change together carry exactly
/// the amounts of the inputs.
proof fn lemma_balance_totals(spends: Seq<u64>, recs: Seq<AssetRecord>)
    requires
        spends.len() == recs.len(),
        forall|i: int| 0 <= i < spends.len() ==> #[trigger] spends[i] <= recs[i].amount,
    ensures
        records_total(remainders(spends, recs)) == records_total(recs) - sum_u64(spends),
    decreases recs.len(),
{
    if recs.len() > 0 {
        lemma_balance_totals(spends.drop_last(), recs.drop_last());
        let rem = remainders(spends, recs);
        let pre = remainders(spends.drop_last(), recs.drop_last());
        if spends.last() < recs.last().amount {
            assert(rem =~= pre.push(
                AssetRecord {
                    amount: (recs.last().amount - spends.last()) as u64,
                    code: recs.last().code,
                    owner: recs.last().owner,
                },
            ));
            assert(rem.drop_last() =~= pre);
        } else {
            assert(rem =~= pre);
        }
    }
}

} // verus!
