use vstd::prelude::*;

use crate::crypto::PublicKey;
use crate::crypto::Signature;

verus! {

/// A monotonically assigned transaction identifier: the position of the
/// transaction in the committed history.
#[derive(Clone, Copy, Debug, PartialEq, Eq, Structural)]
pub struct TxnSID(pub usize);

/// A monotonically assigned output-slot identifier.
#[derive(Clone, Copy, Debug, PartialEq, Eq, Structural)]
pub struct TxoSID(pub u64);

/// A 16-byte asset-type code, held as one 128-bit value.
#[derive(Clone, Copy, Debug, PartialEq, Eq, Structural)]
pub struct AssetTypeCode {
    pub val: u128,
}

/// A reference to a transaction output: either an output produced earlier in
/// the same transaction, counted backward from the current output cursor, or
/// an output already committed to the ledger.
#[derive(Clone, Copy, Debug, PartialEq, Eq, Structural)]
pub enum TxoRef {
    Relative(u64),
    Absolute(TxoSID),
}

/// The public key an asset issuer signs with.
#[derive(Clone, Copy, Debug, PartialEq, Eq, Structural)]
pub struct IssuerPublicKey {
    pub key: PublicKey,
}

/// A user-supplied asset memo; carries no fields here.
#[derive(Clone, Copy, Debug, PartialEq, Eq, Structural)]
pub struct Memo {}

/// A confidential asset memo; carries no fields here.
#[derive(Clone, Copy, Debug, PartialEq, Eq, Structural)]
pub struct ConfidentialMemo {}

/// The declared properties of an asset type.
#[derive(Clone, Copy, Debug, PartialEq, Eq, Structural)]
pub struct Asset {
    pub code: AssetTypeCode,
    pub issuer: IssuerPublicKey,
    pub updatable: bool,
    pub traceable: bool,
    pub memo: Memo,
    pub confidential_memo: ConfidentialMemo,
}

/// A registered asset type: its declared properties and the units issued so
/// far (updated outside this core).
#[derive(Clone, Copy, Debug, PartialEq, Eq, Structural)]
pub struct AssetType {
    pub properties: Asset,
    pub units: u64,
}

/// An asset record: an amount of one asset type owned by one key.
#[derive(Clone, Copy, Debug, PartialEq, Eq, Structural)]
pub struct AssetRecord {
    pub amount: u64,
    pub code: AssetTypeCode,
    pub owner: PublicKey,
}

/// A transaction output.
#[derive(Clone, Copy, Debug, PartialEq, Eq, Structural)]
pub struct TxOutput(pub AssetRecord);

/// An unspent transaction output as the ledger stores it.
#[derive(Clone, Copy, Debug, PartialEq, Eq, Structural)]
pub struct Utxo(pub TxOutput);

/// The body of an asset definition: the asset's declared properties.
#[derive(Clone, Copy, Debug, PartialEq, Eq, Structural)]
pub struct DefineAssetBody {
    pub asset: Asset,
}

/// An asset definition operation, signed by its issuer.
#[derive(Clone, Copy, Debug, PartialEq, Eq, Structural)]
pub struct DefineAsset {
    pub body: DefineAssetBody,
    pub pubkey: IssuerPublicKey,
    pub signature: Signature,
}

/// The body of an asset issuance: which asset, the issuance sequence number,
/// and the records issued.
#[derive(Clone, Debug, PartialEq, Eq)]
pub struct IssueAssetBody {
    pub code: AssetTypeCode,
    pub seq_num: u64,
    pub num_outputs: usize,
    pub records: Vec<TxOutput>,
}

/// An asset issuance operation, signed by its issuer.
#[derive(Clone, Debug, PartialEq, Eq)]
pub struct IssueAsset {
    pub body: IssueAssetBody,
    pub pubkey: IssuerPublicKey,
    pub signature: Signature,
}

/// The record-level content of a transfer: the records consumed and the
/// records produced. A transfer is acceptable only when every asset type
/// balances between the two sides.
#[derive(Clone, Debug, PartialEq, Eq)]
pub struct TransferNote {
    pub inputs: Vec<AssetRecord>,
    pub outputs: Vec<AssetRecord>,
}

/// The body of a transfer: which outputs it consumes and the note carrying
/// the consumed and produced records.
#[derive(Clone, Debug, PartialEq, Eq)]
pub struct TransferAssetBody {
    pub inputs: Vec<TxoRef>,
    pub num_outputs: usize,
    pub transfer: TransferNote,
}

/// A signature over a transfer body together with the key that made it.
#[derive(Clone, Copy, Debug, PartialEq, Eq, Structural)]
pub struct SignedAddress {
    pub address: PublicKey,
    pub signature: Signature,
}

/// A transfer operation with the signatures of the input owners.
#[derive(Clone, Debug, PartialEq, Eq)]
pub struct TransferAsset {
    pub body: TransferAssetBody,
    pub body_signatures: Vec<SignedAddress>,
}

/// One operation of a transaction.
#[derive(Clone, Debug, PartialEq, Eq)]
pub enum Operation {
    DefineAsset(DefineAsset),
    IssueAsset(IssueAsset),
    TransferAsset(TransferAsset),
}

/// An ordered list of operations, immutable once constructed.
#[derive(Clone, Debug, PartialEq, Eq)]
pub struct Transaction {
    pub operations: Vec<Operation>,
}

impl Transaction {
    /// A transaction with no operations.
    pub fn new() -> (r: Transaction)
        ensures
            r.operations@.len() == 0,
    {
        Transaction { operations: Vec::new() }
    }

    /// Append one operation.
    pub fn add_operation(&mut self, op: Operation)
        ensures
            final(self).operations@ == old(self).operations@.push(op),
    {
        self.operations.push(op);
    }
}

/// A committed transaction: the transaction, its assigned identifier, and
/// the index of its leaf in the accumulator.
#[derive(Clone, Debug, PartialEq, Eq)]
pub struct FinalizedTransaction {
    pub txn: Transaction,
    pub tx_id: TxnSID,
    pub merkle_id: u64,
}

} // verus!
