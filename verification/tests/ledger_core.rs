use ledger::builder::asset_creation_body;
use ledger::builder::asset_creation_operation;
use ledger::builder::build_keys;
use ledger::builder::TransactionBuilder;
use ledger::builder::TransferOperationBuilder;
use ledger::crypto::PublicKey;
use ledger::crypto::SecretKey;
use ledger::effects::TxnEffect;
use ledger::errors::PlatformError;
use ledger::snapshot::decode_ledger_status;
use ledger::snapshot::encode_ledger_status;
use ledger::state::LedgerState;
use ledger::status::LedgerAccess;
use ledger::types::AssetRecord;
use ledger::types::AssetTypeCode;
use ledger::types::Operation;
use ledger::types::Transaction;
use ledger::types::TxOutput;
use ledger::types::TxnSID;
use ledger::types::TxoRef;
use ledger::types::IssueAsset;
use ledger::types::IssueAssetBody;
use ledger::types::IssuerPublicKey;
use ledger::types::TxoSID;
use ledger::wire::issue_body_bytes;

fn keypair(seed: u64) -> (PublicKey, SecretKey) {
    build_keys(&SecretKey { w0: seed, w1: 11, w2: 22, w3: 33 })
}

fn define_txn(code: AssetTypeCode, pk: &PublicKey, sk: &SecretKey) -> Transaction {
    let body = asset_creation_body(&code, pk, true, false, None, None);
    let op = asset_creation_operation(&body, pk, sk);
    let mut t = Transaction::new();
    t.add_operation(Operation::DefineAsset(op));
    t
}

fn issue_txn(
    code: AssetTypeCode,
    pk: &PublicKey,
    sk: &SecretKey,
    seq_num: u64,
    amounts: &[u64],
) -> Transaction {
    let mut records: Vec<TxOutput> = Vec::new();
    for a in amounts {
        records.push(TxOutput(AssetRecord { amount: *a, code, owner: *pk }));
    }
    let mut b = TransactionBuilder::new();
    b.add_operation_issue_asset(pk, sk, &code, seq_num, &records).unwrap();
    b.transaction().clone()
}

fn transfer_txn(
    inputs: Vec<(TxoRef, AssetRecord, u64)>,
    outputs: Vec<(u64, PublicKey, AssetTypeCode)>,
    signers: &[(PublicKey, SecretKey)],
) -> Transaction {
    let mut ob = TransferOperationBuilder::new();
    for (r, rec, amt) in inputs {
        ob.add_input(r, rec, amt).unwrap();
    }
    for (amt, pk, code) in outputs {
        ob.add_output(amt, &pk, code).unwrap();
    }
    ob.balance().unwrap();
    ob.create().unwrap();
    for (pk, sk) in signers {
        ob.sign(pk, sk).unwrap();
    }
    let op = ob.transaction().unwrap();
    let mut t = Transaction::new();
    t.add_operation(op);
    t
}

#[test]
fn effect_determinism() {
    let (pk, sk) = keypair(1);
    let code = AssetTypeCode { val: 7 };
    let txn = define_txn(code, &pk, &sk);
    let e1 = TxnEffect::compute_effect(txn.clone()).unwrap();
    let e2 = TxnEffect::compute_effect(txn).unwrap();
    assert_eq!(e1, e2);
}

#[test]
fn double_spend_rejected() {
    let (pk, sk) = keypair(2);
    let (pk2, _) = keypair(3);
    let code = AssetTypeCode { val: 9 };
    let mut state = LedgerState::new();
    let e = TxnEffect::compute_effect(define_txn(code, &pk, &sk)).unwrap();
    state.apply_transaction(e).unwrap();
    let e = TxnEffect::compute_effect(issue_txn(code, &pk, &sk, 0, &[50])).unwrap();
    let (_, sids) = state.apply_transaction(e).unwrap();
    assert_eq!(sids, vec![TxoSID(0)]);
    let rec = AssetRecord { amount: 50, code, owner: pk };
    let spend = transfer_txn(
        vec![(TxoRef::Absolute(TxoSID(0)), rec, 50)],
        vec![(50, pk2, code)],
        &[(pk, sk)],
    );
    let e = TxnEffect::compute_effect(spend.clone()).unwrap();
    state.apply_transaction(e).unwrap();
    // A second transaction reusing the same absolute input must be rejected.
    let e = TxnEffect::compute_effect(spend).unwrap();
    let r = state.apply_transaction(e);
    assert_eq!(r.err().unwrap(), PlatformError::InputsError);
}

#[test]
fn issuance_replay_rejected() {
    let (pk, sk) = keypair(4);
    let code = AssetTypeCode { val: 12 };
    let mut state = LedgerState::new();
    let e = TxnEffect::compute_effect(define_txn(code, &pk, &sk)).unwrap();
    state.apply_transaction(e).unwrap();
    let e = TxnEffect::compute_effect(issue_txn(code, &pk, &sk, 5, &[10])).unwrap();
    state.apply_transaction(e).unwrap();
    // Re-issuing with the same sequence number must fail.
    let e = TxnEffect::compute_effect(issue_txn(code, &pk, &sk, 5, &[10])).unwrap();
    assert_eq!(state.apply_transaction(e).err().unwrap(), PlatformError::InputsError);
    // Issuing with the next sequence number must succeed.
    let e = TxnEffect::compute_effect(issue_txn(code, &pk, &sk, 6, &[10])).unwrap();
    assert!(state.apply_transaction(e).is_ok());
}

#[test]
fn issuance_not_increasing_within_txn_rejected() {
    let (pk, sk) = keypair(5);
    let code = AssetTypeCode { val: 13 };
    let mut b = TransactionBuilder::new();
    let rec = vec![TxOutput(AssetRecord { amount: 1, code, owner: pk })];
    b.add_operation_issue_asset(&pk, &sk, &code, 5, &rec).unwrap();
    b.add_operation_issue_asset(&pk, &sk, &code, 5, &rec).unwrap();
    let r = TxnEffect::compute_effect(b.transaction().clone());
    assert_eq!(r.err().unwrap(), PlatformError::InputsError);
}

#[test]
fn next_txo_counts_all_slots() {
    let (pk, sk) = keypair(6);
    let (pk2, _) = keypair(7);
    let code = AssetTypeCode { val: 21 };
    let mut state = LedgerState::new();
    let e = TxnEffect::compute_effect(define_txn(code, &pk, &sk)).unwrap();
    state.apply_transaction(e).unwrap();
    assert_eq!(state.status.next_txo.0, 0);
    let e = TxnEffect::compute_effect(issue_txn(code, &pk, &sk, 0, &[30, 70])).unwrap();
    state.apply_transaction(e).unwrap();
    assert_eq!(state.status.next_txo.0, 2);
    // The transfer consumes one committed output and creates two more
    // slots; consumed slots still count toward the total ever created.
    let rec = AssetRecord { amount: 30, code, owner: pk };
    let t = transfer_txn(
        vec![(TxoRef::Absolute(TxoSID(0)), rec, 30)],
        vec![(30, pk2, code)],
        &[(pk, sk)],
    );
    let e = TxnEffect::compute_effect(t).unwrap();
    state.apply_transaction(e).unwrap();
    assert_eq!(state.status.next_txo.0, 3);
}

#[test]
fn checkpoint_chains_hash() {
    let (pk, sk) = keypair(8);
    let code = AssetTypeCode { val: 31 };
    let mut state = LedgerState::new();
    let e = TxnEffect::compute_effect(define_txn(code, &pk, &sk)).unwrap();
    state.apply_transaction(e).unwrap();
    let h0 = state.get_global_hash();
    assert_eq!(h0.1, 0);
    state.checkpoint();
    let h1 = state.get_global_hash();
    assert_eq!(h1.1, 1);
    assert_ne!(h0.0, h1.0);
    state.checkpoint();
    let h2 = state.get_global_hash();
    assert_eq!(h2.1, 2);
    // The previous hash is chained in, so consecutive checkpoints differ
    // even when no transaction was applied in between.
    assert_ne!(h1.0, h2.0);
}

#[test]
fn snapshot_round_trip() {
    let (pk, sk) = keypair(9);
    let (pk2, _) = keypair(10);
    let code = AssetTypeCode { val: 44 };
    let mut state = LedgerState::new();
    let e = TxnEffect::compute_effect(define_txn(code, &pk, &sk)).unwrap();
    state.apply_transaction(e).unwrap();
    let e = TxnEffect::compute_effect(issue_txn(code, &pk, &sk, 0, &[100])).unwrap();
    state.apply_transaction(e).unwrap();
    let rec = AssetRecord { amount: 100, code, owner: pk };
    let t = transfer_txn(
        vec![(TxoRef::Absolute(TxoSID(0)), rec, 100)],
        vec![(40, pk2, code), (60, pk, code)],
        &[(pk, sk)],
    );
    let e = TxnEffect::compute_effect(t).unwrap();
    state.apply_transaction(e).unwrap();
    state.checkpoint();
    let bytes = encode_ledger_status(&state.status);
    let back = decode_ledger_status(&bytes).unwrap();
    assert_eq!(back, state.status);
    // Re-encoding yields byte-for-byte the same snapshot.
    assert_eq!(encode_ledger_status(&back), bytes);
}

#[test]
fn recovery_count_check() {
    let (pk, sk) = keypair(11);
    let code = AssetTypeCode { val: 50 };
    let mut state = LedgerState::new();
    let e = TxnEffect::compute_effect(define_txn(code, &pk, &sk)).unwrap();
    state.apply_transaction(e).unwrap();
    let e = TxnEffect::compute_effect(issue_txn(code, &pk, &sk, 0, &[5])).unwrap();
    state.apply_transaction(e).unwrap();
    // A log holding exactly next_txn transactions loads.
    let reloaded = LedgerState::load(state.status.clone(), state.txs.clone()).unwrap();
    assert_eq!(reloaded.status, state.status);
    assert_eq!(reloaded.get_utxo_map().num_bits(), 1);
    // A snapshot claiming any other count fails fast.
    let mut short = state.txs.clone();
    short.pop();
    let r = LedgerState::load(state.status.clone(), short);
    assert_eq!(r.err().unwrap(), PlatformError::InvariantError);
}

#[test]
fn recovery_from_snapshot_bytes() {
    let (pk, sk) = keypair(12);
    let code = AssetTypeCode { val: 51 };
    let mut state = LedgerState::new();
    let e = TxnEffect::compute_effect(define_txn(code, &pk, &sk)).unwrap();
    state.apply_transaction(e).unwrap();
    let bytes = encode_ledger_status(&state.status);
    let reloaded = LedgerState::load_from_snapshot(&bytes, state.txs.clone()).unwrap();
    assert_eq!(reloaded.status, state.status);
    let garbage: Vec<u8> = vec![9, 9, 9];
    let r = LedgerState::load_from_snapshot(&garbage, Vec::new());
    assert_eq!(r.err().unwrap(), PlatformError::DeserializationError);
}

#[test]
fn end_to_end_scenario() {
    let (pk1, sk1) = keypair(13);
    let (pk2, _sk2) = keypair(14);
    let code = AssetTypeCode { val: 65 };
    let mut state = LedgerState::new();
    // Define asset A with issuer key K1.
    let e = TxnEffect::compute_effect(define_txn(code, &pk1, &sk1)).unwrap();
    state.apply_transaction(e).unwrap();
    // Issue 100 units of A to K1 under sequence number 0.
    let e = TxnEffect::compute_effect(issue_txn(code, &pk1, &sk1, 0, &[100])).unwrap();
    let (_, sids) = state.apply_transaction(e).unwrap();
    assert_eq!(sids, vec![TxoSID(0)]);
    // Transfer 40 units to K2 and 60 back to K1.
    let rec = AssetRecord { amount: 100, code, owner: pk1 };
    let t = transfer_txn(
        vec![(TxoRef::Absolute(TxoSID(0)), rec, 100)],
        vec![(40, pk2, code), (60, pk1, code)],
        &[(pk1, sk1)],
    );
    let e = TxnEffect::compute_effect(t).unwrap();
    let (_, sids) = state.apply_transaction(e).unwrap();
    assert_eq!(sids, vec![TxoSID(1), TxoSID(2)]);
    state.checkpoint();
    // Two live unspent outputs: 40 to K2 and 60 to K1.
    assert!(state.get_utxo(TxoSID(0)).is_none());
    let u1 = state.get_utxo(TxoSID(1)).unwrap();
    assert_eq!(u1.0.0, AssetRecord { amount: 40, code, owner: pk2 });
    let u2 = state.get_utxo(TxoSID(2)).unwrap();
    assert_eq!(u2.0.0, AssetRecord { amount: 60, code, owner: pk1 });
    // Issuance watermark for A is 1, and three transactions committed.
    assert_eq!(state.get_issuance_num(&code), Some(1));
    assert_eq!(state.status.next_txn, TxnSID(3));
    // Exactly 2 of the 3 allocated slots are still set in the bitmap.
    assert_eq!(state.get_utxo_map().num_bits(), 3);
    assert_eq!(state.get_utxo_map().count_set_bits(), 2);
    assert!(state.get_asset_type(&code).is_some());
}

#[test]
fn bad_signature_rejected() {
    let (pk, sk) = keypair(15);
    let (pk_other, _) = keypair(16);
    let code = AssetTypeCode { val: 70 };
    let body = asset_creation_body(&code, &pk, true, false, None, None);
    let mut op = asset_creation_operation(&body, &pk, &sk);
    // Claim the operation was signed by a different key.
    op.pubkey.key = pk_other;
    let mut t = Transaction::new();
    t.add_operation(Operation::DefineAsset(op));
    let r = TxnEffect::compute_effect(t);
    assert_eq!(r.err().unwrap(), PlatformError::SignatureError);
}

#[test]
fn unbalanced_note_rejected() {
    let (pk, sk) = keypair(17);
    let (pk2, _) = keypair(18);
    let code = AssetTypeCode { val: 71 };
    // Build a transfer whose note does not balance, bypassing the
    // balancing pass of the builder.
    let mut ob = TransferOperationBuilder::new();
    let rec = AssetRecord { amount: 50, code, owner: pk };
    ob.add_input(TxoRef::Absolute(TxoSID(0)), rec, 50).unwrap();
    ob.add_output(49, &pk2, code).unwrap();
    ob.create().unwrap();
    ob.sign(&pk, &sk).unwrap();
    let op = ob.transaction().unwrap();
    let mut t = Transaction::new();
    t.add_operation(op);
    let r = TxnEffect::compute_effect(t);
    assert_eq!(r.err().unwrap(), PlatformError::ProofError);
}

#[test]
fn duplicate_definition_rejected() {
    let (pk, sk) = keypair(19);
    let code = AssetTypeCode { val: 72 };
    let body = asset_creation_body(&code, &pk, true, false, None, None);
    let op = asset_creation_operation(&body, &pk, &sk);
    let mut t = Transaction::new();
    t.add_operation(Operation::DefineAsset(op.clone()));
    t.add_operation(Operation::DefineAsset(op));
    let r = TxnEffect::compute_effect(t);
    assert_eq!(r.err().unwrap(), PlatformError::InputsError);
}

#[test]
fn relative_input_consumed_in_txn() {
    let (pk, sk) = keypair(20);
    let (pk2, _) = keypair(21);
    let code = AssetTypeCode { val: 73 };
    let mut state = LedgerState::new();
    let e = TxnEffect::compute_effect(define_txn(code, &pk, &sk)).unwrap();
    state.apply_transaction(e).unwrap();
    // One transaction that issues 100 and immediately transfers it.
    let mut b = TransactionBuilder::new();
    let rec = TxOutput(AssetRecord { amount: 100, code, owner: pk });
    b.add_operation_issue_asset(&pk, &sk, &code, 0, &vec![rec]).unwrap();
    let mut ob = TransferOperationBuilder::new();
    ob.add_input(TxoRef::Relative(0), rec.0, 100).unwrap();
    ob.add_output(100, &pk2, code).unwrap();
    ob.balance().unwrap();
    ob.create().unwrap();
    ob.sign(&pk, &sk).unwrap();
    b.add_operation(ob.transaction().unwrap());
    let e = TxnEffect::compute_effect(b.transaction().clone()).unwrap();
    let (_, sids) = state.apply_transaction(e).unwrap();
    // The issuance slot was consumed inside the transaction, so only the
    // transfer output becomes unspent.
    assert_eq!(sids, vec![TxoSID(1)]);
    assert!(state.get_utxo(TxoSID(0)).is_none());
    assert!(state.get_utxo(TxoSID(1)).is_some());
    assert_eq!(state.get_utxo_map().count_set_bits(), 1);
}

#[test]
fn unknown_input_rejected() {
    let (pk, sk) = keypair(22);
    let (pk2, _) = keypair(23);
    let code = AssetTypeCode { val: 74 };
    let mut state = LedgerState::new();
    let e = TxnEffect::compute_effect(define_txn(code, &pk, &sk)).unwrap();
    state.apply_transaction(e).unwrap();
    let rec = AssetRecord { amount: 5, code, owner: pk };
    let t = transfer_txn(
        vec![(TxoRef::Absolute(TxoSID(17)), rec, 5)],
        vec![(5, pk2, code)],
        &[(pk, sk)],
    );
    let e = TxnEffect::compute_effect(t).unwrap();
    assert_eq!(state.apply_transaction(e).err().unwrap(), PlatformError::InputsError);
}

#[test]
fn issue_count_mismatch_rejected() {
    let (pk, sk) = keypair(24);
    let code = AssetTypeCode { val: 75 };
    let body = IssueAssetBody {
        code,
        seq_num: 0,
        num_outputs: 2,
        records: vec![TxOutput(AssetRecord { amount: 1, code, owner: pk })],
    };
    let msg = issue_body_bytes(&body);
    let sig = ledger::builder::compute_signature(&sk, &pk, &msg);
    let op = IssueAsset { body, pubkey: IssuerPublicKey { key: pk }, signature: sig };
    let mut t = Transaction::new();
    t.add_operation(Operation::IssueAsset(op));
    let r = TxnEffect::compute_effect(t);
    assert_eq!(r.err().unwrap(), PlatformError::InputsError);
}

#[test]
fn txn_log_round_trip() {
    let (pk, sk) = keypair(25);
    let code = AssetTypeCode { val: 76 };
    let mut state = LedgerState::new();
    let e = TxnEffect::compute_effect(define_txn(code, &pk, &sk)).unwrap();
    state.apply_transaction(e).unwrap();
    let e = TxnEffect::compute_effect(issue_txn(code, &pk, &sk, 0, &[7, 8])).unwrap();
    state.apply_transaction(e).unwrap();
    let bytes = ledger::txlog::encode_txn_log(&state.txs);
    let (decoded, consumed) = ledger::txlog::decode_txn_log(&bytes);
    assert_eq!(consumed, bytes.len());
    assert_eq!(decoded, state.txs);
    // A recovered ledger built from the replayed log matches the snapshot.
    let reloaded = LedgerState::load(state.status.clone(), decoded).unwrap();
    assert_eq!(reloaded.status, state.status);
    // Trailing garbage is left unconsumed rather than misread.
    let mut noisy = bytes.clone();
    noisy.push(0xee);
    let (decoded2, consumed2) = ledger::txlog::decode_txn_log(&noisy);
    assert_eq!(decoded2, state.txs);
    assert_eq!(consumed2, bytes.len());
}
