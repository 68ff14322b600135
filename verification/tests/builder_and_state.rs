use ledger::builder::asset_creation_body;
use ledger::builder::asset_creation_operation;
use ledger::builder::build_keys;
use ledger::builder::compute_signature;
use ledger::builder::TransferOperationBuilder;
use ledger::codec::enc_u64;
use ledger::codec::push_all;
use ledger::crypto::digest_bytes;
use ledger::crypto::hash_bytes;
use ledger::crypto::public_of_secret;
use ledger::crypto::sign_message;
use ledger::crypto::verify_signature;
use ledger::crypto::BitDigest;
use ledger::crypto::PublicKey;
use ledger::crypto::SecretKey;
use ledger::effects::TxnEffect;
use ledger::state::LedgerState;
use ledger::status::LedgerAccess;
use ledger::status::MAX_VERSION;
use ledger::types::AssetRecord;
use ledger::types::AssetTypeCode;
use ledger::types::Operation;
use ledger::types::Transaction;
use ledger::types::TxnSID;
use ledger::types::TxoRef;

fn keypair(seed: u64) -> (PublicKey, SecretKey) {
    build_keys(&SecretKey { w0: seed, w1: 1, w2: 2, w3: 3 })
}

fn define_txn(code: AssetTypeCode, pk: &PublicKey, sk: &SecretKey) -> Transaction {
    let body = asset_creation_body(&code, pk, true, false, None, None);
    let op = asset_creation_operation(&body, pk, sk);
    let mut t = Transaction::new();
    t.add_operation(Operation::DefineAsset(op));
    t
}

#[test]
fn signature_round_trip() {
    let (pk, sk) = keypair(30);
    let msg: Vec<u8> = vec![1, 2, 3, 4];
    let sig = sign_message(&sk, &msg);
    assert!(verify_signature(&pk, &msg, &sig));
    let other: Vec<u8> = vec![1, 2, 3, 5];
    assert!(!verify_signature(&pk, &other, &sig));
    let (pk2, _) = keypair(31);
    assert!(!verify_signature(&pk2, &msg, &sig));
}

#[test]
fn derived_key_is_not_the_seed() {
    let sk = SecretKey { w0: 0, w1: 0, w2: 0, w3: 0 };
    let pk = public_of_secret(&sk);
    assert_ne!((pk.w0, pk.w1, pk.w2, pk.w3), (sk.w0, sk.w1, sk.w2, sk.w3));
}

#[test]
fn digest_depends_on_input() {
    let a = hash_bytes(&vec![0u8]);
    let b = hash_bytes(&vec![1u8]);
    assert_ne!(a, b);
    assert_eq!(a, hash_bytes(&vec![0u8]));
}

#[test]
fn test_save_utxo_map_version() {
    let mut state = LedgerState::new();
    let digest = BitDigest { w0: 0, w1: 0, w2: 0, w3: 0 };
    for _ in 0..MAX_VERSION - 1 {
        state.status.utxo_map_versions.push((TxnSID(0), digest));
    }
    // Below the cap, a checkpoint grows the history by one.
    state.checkpoint();
    assert_eq!(state.status.utxo_map_versions.len(), MAX_VERSION);
    // At or above the cap, the oldest entry is evicted for the new one.
    state.status.utxo_map_versions.push((TxnSID(0), digest));
    assert_eq!(state.status.utxo_map_versions.len(), MAX_VERSION + 1);
    state.checkpoint();
    assert_eq!(state.status.utxo_map_versions.len(), MAX_VERSION + 1);
    // The entry pushed to the back carries the transaction counter and the
    // current bitmap digest.
    let back = state.status.utxo_map_versions.last().unwrap();
    assert_eq!(back.0, state.status.next_txn);
    assert_eq!(back.1, state.utxo_map.compute_checksum());
}

#[test]
fn test_save_global_hash() {
    let (pk, sk) = keypair(32);
    let mut state = LedgerState::new();
    let e = TxnEffect::compute_effect(define_txn(AssetTypeCode { val: 80 }, &pk, &sk)).unwrap();
    state.apply_transaction(e).unwrap();
    // Recompute the chained digest by hand and compare.
    let mut data = digest_bytes(&state.utxo_map.compute_checksum());
    push_all(&mut data, &digest_bytes(&state.merkle.get_root_hash()));
    enc_u64(&mut data, state.status.global_commit_count);
    push_all(&mut data, &digest_bytes(&state.status.global_hash));
    let expected = hash_bytes(&data);
    let count_before = state.status.global_commit_count;
    state.checkpoint();
    assert_eq!(state.status.global_hash, expected);
    assert_eq!(state.status.global_commit_count, count_before + 1);
}

#[test]
fn test_snapshot() {
    let (pk, sk) = keypair(33);
    let mut state = LedgerState::new();
    assert_eq!(state.snapshot().id, 0);
    let e = TxnEffect::compute_effect(define_txn(AssetTypeCode { val: 81 }, &pk, &sk)).unwrap();
    state.apply_transaction(e).unwrap();
    assert_eq!(state.snapshot().id, 1);
}

#[test]
fn test_transfer_op_builder() {
    let (alice_pk, alice_sk) = keypair(34);
    let (bob_pk, bob_sk) = keypair(35);
    let (charlie_pk, _) = keypair(36);
    let code_1 = AssetTypeCode { val: 90 };
    let code_2 = AssetTypeCode { val: 91 };
    let ar_1 = AssetRecord { amount: 1000, code: code_1, owner: alice_pk };
    let ar_2 = AssetRecord { amount: 1000, code: code_2, owner: bob_pk };

    // Attempt to spend more than the outputs cover.
    let mut invalid_outputs_transfer_op = TransferOperationBuilder::new();
    invalid_outputs_transfer_op.add_input(TxoRef::Relative(1), ar_1, 20).unwrap();
    invalid_outputs_transfer_op.add_output(25, &bob_pk, code_1).unwrap();
    assert!(invalid_outputs_transfer_op.balance().is_err());

    // Change the transfer after signing.
    let mut invalid_sig_op = TransferOperationBuilder::new();
    invalid_sig_op.add_input(TxoRef::Relative(1), ar_1, 20).unwrap();
    invalid_sig_op.add_output(20, &bob_pk, code_1).unwrap();
    invalid_sig_op.balance().unwrap();
    invalid_sig_op.create().unwrap();
    invalid_sig_op.sign(&alice_pk, &alice_sk).unwrap();
    assert!(invalid_sig_op.add_output(20, &bob_pk, code_1).is_err());

    // Not all input owners have signed.
    let mut missing_sig_op = TransferOperationBuilder::new();
    missing_sig_op.add_input(TxoRef::Relative(1), ar_1, 20).unwrap();
    missing_sig_op.add_output(20, &bob_pk, code_1).unwrap();
    missing_sig_op.balance().unwrap();
    missing_sig_op.create().unwrap();
    assert!(missing_sig_op.validate_signatures().is_err());

    // A valid two-asset transfer with change behind both spends.
    let mut valid_op = TransferOperationBuilder::new();
    valid_op.add_input(TxoRef::Relative(1), ar_1, 20).unwrap();
    valid_op.add_input(TxoRef::Relative(2), ar_2, 20).unwrap();
    valid_op.add_output(5, &bob_pk, code_1).unwrap();
    valid_op.add_output(13, &charlie_pk, code_1).unwrap();
    valid_op.add_output(2, &bob_pk, code_1).unwrap();
    valid_op.add_output(5, &bob_pk, code_2).unwrap();
    valid_op.add_output(13, &charlie_pk, code_2).unwrap();
    valid_op.add_output(2, &bob_pk, code_2).unwrap();
    valid_op.balance().unwrap();
    valid_op.create().unwrap();
    valid_op.sign(&alice_pk, &alice_sk).unwrap();
    valid_op.sign(&bob_pk, &bob_sk).unwrap();
    valid_op.validate_signatures().unwrap();
    assert!(valid_op.transaction().is_ok());
}

#[test]
fn test_asset_creation_valid() {
    let (pk, sk) = keypair(37);
    let code = AssetTypeCode { val: 92 };
    let mut state = LedgerState::new();
    let body = asset_creation_body(&code, &pk, true, false, None, None);
    let op = asset_creation_operation(&body, &pk, &sk);
    let mut tx = Transaction::new();
    tx.add_operation(Operation::DefineAsset(op));
    let e = TxnEffect::compute_effect(tx).unwrap();
    state.apply_transaction(e).unwrap();
    let t = state.get_asset_type(&code).unwrap();
    assert_eq!(t.properties, body.asset);
    assert_eq!(t.units, 0);
}

#[test]
fn test_asset_creation_invalid_public_key() {
    let (pk1, sk1) = keypair(38);
    let (pk2, _) = keypair(39);
    let code = AssetTypeCode { val: 93 };
    let body = asset_creation_body(&code, &pk1, true, false, None, None);
    let mut op = asset_creation_operation(&body, &pk1, &sk1);
    // Re-attribute the operation to the wrong key.
    op.pubkey.key = pk2;
    let mut tx = Transaction::new();
    tx.add_operation(Operation::DefineAsset(op));
    assert!(TxnEffect::compute_effect(tx).is_err());
}

#[test]
fn test_asset_creation_invalid_signature() {
    let (pk1, _) = keypair(40);
    let (_, sk2) = keypair(41);
    let code = AssetTypeCode { val: 94 };
    let body = asset_creation_body(&code, &pk1, true, false, None, None);
    // Sign with a key that does not match the claimed issuer.
    let op = asset_creation_operation(&body, &pk1, &sk2);
    let mut tx = Transaction::new();
    tx.add_operation(Operation::DefineAsset(op));
    assert!(TxnEffect::compute_effect(tx).is_err());
}

#[test]
fn asset_issued() {
    let (pk, sk) = keypair(42);
    let code = AssetTypeCode { val: 95 };
    let mut ledger = LedgerState::new();
    assert_eq!(ledger.get_global_hash(), (BitDigest { w0: 0, w1: 0, w2: 0, w3: 0 }, 0));
    let e = TxnEffect::compute_effect(define_txn(code, &pk, &sk)).unwrap();
    ledger.apply_transaction(e).unwrap();
    let mut b = ledger::builder::TransactionBuilder::new();
    let rec = ledger::types::TxOutput(AssetRecord { amount: 10, code, owner: pk });
    b.add_operation_issue_asset(&pk, &sk, &code, 0, &vec![rec]).unwrap();
    let e = TxnEffect::compute_effect(b.transaction().clone()).unwrap();
    let (txn_id, _sids) = ledger.apply_transaction(e).unwrap();
    // The inclusion statement points at the transaction's own leaf.
    let txn = ledger.get_transaction(txn_id).unwrap();
    let merkle_id = txn.merkle_id;
    let proof = ledger.get_proof(txn_id).unwrap();
    assert_eq!(proof.tx_id, merkle_id);
    ledger.checkpoint();
    let (gh, c) = ledger.get_global_hash();
    assert_eq!((gh, c), (ledger.status.global_hash, 1));
    // The digest retained for the current version equals the bitmap's.
    let query_result = ledger.get_utxo_checksum(ledger.status.next_txn.0 as u64).unwrap();
    let compute_result = ledger.utxo_map.compute_checksum();
    assert_eq!(query_result, compute_result);
    assert_eq!(ledger.snapshot().id, 2);
}

#[test]
fn builder_rejects_mutation_after_create() {
    let (pk, _sk) = keypair(43);
    let code = AssetTypeCode { val: 96 };
    let rec = AssetRecord { amount: 10, code, owner: pk };
    let mut ob = TransferOperationBuilder::new();
    ob.add_input(TxoRef::Relative(0), rec, 10).unwrap();
    ob.add_output(10, &pk, code).unwrap();
    ob.create().unwrap();
    assert!(ob.add_input(TxoRef::Relative(1), rec, 1).is_err());
    assert!(ob.add_output(1, &pk, code).is_err());
    assert!(ob.balance().is_err());
}

#[test]
fn builder_requires_finalization() {
    let (pk, sk) = keypair(44);
    let mut ob = TransferOperationBuilder::new();
    assert!(ob.transaction().is_err());
    assert!(ob.sign(&pk, &sk).is_err());
    assert!(ob.validate_signatures().is_err());
}

#[test]
fn balance_adds_change_records() {
    let (pk, _) = keypair(45);
    let (pk2, _) = keypair(46);
    let code = AssetTypeCode { val: 97 };
    let rec = AssetRecord { amount: 100, code, owner: pk };
    let mut ob = TransferOperationBuilder::new();
    ob.add_input(TxoRef::Relative(0), rec, 30).unwrap();
    ob.add_output(30, &pk2, code).unwrap();
    ob.balance().unwrap();
    // The 70 unspent units come back to the input's owner.
    assert_eq!(ob.output_records.len(), 2);
    assert_eq!(ob.output_records[1], AssetRecord { amount: 70, code, owner: pk });
}

#[test]
fn compute_signature_matches_sign_message() {
    let (pk, sk) = keypair(47);
    let msg: Vec<u8> = vec![42; 100];
    let s1 = compute_signature(&sk, &pk, &msg);
    let s2 = sign_message(&sk, &msg);
    assert_eq!(s1, s2);
    assert!(verify_signature(&pk, &msg, &s1));
}

#[test]
fn deep_invariant_check_accepts_compiled_effects() {
    let (pk, sk) = keypair(48);
    let (pk2, _) = keypair(49);
    let code = AssetTypeCode { val: 98 };
    let rec = AssetRecord { amount: 10, code, owner: pk };
    let mut ob = TransferOperationBuilder::new();
    ob.add_input(TxoRef::Absolute(ledger::types::TxoSID(4)), rec, 10).unwrap();
    ob.add_output(10, &pk2, code).unwrap();
    ob.balance().unwrap();
    ob.create().unwrap();
    ob.sign(&pk, &sk).unwrap();
    let mut t = Transaction::new();
    t.add_operation(ob.transaction().unwrap());
    let effect = TxnEffect::compute_effect(t).unwrap();
    assert!(effect.deep_invariant_check().is_ok());
    // Tampering with a claimed record breaks the internal consistency.
    let mut tampered = effect.clone();
    tampered.input_txos.entries[0].1.amount = 11;
    assert!(tampered.deep_invariant_check().is_err());
}
