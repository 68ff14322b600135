use vstd::prelude::*;

use crate::bitmap::bits_bytes;
use crate::bitmap::BitMap;
use crate::codec::enc_u64;
use crate::codec::le8;
use crate::codec::push_all;
use crate::crypto::digest_bytes;
use crate::crypto::hash_bytes;
use crate::crypto::sha256_of;
use crate::crypto::BitDigest;
use crate::effects::TxnEffect;
use crate::errors::PlatformError;
use crate::merkle::AppendOnlyMerkle;
use crate::merkle::Proof;
use crate::status::effect_applies;
use crate::status::status_applied;
use crate::status::utxo_sids_of;
use crate::status::LedgerAccess;
use crate::status::LedgerStatus;
use crate::status::MAX_VERSION;
use crate::types::AssetType;
use crate::types::AssetTypeCode;
use crate::types::FinalizedTransaction;
use crate::types::TxnSID;
use crate::types::TxoSID;
use crate::types::Utxo;
use crate::wire::merkle_leaf_enc;
use crate::wire::txn_merkle_hash;

verus! {

/// The identifier of an accumulator log-segment boundary: the accumulator
/// size at which a new segment starts.
pub struct SnapshotId {
    pub id: u64,
}

/// The digest recorded for bitmap version `v`, scanning from the oldest
/// retained entry.
pub open spec fn find_version(s: Seq<(TxnSID, BitDigest)>, v: u64) -> Option<BitDigest>
    decreases s.len(),
{
    if s.len() == 0 {
        None
    } else if s.first().0.0 as u64 == v {
        Some(s.first().1)
    } else {
        find_version(s.drop_first(), v)
    }
}

/// The durable ledger: the serializable global state together with the
/// accumulator over committed transactions, the committed history itself,
/// and the bitmap of live output slots.
pub struct LedgerState {
    pub status: LedgerStatus,
    pub merkle: AppendOnlyMerkle,
    pub txs: Vec<FinalizedTransaction>,
    pub utxo_map: BitMap,
}

impl LedgerState {
    /// The state is consistent: the history length equals the transaction
    /// counter, the accumulator holds one leaf per committed transaction,
    /// the bitmap covers exactly the allocated output slots, and each
    /// committed transaction sits under its own index.
    pub open spec fn wf(self) -> bool {
        &&& self.status.wf()
        &&& self.merkle.wf()
        &&& self.txs@.len() == self.status.next_txn.0
        &&& self.merkle.leaves@.len() == self.txs@.len()
        &&& self.utxo_map.bits@.len() == self.status.next_txo.0
        &&& forall|i: int|
            0 <= i < self.txs@.len() ==> (#[trigger] self.txs@[i]).tx_id.0 == i
                && self.txs@[i].merkle_id == i
    }

    /// A fresh, empty ledger.
    pub fn new() -> (r: LedgerState)
        ensures
            r.wf(),
            r.status.utxos@ == Map::<u128, Utxo>::empty(),
            r.status.asset_types@ == Map::<u128, AssetType>::empty(),
            r.status.issuance_num@ == Map::<u128, u64>::empty(),
            r.status.utxo_map_versions@.len() == 0,
            r.status.next_txn == (TxnSID(0)),
            r.status.next_txo == (TxoSID(0)),
            r.status.global_hash == (BitDigest { w0: 0, w1: 0, w2: 0, w3: 0 }),
            r.status.global_commit_count == 0,
            r.txs@.len() == 0,
            r.merkle.leaves@.len() == 0,
            r.utxo_map.bits@.len() == 0,
    {
        let status = LedgerStatus::new();
        LedgerState { status, merkle: AppendOnlyMerkle::new(), txs: Vec::new(), utxo_map: BitMap::new() }
    }

    /// Apply a validated effect to the global state, then extend the
    /// durable structures: mark the allocated output slots in the bitmap —
    /// set for unspent, clear for slots consumed inside the transaction —
    /// and append the transaction's leaf hash to the accumulator, recording
    /// the committed transaction with its leaf index. On rejection nothing
    /// changes.
    #[verifier::loop_isolation(false)]
    pub fn apply_transaction(&mut self, txn: TxnEffect) -> (r: Result<
        (TxnSID, Vec<TxoSID>),
        PlatformError,
    >)
        requires
            old(self).wf(),
            txn.wf(),
        ensures
            final(self).wf(),
            match r {
                Ok(pair) => {
                    &&& effect_applies(old(self).status, txn)
                    &&& pair.0 == old(self).status.next_txn
                    &&& pair.1@ == utxo_sids_of(txn.txos@, old(self).status.next_txo.0)
                    &&& status_applied(old(self).status, txn, final(self).status)
                    &&& final(self).utxo_map.bits@.len() == old(self).utxo_map.bits@.len()
                        + txn.txos@.len()
                    &&& (forall|i: int|
                        0 <= i < final(self).utxo_map.bits@.len()
                            ==> final(self).utxo_map.bits@[i] == (
                        if txn.input_txos@.contains_key(i as u128) {
                            false
                        } else if i < old(self).utxo_map.bits@.len() {
                            old(self).utxo_map.bits@[i]
                        } else {
                            txn.txos@[i - old(self).utxo_map.bits@.len()] is Some
                        }))
                    &&& final(self).merkle.leaves@.len() == old(self).merkle.leaves@.len() + 1
                    &&& final(self).merkle.leaves@.drop_last() == old(self).merkle.leaves@
                    &&& final(self).merkle.leaves@.last().bytes() == sha256_of(
                        merkle_leaf_enc(txn.txn, pair.0),
                    )
                    &&& final(self).txs@ == old(self).txs@.push(
                        (FinalizedTransaction {
                            txn: txn.txn,
                            tx_id: pair.0,
                            merkle_id: old(self).txs@.len() as u64,
                        }),
                    )
                },
                Err(e) => {
                    &&& e == PlatformError::InputsError
                    &&& !effect_applies(old(self).status, txn)
                    &&& final(self).status == old(self).status
                    &&& final(self).merkle == old(self).merkle
                    &&& final(self).txs == old(self).txs
                    &&& final(self).utxo_map == old(self).utxo_map
                },
            },
    {
        let step = self.status.apply_txn_effects(&txn);
        let (txn_sid, utxo_sids) = match step {
            Err(e) => {
                return Err(e);
            },
            Ok(p) => p,
        };
        // Mark the freshly allocated slots in the bitmap.
        let ghost s_mid = *self;
        let ghost bits0 = self.utxo_map.bits@;
        let n_txos = txn.txos.len();
        for j in 0..n_txos
            invariant
                self.utxo_map.bits@ == bits0 + Seq::new(j as nat, |i: int| txn.txos@[i] is Some),
                *self == (LedgerState { utxo_map: self.utxo_map, ..s_mid }),
        {
            self.utxo_map.append(txn.txos[j].is_some());
            proof {
                assert(self.utxo_map.bits@ =~= bits0 + Seq::new(
                    (j + 1) as nat,
                    |i: int| txn.txos@[i] is Some,
                ));
            }
        }
        // A consumed input's slot is no longer live: clear its bit.
        let ghost bits_mid = self.utxo_map.bits@;
        let n_in = txn.input_txos.len();
        for t in 0..n_in
            invariant
                self.utxo_map.bits@.len() == bits_mid.len(),
                forall|i: int|
                    0 <= i < self.utxo_map.bits@.len() ==> self.utxo_map.bits@[i] == (
                    if (exists|j: int|
                        0 <= j < t && (#[trigger] txn.input_txos.entries@[j]).0 == i as u128) {
                        false
                    } else {
                        bits_mid[i]
                    }),
                *self == (LedgerState { utxo_map: self.utxo_map, ..s_mid }),
        {
            let e = txn.input_txos.entry_at(t);
            proof {
                assert(txn.input_txos@.contains_key(e.0));
                assert(old(self).status.utxos@.contains_key(e.0));
                assert(e.0 < old(self).status.next_txo.0 as u128);
                vstd::std_specs::vec::axiom_spec_len(&old(self).utxo_map.bits);
                assert(old(self).status.next_txo.0 <= usize::MAX as u64);
            }
            let ix = e.0 as usize;
            proof {
                assert(e.0 == ix as u128);
            }
            self.utxo_map.clear(ix);
            proof {
                assert forall|i: int|
                    0 <= i < self.utxo_map.bits@.len() implies self.utxo_map.bits@[i] == (
                if (exists|j: int|
                    0 <= j < t + 1 && (#[trigger] txn.input_txos.entries@[j]).0 == i as u128) {
                    false
                } else {
                    bits_mid[i]
                }) by {
                    if i == ix {
                        assert(txn.input_txos.entries@[t as int].0 == i as u128);
                    } else {
                        assert(forall|j: int|
                            0 <= j < t + 1 && (#[trigger] txn.input_txos.entries@[j]).0 == i
                                as u128 ==> 0 <= j < t);
                    }
                }
            }
        }
        proof {
            assert forall|i: int|
                0 <= i < self.utxo_map.bits@.len() implies self.utxo_map.bits@[i] == (
            if txn.input_txos@.contains_key(i as u128) {
                false
            } else {
                bits_mid[i]
            }) by {
                crate::umap::lemma_map_of_contains(txn.input_txos.entries@, i as u128);
            }
        }
        // Bind the transaction to its identifier in the accumulator and
        // record it in the committed history.
        let hash = txn_merkle_hash(&txn.txn, txn_sid);
        let merkle_id = self.merkle.append(&hash);
        self.txs.push(FinalizedTransaction { txn: txn.txn, tx_id: txn_sid, merkle_id });
        proof {
            assert(self.merkle.leaves@.drop_last() =~= old(self).merkle.leaves@);
        }
        Ok((txn_sid, utxo_sids))
    }

    /// Record the current bitmap digest in the bounded version history,
    /// evicting the oldest entry at the cap, then seal a new global hash
    /// chaining the bitmap digest, the accumulator root, the commit counter
    /// and the previous global hash, and advance the commit counter.
    pub fn checkpoint(&mut self)
        requires
            old(self).wf(),
            old(self).status.global_commit_count < u64::MAX,
        ensures
            final(self).wf(),
            final(self).status.global_commit_count == old(self).status.global_commit_count + 1,
            ({
                let prev = if old(self).status.utxo_map_versions@.len() >= MAX_VERSION {
                    old(self).status.utxo_map_versions@.drop_first()
                } else {
                    old(self).status.utxo_map_versions@
                };
                let cks = final(self).status.utxo_map_versions@.last();
                &&& final(self).status.utxo_map_versions@ == prev.push(cks)
                &&& cks.0 == old(self).status.next_txn
                &&& cks.1.bytes() == sha256_of(bits_bytes(old(self).utxo_map.bits@))
                &&& final(self).status.global_hash.bytes() == sha256_of(
                    cks.1.bytes() + old(self).merkle.root.bytes() + le8(
                        old(self).status.global_commit_count,
                    ) + old(self).status.global_hash.bytes(),
                )
            }),
            final(self).status == (LedgerStatus {
                utxo_map_versions: final(self).status.utxo_map_versions,
                global_hash: final(self).status.global_hash,
                global_commit_count: final(self).status.global_commit_count,
                ..old(self).status
            }),
            final(self).merkle == old(self).merkle,
            final(self).txs == old(self).txs,
            final(self).utxo_map == old(self).utxo_map,
    {
        // Retain the bitmap digest under the current transaction counter.
        let digest = self.utxo_map.compute_checksum();
        if self.status.utxo_map_versions.len() >= MAX_VERSION {
            self.status.utxo_map_versions.remove(0);
            proof {
                assert(self.status.utxo_map_versions@ =~= old(
                    self,
                ).status.utxo_map_versions@.drop_first());
            }
        }
        self.status.utxo_map_versions.push((self.status.next_txn, digest));
        // Seal the new global hash over the whole history so far.
        let mut data = digest_bytes(&digest);
        let root = self.merkle.get_root_hash();
        push_all(&mut data, &digest_bytes(&root));
        enc_u64(&mut data, self.status.global_commit_count);
        push_all(&mut data, &digest_bytes(&self.status.global_hash));
        proof {
            assert(data@ =~= digest.bytes() + old(self).merkle.root.bytes() + le8(
                old(self).status.global_commit_count,
            ) + old(self).status.global_hash.bytes());
        }
        self.status.global_hash = hash_bytes(&data);
        self.status.global_commit_count = self.status.global_commit_count + 1;
    }

    /// The accumulator size at which a new log segment starts; the durable
    /// writer around the ledger rotates its log at this boundary.
    pub fn snapshot(&self) -> (r: SnapshotId)
        requires
            self.wf(),
        ensures
            r.id == self.merkle.leaves@.len(),
    {
        SnapshotId { id: self.merkle.total_size() }
    }

    /// Look up a committed transaction.
    pub fn get_transaction(&self, addr: TxnSID) -> (r: Option<&FinalizedTransaction>)
        ensures
            match r {
                Some(t) => addr.0 < self.txs@.len() && *t == self.txs@[addr.0 as int],
                None => addr.0 >= self.txs@.len(),
            },
    {
        if addr.0 < self.txs.len() {
            Some(&self.txs[addr.0])
        } else {
            None
        }
    }

    /// The inclusion statement for a committed transaction: its leaf index,
    /// digest, and the accumulator size and root it was read under.
    pub fn get_proof(&self, addr: TxnSID) -> (r: Option<Proof>)
        requires
            self.wf(),
        ensures
            match r {
                Some(p) => {
                    &&& addr.0 < self.txs@.len()
                    &&& p.tx_id == self.txs@[addr.0 as int].merkle_id
                    &&& p.state == self.merkle.leaves@.len()
                    &&& p.leaf == self.merkle.leaves@[addr.0 as int]
                    &&& p.root_hash == self.merkle.root
                },
                None => addr.0 >= self.txs@.len(),
            },
    {
        match self.get_transaction(addr) {
            None => None,
            Some(txn) => self.merkle.get_proof(txn.merkle_id),
        }
    }

    /// The bitmap of live output slots.
    pub fn get_utxo_map(&self) -> (r: &BitMap)
        ensures
            r == self.utxo_map,
    {
        &self.utxo_map
    }

    /// The bitmap digest recorded at version `version`, if it is still
    /// retained.
    #[verifier::loop_isolation(false)]
    pub fn get_utxo_checksum(&self, version: u64) -> (r: Option<BitDigest>)
        ensures
            r == find_version(self.status.utxo_map_versions@, version),
    {
        proof {
            assert(self.status.utxo_map_versions@.skip(0) =~= self.status.utxo_map_versions@);
        }
        let n = self.status.utxo_map_versions.len();
        for i in 0..n
            invariant
                find_version(self.status.utxo_map_versions@, version) == find_version(
                    self.status.utxo_map_versions@.skip(i as int),
                    version,
                ),
        {
            proof {
                assert(self.status.utxo_map_versions@.skip(i as int).first()
                    == self.status.utxo_map_versions@[i as int]);
                assert(self.status.utxo_map_versions@.skip(i as int).drop_first()
                    =~= self.status.utxo_map_versions@.skip(i as int + 1));
            }
            let pair = &self.status.utxo_map_versions[i];
            if pair.0.0 as u64 == version {
                return Some(pair.1);
            }
        }
        proof {
            assert(self.status.utxo_map_versions@.skip(n as int) =~= Seq::<(
                TxnSID,
                BitDigest,
            )>::empty());
        }
        None
    }

    /// The hash of the most recent checkpoint and its sequence number.
    pub fn get_global_hash(&self) -> (r: (BitDigest, u64))
        ensures
            r.0 == self.status.global_hash,
            r.1 == self.status.global_commit_count,
    {
        (self.status.global_hash, self.status.global_commit_count)
    }
}

/// A recovered state and log fit together: the log holds exactly as many
/// transactions as the snapshot's counter claims, each under its own
/// index, and every unspent output lies below the output counter.
pub open spec fn loadable(status: LedgerStatus, txs: Seq<FinalizedTransaction>) -> bool {
    &&& txs.len() == status.next_txn.0
    &&& forall|i: int|
        0 <= i < txs.len() ==> (#[trigger] txs[i]).tx_id.0 == i && txs[i].merkle_id == i
    &&& forall|k: u128| #[trigger]
        status.utxos@.contains_key(k) ==> k < status.next_txo.0 as u128
    &&& status.next_txo.0 <= usize::MAX as u64
}

impl LedgerState {
    /// Reconstruct a ledger from a recovered snapshot and transaction log:
    /// the accumulator and the bitmap are rebuilt from them. Succeeds if
    /// and only if the two fit together; any mismatch is an integrity
    /// error requiring operator intervention.
    #[verifier::loop_isolation(false)]
    pub fn load(status: LedgerStatus, txs: Vec<FinalizedTransaction>) -> (r: Result<
        LedgerState,
        PlatformError,
    >)
        requires
            status.utxos.wf(),
            status.asset_types.wf(),
            status.issuance_num.wf(),
        ensures
            match r {
                Ok(ls) => {
                    &&& loadable(status, txs@)
                    &&& ls.wf()
                    &&& ls.status == status
                    &&& ls.txs == txs
                },
                Err(e) => {
                    &&& e == PlatformError::InvariantError
                    &&& !loadable(status, txs@)
                },
            },
    {
        if txs.len() != status.next_txn.0 {
            return Err(PlatformError::InvariantError);
        }
        let n = txs.len();
        for i in 0..n
            invariant
                forall|j: int|
                    0 <= j < i ==> (#[trigger] txs@[j]).tx_id.0 == j && txs@[j].merkle_id == j,
        {
            if txs[i].tx_id.0 != i || txs[i].merkle_id != i as u64 {
                return Err(PlatformError::InvariantError);
            }
        }
        let n_keys = status.utxos.len();
        for i in 0..n_keys
            invariant
                forall|j: int|
                    0 <= j < i ==> (#[trigger] status.utxos.entries@[j]).0 < status.next_txo.0
                        as u128,
        {
            let e = status.utxos.entry_at(i);
            if e.0 >= status.next_txo.0 as u128 {
                return Err(PlatformError::InvariantError);
            }
        }
        proof {
            assert forall|k: u128| #[trigger]
                status.utxos@.contains_key(k) implies k < status.next_txo.0 as u128 by {
                crate::umap::lemma_map_of_contains(status.utxos.entries@, k);
                let j = choose|j: int|
                    0 <= j < status.utxos.entries@.len() && status.utxos.entries@[j].0 == k;
                crate::umap::lemma_map_of_index(status.utxos.entries@, j);
            }
        }
        if status.next_txo.0 > usize::MAX as u64 {
            return Err(PlatformError::InvariantError);
        }
        // Rebuild the accumulator from the recovered history.
        let mut merkle = AppendOnlyMerkle::new();
        for i in 0..n
            invariant
                merkle.wf(),
                merkle.leaves@.len() == i,
        {
            let h = txn_merkle_hash(&txs[i].txn, txs[i].tx_id);
            merkle.append(&h);
        }
        // Rebuild the bitmap: a slot is live exactly when it is unspent.
        let mut utxo_map = BitMap::new();
        let n_to = status.next_txo.0;
        let mut j: u64 = 0;
        while j < n_to
            invariant
                j <= n_to,
                utxo_map.bits@.len() == j,
            decreases n_to - j,
        {
            utxo_map.append(status.utxos.contains_key(j as u128));
            j = j + 1;
        }
        Ok(LedgerState { status, merkle, txs, utxo_map })
    }

    /// Reconstruct a ledger from the raw bytes of a snapshot plus the
    /// recovered transaction log. Success is owed whenever the bytes are
    /// the snapshot of some well-formed state that fits the log.
    pub fn load_from_snapshot(snapshot_bytes: &Vec<u8>, txs: Vec<FinalizedTransaction>) -> (r:
        Result<LedgerState, PlatformError>)
        ensures
            match r {
                Ok(ls) => {
                    &&& ls.wf()
                    &&& crate::snapshot::status_enc(ls.status) == snapshot_bytes@
                    &&& loadable(ls.status, txs@)
                    &&& ls.txs == txs
                },
                Err(e) => {
                    &&& (e == PlatformError::DeserializationError || e
                        == PlatformError::InvariantError)
                    &&& (e == PlatformError::DeserializationError
                        ==> !crate::snapshot::is_status_enc(snapshot_bytes@))
                    &&& !(exists|st: LedgerStatus|
                        st.utxos.wf() && st.asset_types.wf() && st.issuance_num.wf()
                            && snapshot_bytes@ == #[trigger] crate::snapshot::status_enc(st)
                            && loadable(st, txs@))
                },
            },
    {
        let ghost gexp: Option<LedgerStatus> = if exists|st: LedgerStatus|
            st.utxos.wf() && st.asset_types.wf() && st.issuance_num.wf() && snapshot_bytes@
                == #[trigger] crate::snapshot::status_enc(st) && loadable(st, txs@) {
            Some(
                choose|st: LedgerStatus|
                    st.utxos.wf() && st.asset_types.wf() && st.issuance_num.wf() && snapshot_bytes@
                        == #[trigger] crate::snapshot::status_enc(st) && loadable(st, txs@),
            )
        } else if crate::snapshot::is_status_enc(snapshot_bytes@) {
            Some(
                choose|st: LedgerStatus|
                    st.utxos.wf() && st.asset_types.wf() && st.issuance_num.wf() && snapshot_bytes@
                        == #[trigger] crate::snapshot::status_enc(st),
            )
        } else {
            None
        };
        let status = match crate::snapshot::decode_ledger_status_checked(
            snapshot_bytes,
            Ghost(gexp),
        ) {
            None => {
                return Err(PlatformError::DeserializationError);
            },
            Some(s) => s,
        };
        proof {
            if let Some(w) = gexp {
                if loadable(w, txs@) {
                    assert(status.utxos@ == w.utxos@);
                    assert(loadable(status, txs@));
                }
            }
        }
        LedgerState::load(status, txs)
    }
}

impl LedgerAccess for LedgerState {
    open spec fn status_view(&self) -> LedgerStatus {
        self.status
    }

    open spec fn access_inv(&self) -> bool {
        self.wf()
    }

    fn get_utxo(&self, addr: TxoSID) -> (r: Option<Utxo>) {
        self.status.get_utxo(addr)
    }

    fn get_issuance_num(&self, code: &AssetTypeCode) -> (r: Option<u64>) {
        self.status.get_issuance_num(code)
    }

    fn get_asset_type(&self, code: &AssetTypeCode) -> (r: Option<AssetType>) {
        self.status.get_asset_type(code)
    }
}

} // verus!
