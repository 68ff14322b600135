use vstd::prelude::*;

use crate::crypto::BitDigest;
use crate::effects::nums_view;
use crate::effects::TxnEffect;
use crate::errors::PlatformError;
use crate::types::AssetTypeCode;
use crate::types::AssetType;
use crate::types::TxOutput;
use crate::types::TxnSID;
use crate::types::TxoSID;
use crate::types::Utxo;
use crate::umap::lemma_map_of_contains;
use crate::umap::lemma_map_of_index;
use crate::umap::map_of;
use crate::umap::unique_keys;
use crate::umap::UMap;

verus! {

/// How many bitmap-digest versions the state retains.
pub const MAX_VERSION: usize = 100;

/// The serializable global state of the ledger: the unspent outputs, the
/// registered asset types, the per-asset issuance watermark, the monotonic
/// transaction and output counters, a bounded history of bitmap digests,
/// and the chained global hash with its commit counter.
#[derive(Clone, Debug, PartialEq, Eq)]
pub struct LedgerStatus {
    pub utxos: UMap<Utxo>,
    pub utxo_map_versions: Vec<(TxnSID, BitDigest)>,
    pub asset_types: UMap<AssetType>,
    pub issuance_num: UMap<u64>,
    pub next_txn: TxnSID,
    pub next_txo: TxoSID,
    pub global_hash: BitDigest,
    pub global_commit_count: u64,
}

/// The watermark an issuance-number list leaves behind: one past the
/// greatest number used, or zero when none was used.
pub open spec fn watermark(sn: Seq<u64>) -> u64 {
    if sn.len() == 0 {
        0u64
    } else {
        (sn.last() + 1) as u64
    }
}

/// Every committed output the effect claims exists unspent and carries
/// exactly the claimed record.
pub open spec fn inputs_valid(st: LedgerStatus, eff: TxnEffect) -> bool {
    forall|k: u128| #[trigger]
        eff.input_txos@.contains_key(k) ==> st.utxos@.contains_key(k) && st.utxos@[k].0.0
            == eff.input_txos@[k]
}

/// No asset code the effect defines is already registered.
pub open spec fn codes_fresh(st: LedgerStatus, eff: TxnEffect) -> bool {
    forall|k: u128| #[trigger]
        eff.new_asset_codes@.contains_key(k) ==> !st.asset_types@.contains_key(k)
            && !st.issuance_num@.contains_key(k)
}

/// Every issuance-number list is empty only for an asset defined in this
/// effect, and otherwise starts at or above the asset's watermark — unless
/// the asset is first defined in this same effect.
pub open spec fn nums_valid(st: LedgerStatus, eff: TxnEffect) -> bool {
    forall|k: u128| #[trigger]
        nums_view(eff.new_issuance_nums).contains_key(k) ==> {
            let sn = nums_view(eff.new_issuance_nums)[k];
            if sn.len() == 0 {
                eff.new_asset_codes@.contains_key(k)
            } else if eff.new_asset_codes@.contains_key(k) {
                true
            } else {
                st.issuance_num@.contains_key(k) && sn.first() >= st.issuance_num@[k]
            }
        }
}

/// The effect passes validation against `st` and the counters can advance.
pub open spec fn effect_applies(st: LedgerStatus, eff: TxnEffect) -> bool {
    &&& inputs_valid(st, eff)
    &&& codes_fresh(st, eff)
    &&& nums_valid(st, eff)
    &&& st.next_txo.0 + eff.txos@.len() <= u64::MAX
    &&& st.next_txn.0 + 1 <= usize::MAX
}

/// The unspent-output map after inserting every produced output, with
/// identifiers assigned contiguously from `base` by slot position.
pub open spec fn add_utxos_map(
    m: Map<u128, Utxo>,
    txos: Seq<Option<TxOutput>>,
    base: u64,
) -> Map<u128, Utxo>
    decreases txos.len(),
{
    if txos.len() == 0 {
        m
    } else {
        let m2 = add_utxos_map(m, txos.drop_last(), base);
        match txos.last() {
            Some(o) => m2.insert((base + txos.len() - 1) as u128, Utxo(o)),
            None => m2,
        }
    }
}

/// The identifiers of the produced outputs, ascending: `base + i` for every
/// position `i` whose slot is occupied.
pub open spec fn utxo_sids_of(txos: Seq<Option<TxOutput>>, base: u64) -> Seq<TxoSID>
    decreases txos.len(),
{
    if txos.len() == 0 {
        Seq::empty()
    } else {
        let pre = utxo_sids_of(txos.drop_last(), base);
        match txos.last() {
            Some(o) => pre.push(TxoSID((base + txos.len() - 1) as u64)),
            None => pre,
        }
    }
}

/// Keys of the map after adding outputs are old keys or lie in the
/// assigned range.
pub proof fn lemma_add_utxos_dom(m: Map<u128, Utxo>, txos: Seq<Option<TxOutput>>, base: u64)
    requires
        base + txos.len() <= u64::MAX,
    ensures
        forall|k: u128| #[trigger]
            add_utxos_map(m, txos, base).contains_key(k) ==> m.contains_key(k) || (base as u128 <= k
                < base as u128 + txos.len()),
    decreases txos.len(),
{
    if txos.len() > 0 {
        lemma_add_utxos_dom(m, txos.drop_last(), base);
        let m2 = add_utxos_map(m, txos.drop_last(), base);
        assert forall|k: u128| #[trigger] add_utxos_map(m, txos, base).contains_key(k) implies
            m.contains_key(k) || (base as u128 <= k < base as u128 + txos.len()) by {
            match txos.last() {
                Some(o) => {
                    assert(add_utxos_map(m, txos, base) == m2.insert(
                        (base + txos.len() - 1) as u128,
                        Utxo(o),
                    ));
                    if k == (base + txos.len() - 1) as u128 {
                        assert((base + txos.len() - 1) as u128 == base as u128 + txos.len() - 1);
                    } else {
                        assert(m2.contains_key(k));
                    }
                },
                None => {
                    assert(add_utxos_map(m, txos, base) == m2);
                },
            }
        }
    }
}

/// Which keys the map holds after adding outputs: old keys, plus the
/// assigned identifier of every occupied slot.
pub proof fn lemma_add_utxos_contains(m: Map<u128, Utxo>, txos: Seq<Option<TxOutput>>, base: u64)
    requires
        base + txos.len() <= u64::MAX,
        forall|k: u128| #[trigger] m.contains_key(k) ==> k < base as u128,
    ensures
        forall|k: u128|
            #![trigger add_utxos_map(m, txos, base).contains_key(k)]
            add_utxos_map(m, txos, base).contains_key(k) <==> (m.contains_key(k) || (base as u128
                <= k < base as u128 + txos.len() && txos[k as int - base as int] is Some)),
    decreases txos.len(),
{
    if txos.len() > 0 {
        lemma_add_utxos_contains(m, txos.drop_last(), base);
        let m2 = add_utxos_map(m, txos.drop_last(), base);
        let last_key = (base + txos.len() - 1) as u128;
        assert forall|k: u128|
            add_utxos_map(m, txos, base).contains_key(k) <==> (m.contains_key(k) || (base as u128
                <= k < base as u128 + txos.len() && txos[k as int - base as int] is Some)) by {
            match txos.last() {
                Some(o) => {
                    assert(add_utxos_map(m, txos, base) == m2.insert(last_key, Utxo(o)));
                    if k != last_key {
                        assert(m2.contains_key(k) <==> (m.contains_key(k) || (base as u128 <= k
                            < base as u128 + txos.len() - 1 && txos.drop_last()[k as int
                            - base as int] is Some)));
                        if base as u128 <= k < base as u128 + txos.len() - 1 {
                            assert(txos.drop_last()[k as int - base as int] == txos[k as int
                                - base as int]);
                        }
                    }
                },
                None => {
                    assert(add_utxos_map(m, txos, base) == m2);
                    assert(m2.contains_key(k) <==> (m.contains_key(k) || (base as u128 <= k
                        < base as u128 + txos.len() - 1 && txos.drop_last()[k as int
                        - base as int] is Some)));
                    if base as u128 <= k < base as u128 + txos.len() - 1 {
                        assert(txos.drop_last()[k as int - base as int] == txos[k as int
                            - base as int]);
                    }
                },
            }
        }
    }
}

/// A fold of inserts over entry lists, used to relate the walk the code
/// makes to a map-level union.
pub open spec fn fold_insert<V, W>(
    m: Map<u128, W>,
    entries: Seq<(u128, V)>,
    f: spec_fn(V) -> W,
) -> Map<u128, W>
    decreases entries.len(),
{
    if entries.len() == 0 {
        m
    } else {
        fold_insert(m, entries.drop_last(), f).insert(
            entries.last().0,
            f(entries.last().1),
        )
    }
}

/// Folding inserts of an entry list equals union with the denoted map,
/// values transformed.
pub proof fn lemma_fold_insert_union<V, W>(
    m: Map<u128, W>,
    entries: Seq<(u128, V)>,
    f: spec_fn(V) -> W,
)
    requires
        unique_keys(entries),
    ensures
        fold_insert(m, entries, f) == m.union_prefer_right(map_of(entries).map_values(f)),
    decreases entries.len(),
{
    if entries.len() == 0 {
        assert(m.union_prefer_right(map_of(entries).map_values(f)) =~= m);
    } else {
        lemma_fold_insert_union(m, entries.drop_last(), f);
        assert(fold_insert(m, entries, f) =~= m.union_prefer_right(
            map_of(entries).map_values(f),
        ));
    }
}

/// A fold of removals over an entry list.
pub open spec fn fold_remove<V, W>(m: Map<u128, W>, entries: Seq<(u128, V)>) -> Map<u128, W>
    decreases entries.len(),
{
    if entries.len() == 0 {
        m
    } else {
        fold_remove(m, entries.drop_last()).remove(entries.last().0)
    }
}

/// Folding removals of an entry list equals removing the denoted map's
/// keys.
pub proof fn lemma_fold_remove_keys<V, W>(m: Map<u128, W>, entries: Seq<(u128, V)>)
    requires
        unique_keys(entries),
    ensures
        fold_remove(m, entries) == m.remove_keys(map_of(entries).dom()),
    decreases entries.len(),
{
    if entries.len() == 0 {
        assert(map_of(entries).dom() =~= Set::<u128>::empty());
        assert(m.remove_keys(map_of(entries).dom()) =~= m);
    } else {
        lemma_fold_remove_keys(m, entries.drop_last());
        lemma_map_of_contains(entries, entries.last().0);
        assert(fold_remove(m, entries) =~= m.remove_keys(map_of(entries).dom()));
    }
}

/// How the global state after a successful application relates to the
/// state before it: counters advanced, claimed inputs consumed, produced
/// outputs inserted under contiguous identifiers, watermarks raised, new
/// asset types registered, and everything else untouched.
pub open spec fn status_applied(pre: LedgerStatus, eff: TxnEffect, post: LedgerStatus) -> bool {
    &&& post.next_txn.0 == pre.next_txn.0 + 1
    &&& post.next_txo.0 == pre.next_txo.0 + eff.txos@.len()
    &&& post.utxos@ == add_utxos_map(
        pre.utxos@.remove_keys(eff.input_txos@.dom()),
        eff.txos@,
        pre.next_txo.0,
    )
    &&& post.asset_types@ == pre.asset_types@.union_prefer_right(eff.new_asset_codes@)
    &&& post.issuance_num@ == pre.issuance_num@.union_prefer_right(
        nums_view(eff.new_issuance_nums).map_values(|sn: Seq<u64>| watermark(sn)),
    )
    &&& post.utxo_map_versions == pre.utxo_map_versions
    &&& post.global_hash == pre.global_hash
    &&& post.global_commit_count == pre.global_commit_count
}

impl LedgerStatus {
    /// The maps are well formed, and every unspent output's identifier lies
    /// below the output counter.
    pub open spec fn wf(self) -> bool {
        &&& self.utxos.wf()
        &&& self.asset_types.wf()
        &&& self.issuance_num.wf()
        &&& forall|k: u128| #[trigger]
            self.utxos@.contains_key(k) ==> k < self.next_txo.0 as u128
    }

    /// A fresh, empty global state.
    pub fn new() -> (r: LedgerStatus)
        ensures
            r.wf(),
            r.utxos@ == Map::<u128, Utxo>::empty(),
            r.asset_types@ == Map::<u128, AssetType>::empty(),
            r.issuance_num@ == Map::<u128, u64>::empty(),
            r.utxo_map_versions@.len() == 0,
            r.next_txn == (TxnSID(0)),
            r.next_txo == (TxoSID(0)),
            r.global_hash == (BitDigest { w0: 0, w1: 0, w2: 0, w3: 0 }),
            r.global_commit_count == 0,
    {
        LedgerStatus {
            utxos: UMap::new(),
            utxo_map_versions: Vec::new(),
            asset_types: UMap::new(),
            issuance_num: UMap::new(),
            next_txn: TxnSID(0),
            next_txo: TxoSID(0),
            global_hash: BitDigest::zero(),
            global_commit_count: 0,
        }
    }

    /// Check the effect against the current state, and only if every check
    /// passes, apply it atomically: advance the counters, consume the
    /// claimed inputs, insert the produced outputs under contiguously
    /// assigned identifiers, raise the issuance watermarks and register the
    /// new asset types. On rejection the state is left untouched.
    #[verifier::loop_isolation(false)]
    #[verifier::rlimit(100)]
    pub fn apply_txn_effects(&mut self, txn: &TxnEffect) -> (r: Result<
        (TxnSID, Vec<TxoSID>),
        PlatformError,
    >)
        requires
            old(self).wf(),
            txn.wf(),
        ensures
            final(self).wf(),
            match r {
                Ok(pair) => {
                    &&& effect_applies(*old(self), *txn)
                    &&& pair.0 == old(self).next_txn
                    &&& pair.1@ == utxo_sids_of(txn.txos@, old(self).next_txo.0)
                    &&& status_applied(*old(self), *txn, *final(self))
                },
                Err(e) => {
                    &&& e == PlatformError::InputsError
                    &&& !effect_applies(*old(self), *txn)
                    &&& *final(self) == *old(self)
                },
            },
    {
        if self.next_txo.0 > u64::MAX - (txn.txos.len() as u64) {
            return Err(PlatformError::InputsError);
        }
        if self.next_txn.0 == usize::MAX {
            return Err(PlatformError::InputsError);
        }
        // Assign an identifier to each occupied output slot.
        let mut new_utxo_sids: Vec<TxoSID> = Vec::new();
        let n_txos = txn.txos.len();
        for ix in 0..n_txos
            invariant
                new_utxo_sids@ == utxo_sids_of(txn.txos@.take(ix as int), self.next_txo.0),
        {
            proof {
                assert(txn.txos@.take(ix as int + 1).drop_last() =~= txn.txos@.take(ix as int));
            }
            if txn.txos[ix].is_some() {
                new_utxo_sids.push(TxoSID(self.next_txo.0 + ix as u64));
            }
        }
        proof {
            assert(txn.txos@.take(n_txos as int) =~= txn.txos@);
        }
        // Stage one: validate every check, with no side effects.
        let n_in = txn.input_txos.len();
        for i in 0..n_in
            invariant
                forall|j: int|
                    0 <= j < i ==> self.utxos@.contains_key(
                        (#[trigger] txn.input_txos.entries@[j]).0,
                    ) && self.utxos@[txn.input_txos.entries@[j].0].0.0
                        == txn.input_txos.entries@[j].1,
        {
            let e = txn.input_txos.entry_at(i);
            match self.utxos.get(e.0) {
                None => {
                    return Err(PlatformError::InputsError);
                },
                Some(u) => {
                    if u.0.0 != e.1 {
                        return Err(PlatformError::InputsError);
                    }
                },
            }
        }
        proof {
            assert forall|k: u128| #[trigger]
                txn.input_txos@.contains_key(k) implies self.utxos@.contains_key(k)
                && self.utxos@[k].0.0 == txn.input_txos@[k] by {
                lemma_map_of_contains(txn.input_txos.entries@, k);
                let j = choose|j: int|
                    0 <= j < txn.input_txos.entries@.len() && txn.input_txos.entries@[j].0 == k;
                lemma_map_of_index(txn.input_txos.entries@, j);
            }
        }
        let n_codes = txn.new_asset_codes.len();
        for i in 0..n_codes
            invariant
                forall|j: int|
                    0 <= j < i ==> !self.asset_types@.contains_key(
                        (#[trigger] txn.new_asset_codes.entries@[j]).0,
                    ) && !self.issuance_num@.contains_key(txn.new_asset_codes.entries@[j].0),
        {
            let e = txn.new_asset_codes.entry_at(i);
            if self.asset_types.contains_key(e.0) {
                return Err(PlatformError::InputsError);
            }
            if self.issuance_num.contains_key(e.0) {
                return Err(PlatformError::InputsError);
            }
        }
        proof {
            assert forall|k: u128| #[trigger]
                txn.new_asset_codes@.contains_key(k) implies !self.asset_types@.contains_key(k)
                && !self.issuance_num@.contains_key(k) by {
                lemma_map_of_contains(txn.new_asset_codes.entries@, k);
                let j = choose|j: int|
                    0 <= j < txn.new_asset_codes.entries@.len()
                        && txn.new_asset_codes.entries@[j].0 == k;
                lemma_map_of_index(txn.new_asset_codes.entries@, j);
            }
        }
        let n_nums = txn.new_issuance_nums.len();
        for i in 0..n_nums
            invariant
                forall|j: int|
                    0 <= j < i ==> {
                        let k = (#[trigger] txn.new_issuance_nums.entries@[j]).0;
                        let sn = txn.new_issuance_nums.entries@[j].1@;
                        if sn.len() == 0 {
                            txn.new_asset_codes@.contains_key(k)
                        } else if txn.new_asset_codes@.contains_key(k) {
                            true
                        } else {
                            self.issuance_num@.contains_key(k) && sn.first()
                                >= self.issuance_num@[k]
                        }
                    },
        {
            let e = txn.new_issuance_nums.entry_at(i);
            proof {
                assert(nums_view(txn.new_issuance_nums).contains_key(e.0));
                assert(nums_view(txn.new_issuance_nums)[e.0] == e.1@);
            }
            if e.1.len() == 0 {
                if !txn.new_asset_codes.contains_key(e.0) {
                    return Err(PlatformError::InputsError);
                }
            } else if !txn.new_asset_codes.contains_key(e.0) {
                match self.issuance_num.get(e.0) {
                    None => {
                        return Err(PlatformError::InputsError);
                    },
                    Some(w) => {
                        if e.1[0] < *w {
                            return Err(PlatformError::InputsError);
                        }
                    },
                }
            }
        }
        proof {
            assert forall|k: u128| #[trigger]
                nums_view(txn.new_issuance_nums).contains_key(k) implies {
                let sn = nums_view(txn.new_issuance_nums)[k];
                if sn.len() == 0 {
                    txn.new_asset_codes@.contains_key(k)
                } else if txn.new_asset_codes@.contains_key(k) {
                    true
                } else {
                    self.issuance_num@.contains_key(k) && sn.first() >= self.issuance_num@[k]
                }
            } by {
                lemma_map_of_contains(txn.new_issuance_nums.entries@, k);
                let j = choose|j: int|
                    0 <= j < txn.new_issuance_nums.entries@.len()
                        && txn.new_issuance_nums.entries@[j].0 == k;
                lemma_map_of_index(txn.new_issuance_nums.entries@, j);
            }
            assert(effect_applies(*self, *txn));
        }
        // Stage two: apply every mutation; nothing below can fail.
        let base: u64 = self.next_txo.0;
        let ret_txn: TxnSID = self.next_txn;
        self.next_txn = TxnSID(self.next_txn.0 + 1);
        self.next_txo = TxoSID(base + txn.txos.len() as u64);
        let ghost s_mid = *self;
        let ghost utxos0 = self.utxos@;
        for i in 0..n_in
            invariant
                self.utxos.wf(),
                self.utxos@ == fold_remove(utxos0, txn.input_txos.entries@.take(i as int)),
                *self == (LedgerStatus { utxos: self.utxos, ..s_mid }),
        {
            proof {
                assert(txn.input_txos.entries@.take(i as int + 1).drop_last()
                    =~= txn.input_txos.entries@.take(i as int));
            }
            let e = txn.input_txos.entry_at(i);
            self.utxos.remove(e.0);
        }
        proof {
            assert(txn.input_txos.entries@.take(n_in as int) =~= txn.input_txos.entries@);
            lemma_fold_remove_keys(utxos0, txn.input_txos.entries@);
        }
        let ghost utxos1 = self.utxos@;
        for ix in 0..n_txos
            invariant
                self.utxos.wf(),
                self.utxos@ == add_utxos_map(utxos1, txn.txos@.take(ix as int), base),
                *self == (LedgerStatus { utxos: self.utxos, ..s_mid }),
        {
            proof {
                assert(txn.txos@.take(ix as int + 1).drop_last() =~= txn.txos@.take(ix as int));
            }
            if let Some(o) = txn.txos[ix] {
                self.utxos.insert(base as u128 + ix as u128, Utxo(o));
            }
        }
        proof {
            assert(txn.txos@.take(n_txos as int) =~= txn.txos@);
        }
        let ghost s_mid2 = *self;
        let ghost issuance0 = self.issuance_num@;
        for i in 0..n_nums
            invariant
                self.issuance_num.wf(),
                self.issuance_num@ == fold_insert(
                    issuance0,
                    txn.new_issuance_nums.entries@.take(i as int),
                    |sn: Vec<u64>| watermark(sn@),
                ),
                *self == (LedgerStatus { issuance_num: self.issuance_num, ..s_mid2 }),
        {
            proof {
                assert(txn.new_issuance_nums.entries@.take(i as int + 1).drop_last()
                    =~= txn.new_issuance_nums.entries@.take(i as int));
            }
            let e = txn.new_issuance_nums.entry_at(i);
            let w: u64 = if e.1.len() == 0 {
                0
            } else {
                proof {
                    assert(nums_view(txn.new_issuance_nums).contains_key(e.0));
                }
                e.1[e.1.len() - 1] + 1
            };
            self.issuance_num.insert(e.0, w);
        }
        proof {
            assert(txn.new_issuance_nums.entries@.take(n_nums as int)
                =~= txn.new_issuance_nums.entries@);
            lemma_fold_insert_union(
                issuance0,
                txn.new_issuance_nums.entries@,
                |sn: Vec<u64>| watermark(sn@),
            );
            assert(map_of(txn.new_issuance_nums.entries@).map_values(
                |sn: Vec<u64>| watermark(sn@),
            ) =~= nums_view(txn.new_issuance_nums).map_values(|sn: Seq<u64>| watermark(sn)));
        }
        let ghost s_mid3 = *self;
        let ghost types0 = self.asset_types@;
        for i in 0..n_codes
            invariant
                self.asset_types.wf(),
                self.asset_types@ == fold_insert(
                    types0,
                    txn.new_asset_codes.entries@.take(i as int),
                    |t: AssetType| t,
                ),
                *self == (LedgerStatus { asset_types: self.asset_types, ..s_mid3 }),
        {
            proof {
                assert(txn.new_asset_codes.entries@.take(i as int + 1).drop_last()
                    =~= txn.new_asset_codes.entries@.take(i as int));
            }
            let e = txn.new_asset_codes.entry_at(i);
            self.asset_types.insert(e.0, e.1);
        }
        proof {
            assert(txn.new_asset_codes.entries@.take(n_codes as int)
                =~= txn.new_asset_codes.entries@);
            lemma_fold_insert_union(types0, txn.new_asset_codes.entries@, |t: AssetType| t);
            assert(map_of(txn.new_asset_codes.entries@).map_values(|t: AssetType| t)
                =~= txn.new_asset_codes@);
            lemma_add_utxos_dom(utxos1, txn.txos@, base);
        }
        Ok((ret_txn, new_utxo_sids))
    }

}

/// The unspent output stored under `addr`, if any.
pub open spec fn spec_get_utxo(st: LedgerStatus, addr: TxoSID) -> Option<Utxo> {
    if st.utxos@.contains_key(addr.0 as u128) {
        Some(st.utxos@[addr.0 as u128])
    } else {
        None
    }
}

/// The issuance watermark registered for `code`, if any: one past the
/// greatest sequence number issued so far.
pub open spec fn spec_get_issuance_num(st: LedgerStatus, code: AssetTypeCode) -> Option<u64> {
    if st.issuance_num@.contains_key(code.val) {
        Some(st.issuance_num@[code.val])
    } else {
        None
    }
}

/// The asset type registered under `code`, if any.
pub open spec fn spec_get_asset_type(st: LedgerStatus, code: AssetTypeCode) -> Option<AssetType> {
    if st.asset_types@.contains_key(code.val) {
        Some(st.asset_types@[code.val])
    } else {
        None
    }
}

/// Read access to the global state, shared by the state holder and the
/// durable ledger around it.
pub trait LedgerAccess {
    /// The global state the answers are read from.
    spec fn status_view(&self) -> LedgerStatus;

    /// The reader is in a consistent state.
    spec fn access_inv(&self) -> bool;

    /// Look up a currently unspent output.
    fn get_utxo(&self, addr: TxoSID) -> (r: Option<Utxo>)
        requires
            self.access_inv(),
        ensures
            r == spec_get_utxo(self.status_view(), addr),
    ;

    /// The issuance watermark for an asset code.
    fn get_issuance_num(&self, code: &AssetTypeCode) -> (r: Option<u64>)
        requires
            self.access_inv(),
        ensures
            r == spec_get_issuance_num(self.status_view(), *code),
    ;

    /// Retrieve the registered metadata of an asset code.
    fn get_asset_type(&self, code: &AssetTypeCode) -> (r: Option<AssetType>)
        requires
            self.access_inv(),
        ensures
            r == spec_get_asset_type(self.status_view(), *code),
    ;
}

impl LedgerAccess for LedgerStatus {
    open spec fn status_view(&self) -> LedgerStatus {
        *self
    }

    open spec fn access_inv(&self) -> bool {
        self.wf()
    }

    fn get_utxo(&self, addr: TxoSID) -> (r: Option<Utxo>) {
        match self.utxos.get(addr.0 as u128) {
            Some(u) => Some(*u),
            None => None,
        }
    }

    fn get_issuance_num(&self, code: &AssetTypeCode) -> (r: Option<u64>) {
        match self.issuance_num.get(code.val) {
            Some(w) => Some(*w),
            None => None,
        }
    }

    fn get_asset_type(&self, code: &AssetTypeCode) -> (r: Option<AssetType>) {
        match self.asset_types.get(code.val) {
            Some(t) => Some(*t),
            None => None,
        }
    }
}

} // verus!
