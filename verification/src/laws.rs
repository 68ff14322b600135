use vstd::prelude::*;

use crate::effects::effect_model;
use crate::effects::nums_view;
use crate::effects::strictly_inc;
use crate::effects::TxnEffect;
use crate::status::add_utxos_map;
use crate::status::lemma_add_utxos_contains;
use crate::status::effect_applies;
use crate::status::inputs_valid;
use crate::status::lemma_add_utxos_dom;
use crate::status::status_applied;
use crate::status::watermark;
use crate::status::LedgerStatus;
use crate::types::Transaction;

verus! {

/// Compiling a transaction is deterministic: any two effects that agree
/// with the same transaction's model carry the same output slots, claimed
/// inputs, asset definitions and issuance numbers.
pub proof fn lemma_compute_effect_deterministic(txn: Transaction, e1: TxnEffect, e2: TxnEffect)
    requires
        effect_model(txn) is Ok,
        e1.matches_model(effect_model(txn)->Ok_0),
        e2.matches_model(effect_model(txn)->Ok_0),
    ensures
        e1.txos@ == e2.txos@,
        e1.input_txos@ == e2.input_txos@,
        e1.new_asset_codes@ == e2.new_asset_codes@,
        nums_view(e1.new_issuance_nums) == nums_view(e2.new_issuance_nums),
{
}

/// Applying an effect consumes its claimed inputs: any later effect that
/// claims one of the same committed outputs no longer passes validation,
/// so a double spend is rejected.
pub proof fn lemma_double_spend_prevented(
    pre: LedgerStatus,
    eff1: TxnEffect,
    post: LedgerStatus,
    eff2: TxnEffect,
    k: u128,
)
    requires
        pre.wf(),
        effect_applies(pre, eff1),
        status_applied(pre, eff1, post),
        eff1.input_txos@.contains_key(k),
        eff2.input_txos@.contains_key(k),
    ensures
        !inputs_valid(post, eff2),
        !effect_applies(post, eff2),
{
    assert(inputs_valid(pre, eff1));
    assert(pre.utxos@.contains_key(k));
    assert(k < pre.next_txo.0 as u128);
    let removed = pre.utxos@.remove_keys(eff1.input_txos@.dom());
    assert(!removed.contains_key(k));
    lemma_add_utxos_dom(removed, eff1.txos@, pre.next_txo.0);
    assert(!post.utxos@.contains_key(k));
}

/// Issuance sequence numbers strictly increase across an asset's lifetime:
/// if one applied effect issues under code `c` and a later effect issuing
/// under `c` (without redefining it) passes validation, every number the
/// later effect uses lies strictly above every number the earlier one used.
pub proof fn lemma_issuance_strictly_increases(
    pre: LedgerStatus,
    eff1: TxnEffect,
    mid: LedgerStatus,
    eff2: TxnEffect,
    c: u128,
)
    requires
        eff1.wf(),
        eff2.wf(),
        status_applied(pre, eff1, mid),
        nums_view(eff1.new_issuance_nums).contains_key(c),
        nums_view(eff1.new_issuance_nums)[c].len() > 0,
        nums_view(eff2.new_issuance_nums).contains_key(c),
        nums_view(eff2.new_issuance_nums)[c].len() > 0,
        !eff2.new_asset_codes@.contains_key(c),
        effect_applies(mid, eff2),
    ensures
        nums_view(eff2.new_issuance_nums)[c].first() > nums_view(eff1.new_issuance_nums)[c].last(),
        strictly_inc(nums_view(eff1.new_issuance_nums)[c]),
        strictly_inc(nums_view(eff2.new_issuance_nums)[c]),
        forall|i: int, j: int|
            0 <= i < nums_view(eff1.new_issuance_nums)[c].len() && 0 <= j < nums_view(
                eff2.new_issuance_nums,
            )[c].len() ==> nums_view(eff1.new_issuance_nums)[c][i] < nums_view(
                eff2.new_issuance_nums,
            )[c][j],
{
    let sn1 = nums_view(eff1.new_issuance_nums)[c];
    let sn2 = nums_view(eff2.new_issuance_nums)[c];
    assert(mid.issuance_num@ == pre.issuance_num@.union_prefer_right(
        nums_view(eff1.new_issuance_nums).map_values(|sn: Seq<u64>| watermark(sn)),
    ));
    assert(mid.issuance_num@.contains_key(c));
    assert(mid.issuance_num@[c] == watermark(sn1));
    assert(sn2.first() >= mid.issuance_num@[c]);
    assert(sn2.first() > sn1.last());
    assert forall|i: int, j: int| 0 <= i < sn1.len() && 0 <= j < sn2.len() implies sn1[i]
        < sn2[j] by {
        assert(strictly_inc(sn1) && strictly_inc(sn2));
        assert(sn1[i] <= sn1.last() || i == sn1.len() - 1);
        assert(sn2.first() <= sn2[j] || j == 0);
    }
}

/// The total slot count of a list of effects.
pub open spec fn total_slots(effs: Seq<TxnEffect>) -> int
    decreases effs.len(),
{
    if effs.len() == 0 {
        0
    } else {
        total_slots(effs.drop_last()) + effs.last().txos@.len()
    }
}

/// After applying a chain of effects, the output counter equals its
/// starting value plus the total count of output slots the effects ever
/// created — slots consumed inside their own transaction included.
pub proof fn lemma_next_txo_counts_slots(states: Seq<LedgerStatus>, effs: Seq<TxnEffect>)
    requires
        states.len() == effs.len() + 1,
        forall|i: int|
            0 <= i < effs.len() ==> status_applied(
                #[trigger] states[i],
                effs[i],
                states[i + 1],
            ),
    ensures
        states.last().next_txo.0 == states.first().next_txo.0 + total_slots(effs),
    decreases effs.len(),
{
    if effs.len() > 0 {
        let n = effs.len() as int;
        lemma_next_txo_counts_slots(states.drop_last(), effs.drop_last());
        assert(states.drop_last().last() == states[n - 1]);
        assert(status_applied(states[n - 1], effs[n - 1], states[n]));
    }
}

/// The transaction counter counts applications: after a chain of applied
/// effects it has advanced by exactly their number.
pub proof fn lemma_next_txn_counts_txns(states: Seq<LedgerStatus>, effs: Seq<TxnEffect>)
    requires
        states.len() == effs.len() + 1,
        forall|i: int|
            0 <= i < effs.len() ==> status_applied(
                #[trigger] states[i],
                effs[i],
                states[i + 1],
            ),
    ensures
        states.last().next_txn.0 == states.first().next_txn.0 + effs.len(),
    decreases effs.len(),
{
    if effs.len() > 0 {
        let n = effs.len() as int;
        lemma_next_txn_counts_txns(states.drop_last(), effs.drop_last());
        assert(states.drop_last().last() == states[n - 1]);
        assert(status_applied(states[n - 1], effs[n - 1], states[n]));
    }
}

/// The bitmap mirrors the unspent-output map: one bit per allocated slot,
/// set exactly when the slot is unspent.
pub open spec fn bitmap_tracks(st: LedgerStatus, bits: Seq<bool>) -> bool {
    &&& bits.len() == st.next_txo.0
    &&& forall|i: int| 0 <= i < bits.len() ==> bits[i] == st.utxos@.contains_key(i as u128)
}

/// Applying an effect keeps the bitmap mirroring the unspent outputs: the
/// slots the application marks — set for produced outputs, cleared for
/// consumed inputs — are exactly the liveness changes the state records.
pub proof fn lemma_bitmap_tracks_liveness(
    pre: LedgerStatus,
    eff: TxnEffect,
    post: LedgerStatus,
    pre_bits: Seq<bool>,
    post_bits: Seq<bool>,
)
    requires
        pre.wf(),
        effect_applies(pre, eff),
        status_applied(pre, eff, post),
        bitmap_tracks(pre, pre_bits),
        post_bits.len() == pre_bits.len() + eff.txos@.len(),
        forall|i: int|
            0 <= i < post_bits.len() ==> post_bits[i] == (if eff.input_txos@.contains_key(
                i as u128,
            ) {
                false
            } else if i < pre_bits.len() {
                pre_bits[i]
            } else {
                eff.txos@[i - pre_bits.len()] is Some
            }),
    ensures
        bitmap_tracks(post, post_bits),
{
    let base = pre.next_txo.0;
    let removed = pre.utxos@.remove_keys(eff.input_txos@.dom());
    assert(forall|k: u128| #[trigger] removed.contains_key(k) ==> k < base as u128);
    lemma_add_utxos_contains(removed, eff.txos@, base);
    assert forall|i: int| 0 <= i < post_bits.len() implies post_bits[i] == post.utxos@.contains_key(
        i as u128,
    ) by {
        let k = i as u128;
        assert(post.utxos@ == add_utxos_map(removed, eff.txos@, base));
        if eff.input_txos@.contains_key(k) {
            assert(!removed.contains_key(k));
            assert(pre.utxos@.contains_key(k));
            assert(k < base as u128);
            assert(!post.utxos@.contains_key(k));
        } else if i < pre_bits.len() {
            assert(k < base as u128);
            assert(removed.contains_key(k) <==> pre.utxos@.contains_key(k));
            assert(post.utxos@.contains_key(k) <==> removed.contains_key(k));
        } else {
            assert(base as u128 <= k < base as u128 + eff.txos@.len());
            assert(!removed.contains_key(k));
            assert(post.utxos@.contains_key(k) <==> eff.txos@[i - pre_bits.len()] is Some);
        }
    }
}

} // verus!
