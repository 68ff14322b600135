use vstd::prelude::*;

use crate::crypto::sig_verify_ok;
use crate::errors::PlatformError;
use crate::types::AssetType;
use crate::types::DefineAsset;
use crate::types::IssueAsset;
use crate::types::IssueAssetBody;
use crate::types::Operation;
use crate::types::Transaction;
use crate::types::TransferAsset;
use crate::types::TransferNote;
use crate::types::TxOutput;
use crate::types::TxoRef;
use crate::types::AssetRecord;
use crate::umap::UMap;
use crate::wire::define_body_bytes;
use crate::wire::define_body_enc;
use crate::wire::issue_body_bytes;
use crate::wire::issue_body_enc;
use crate::wire::transfer_body_bytes;
use crate::wire::transfer_body_enc;

verus! {

/// The ledger-facing summary of one transaction, produced by a full
/// intrinsic validation: the output slots it creates (`None` where a slot
/// was consumed inside the same transaction), the committed outputs it
/// claims, the asset types it defines, and the issuance sequence numbers it
/// uses per asset code, in increasing order.
#[derive(Clone, Debug, PartialEq, Eq)]
pub struct TxnEffect {
    pub txn: Transaction,
    pub txos: Vec<Option<TxOutput>>,
    pub input_txos: UMap<AssetRecord>,
    pub new_asset_codes: UMap<AssetType>,
    pub new_issuance_nums: UMap<Vec<u64>>,
}

/// The mathematical image of the compiler's running state.
pub struct EffectState {
    pub txos: Seq<Option<TxOutput>>,
    pub input_txos: Map<u128, AssetRecord>,
    pub new_asset_codes: Map<u128, AssetType>,
    pub new_issuance_nums: Map<u128, Seq<u64>>,
}

/// The issuance-number map of a `UMap` of vectors, as a map of sequences.
pub open spec fn nums_view(m: UMap<Vec<u64>>) -> Map<u128, Seq<u64>> {
    m@.map_values(|v: Vec<u64>| v@)
}

/// The state the compiler starts from.
pub open spec fn empty_effect_state() -> EffectState {
    EffectState {
        txos: Seq::empty(),
        input_txos: Map::empty(),
        new_asset_codes: Map::empty(),
        new_issuance_nums: Map::empty(),
    }
}

/// What one asset definition does to the running state, or why it is
/// rejected: the issuer's signature must verify over the body bytes, and the
/// code must not have been defined or issued earlier in this transaction.
pub open spec fn define_step(s: EffectState, d: DefineAsset) -> Result<
    EffectState,
    PlatformError,
> {
    let code = d.body.asset.code.val;
    if !sig_verify_ok(d.pubkey.key.bytes(), define_body_enc(d.body), d.signature.bytes()) {
        Err(PlatformError::SignatureError)
    } else if s.new_asset_codes.contains_key(code) || s.new_issuance_nums.contains_key(code) {
        Err(PlatformError::InputsError)
    } else {
        Ok(
            EffectState {
                new_asset_codes: s.new_asset_codes.insert(
                    code,
                    AssetType { properties: d.body.asset, units: 0 },
                ),
                new_issuance_nums: s.new_issuance_nums.insert(code, Seq::empty()),
                ..s
            },
        )
    }
}

/// What one asset issuance does to the running state, or why it is
/// rejected: the declared output count must match the records, sequence
/// numbers must strictly increase per code within the transaction and leave
/// room for a next number, and the issuer's signature must verify.
pub open spec fn issue_step(s: EffectState, iss: IssueAsset) -> Result<
    EffectState,
    PlatformError,
> {
    let code = iss.body.code.val;
    let prior = if s.new_issuance_nums.contains_key(code) {
        s.new_issuance_nums[code]
    } else {
        Seq::<u64>::empty()
    };
    if iss.body.num_outputs != iss.body.records@.len() {
        Err(PlatformError::InputsError)
    } else if prior.len() > 0 && iss.body.seq_num <= prior.last() {
        Err(PlatformError::InputsError)
    } else if iss.body.seq_num == u64::MAX {
        Err(PlatformError::InputsError)
    } else if !sig_verify_ok(
        iss.pubkey.key.bytes(),
        issue_body_enc(iss.body),
        iss.signature.bytes(),
    ) {
        Err(PlatformError::SignatureError)
    } else {
        Ok(
            EffectState {
                txos: s.txos + iss.body.records@.map_values(|o: TxOutput| Some(o)),
                new_issuance_nums: s.new_issuance_nums.insert(code, prior.push(iss.body.seq_num)),
                ..s
            },
        )
    }
}

/// The sum of the amounts in `rs` that carry asset code `code`.
pub open spec fn sum_for(rs: Seq<AssetRecord>, code: u128) -> int
    decreases rs.len(),
{
    if rs.len() == 0 {
        0
    } else {
        sum_for(rs.drop_last(), code) + if rs.last().code.val == code {
            rs.last().amount as int
        } else {
            0int
        }
    }
}

/// A transfer note is acceptable when every asset type balances between the
/// consumed and the produced records.
pub open spec fn note_balanced(n: TransferNote) -> bool {
    forall|c: u128| #![trigger sum_for(n.inputs@, c)] sum_for(n.inputs@, c) == sum_for(
        n.outputs@,
        c,
    )
}

/// Every attached signature verifies over the transfer body bytes.
pub open spec fn all_sigs_ok(t: TransferAsset) -> bool {
    forall|i: int|
        0 <= i < t.body_signatures@.len() ==> sig_verify_ok(
            (#[trigger] t.body_signatures@[i]).address.bytes(),
            transfer_body_enc(t.body),
            t.body_signatures@[i].signature.bytes(),
        )
}

/// What consuming one input reference does to the output slots and the
/// claimed-input map, or why it is rejected.
pub open spec fn xfer_one_input(
    txos: Seq<Option<TxOutput>>,
    inmap: Map<u128, AssetRecord>,
    r: TxoRef,
    rec: AssetRecord,
) -> Result<(Seq<Option<TxOutput>>, Map<u128, AssetRecord>), PlatformError> {
    match r {
        TxoRef::Relative(offs) => {
            if offs >= txos.len() {
                Err(PlatformError::InputsError)
            } else {
                let ix = txos.len() - 1 - offs;
                match txos[ix as int] {
                    None => Err(PlatformError::InputsError),
                    Some(out) => if out.0 != rec {
                        Err(PlatformError::InputsError)
                    } else {
                        Ok((txos.update(ix as int, None), inmap))
                    },
                }
            }
        },
        TxoRef::Absolute(sid) => {
            if inmap.contains_key(sid.0 as u128) {
                Err(PlatformError::InputsError)
            } else {
                Ok((txos, inmap.insert(sid.0 as u128, rec)))
            }
        },
    }
}

/// Fold `xfer_one_input` over the reference/record pairs of a transfer.
pub open spec fn xfer_inputs(
    txos: Seq<Option<TxOutput>>,
    inmap: Map<u128, AssetRecord>,
    refs: Seq<TxoRef>,
    recs: Seq<AssetRecord>,
) -> Result<(Seq<Option<TxOutput>>, Map<u128, AssetRecord>), PlatformError>
    decreases refs.len(),
{
    if refs.len() == 0 {
        Ok((txos, inmap))
    } else {
        match xfer_one_input(txos, inmap, refs.first(), recs.first()) {
            Err(e) => Err(e),
            Ok(p) => xfer_inputs(p.0, p.1, refs.drop_first(), recs.drop_first()),
        }
    }
}

/// What one transfer does to the running state, or why it is rejected: the
/// declared counts must match the note, every attached signature must
/// verify, the note must balance, and every consumed reference must resolve.
pub open spec fn transfer_step(s: EffectState, t: TransferAsset) -> Result<
    EffectState,
    PlatformError,
> {
    if t.body.inputs@.len() != t.body.transfer.inputs@.len() {
        Err(PlatformError::InputsError)
    } else if t.body.num_outputs != t.body.transfer.outputs@.len() {
        Err(PlatformError::InputsError)
    } else if !all_sigs_ok(t) {
        Err(PlatformError::SignatureError)
    } else if !note_balanced(t.body.transfer) {
        Err(PlatformError::ProofError)
    } else {
        match xfer_inputs(s.txos, s.input_txos, t.body.inputs@, t.body.transfer.inputs@) {
            Err(e) => Err(e),
            Ok(p) => Ok(
                EffectState {
                    txos: p.0 + t.body.transfer.outputs@.map_values(
                        |r: AssetRecord| Some(TxOutput(r)),
                    ),
                    input_txos: p.1,
                    ..s
                },
            ),
        }
    }
}

/// What one operation does to the running state.
pub open spec fn op_step(s: EffectState, op: Operation) -> Result<EffectState, PlatformError> {
    match op {
        Operation::DefineAsset(d) => define_step(s, d),
        Operation::IssueAsset(i) => issue_step(s, i),
        Operation::TransferAsset(t) => transfer_step(s, t),
    }
}

/// Run the compiler over `ops` from state `s`, stopping at the first
/// rejection.
pub open spec fn run_ops(s: EffectState, ops: Seq<Operation>) -> Result<
    EffectState,
    PlatformError,
>
    decreases ops.len(),
{
    if ops.len() == 0 {
        Ok(s)
    } else {
        match op_step(s, ops.first()) {
            Err(e) => Err(e),
            Ok(s2) => run_ops(s2, ops.drop_first()),
        }
    }
}

/// The effect a transaction compiles to, or the rejection it earns: a
/// function of the transaction alone.
pub open spec fn effect_model(txn: Transaction) -> Result<EffectState, PlatformError> {
    run_ops(empty_effect_state(), txn.operations@)
}

/// A sequence of issuance numbers is strictly increasing.
pub open spec fn strictly_inc(s: Seq<u64>) -> bool {
    forall|i: int, j: int| 0 <= i < j < s.len() ==> s[i] < s[j]
}

/// Every issuance-number list is strictly increasing and leaves room for a
/// next number.
pub open spec fn nums_ok(m: Map<u128, Seq<u64>>) -> bool {
    forall|k: u128| #[trigger]
        m.contains_key(k) ==> strictly_inc(m[k]) && (m[k].len() > 0 ==> m[k].last() < u64::MAX)
}

impl TxnEffect {
    /// The maps hold no duplicate keys and the issuance numbers are usable
    /// as a watermark update.
    pub open spec fn wf(self) -> bool {
        &&& self.input_txos.wf()
        &&& self.new_asset_codes.wf()
        &&& self.new_issuance_nums.wf()
        &&& nums_ok(nums_view(self.new_issuance_nums))
    }

    /// The fields of this effect agree with the model state `m`.
    pub open spec fn matches_model(self, m: EffectState) -> bool {
        &&& self.txos@ == m.txos
        &&& self.input_txos@ == m.input_txos
        &&& self.new_asset_codes@ == m.new_asset_codes
        &&& nums_view(self.new_issuance_nums) == m.new_issuance_nums
    }
}

proof fn lemma_sum_for_bound(rs: Seq<AssetRecord>, code: u128)
    ensures
        0 <= sum_for(rs, code) <= rs.len() * (u64::MAX as int),
    decreases rs.len(),
{
    if rs.len() > 0 {
        lemma_sum_for_bound(rs.drop_last(), code);
    }
}

proof fn lemma_sum_absent(rs: Seq<AssetRecord>, code: u128)
    requires
        forall|i: int| 0 <= i < rs.len() ==> rs[i].code.val != code,
    ensures
        sum_for(rs, code) == 0,
    decreases rs.len(),
{
    if rs.len() > 0 {
        lemma_sum_absent(rs.drop_last(), code);
    }
}

/// The total amount in `rs` carrying asset code `code`; a 128-bit
/// accumulator cannot overflow on any addressable list of 64-bit amounts.
#[verifier::loop_isolation(false)]
fn sum_amounts(rs: &Vec<AssetRecord>, code: u128) -> (s: u128)
    ensures
        s as int == sum_for(rs@, code),
{
    let mut acc: u128 = 0;
    let n = rs.len();
    for i in 0..n
        invariant
            acc as int == sum_for(rs@.take(i as int), code),
            acc as int <= i * (u64::MAX as int),
    {
        proof {
            assert(rs@.take(i as int + 1).drop_last() =~= rs@.take(i as int));
            lemma_sum_for_bound(rs@.take(i as int), code);
            assert(n as int * (u64::MAX as int) <= (u64::MAX as int) * (u64::MAX as int))
                by (nonlinear_arith)
                requires
                    n as int <= u64::MAX as int,
            ;
        }
        if rs[i].code.val == code {
            acc = acc + rs[i].amount as u128;
        }
    }
    proof {
        assert(rs@.take(n as int) =~= rs@);
    }
    acc
}

/// Decide whether every asset type balances between the two sides of the
/// note.
#[verifier::loop_isolation(false)]
fn check_balanced(note: &TransferNote) -> (r: bool)
    ensures
        r == note_balanced(*note),
{
    let n_in = note.inputs.len();
    for i in 0..n_in
        invariant
            forall|k: int|
                0 <= k < i ==> sum_for(note.inputs@, (#[trigger] note.inputs@[k]).code.val)
                    == sum_for(note.outputs@, note.inputs@[k].code.val),
    {
        let c = note.inputs[i].code.val;
        if sum_amounts(&note.inputs, c) != sum_amounts(&note.outputs, c) {
            return false;
        }
    }
    let n_out = note.outputs.len();
    for i in 0..n_out
        invariant
            forall|k: int|
                0 <= k < note.inputs@.len() ==> sum_for(
                    note.inputs@,
                    (#[trigger] note.inputs@[k]).code.val,
                ) == sum_for(note.outputs@, note.inputs@[k].code.val),
            forall|k: int|
                0 <= k < i ==> sum_for(note.inputs@, (#[trigger] note.outputs@[k]).code.val)
                    == sum_for(note.outputs@, note.outputs@[k].code.val),
    {
        let c = note.outputs[i].code.val;
        if sum_amounts(&note.inputs, c) != sum_amounts(&note.outputs, c) {
            return false;
        }
    }
    proof {
        assert forall|c: u128| #![trigger sum_for(note.inputs@, c)] sum_for(note.inputs@, c)
            == sum_for(note.outputs@, c) by {
            if exists|k: int| 0 <= k < note.inputs@.len() && (#[trigger] note.inputs@[k]).code.val
                == c {
                let k = choose|k: int|
                    0 <= k < note.inputs@.len() && (#[trigger] note.inputs@[k]).code.val == c;
                assert(sum_for(note.inputs@, note.inputs@[k].code.val) == sum_for(
                    note.outputs@,
                    note.inputs@[k].code.val,
                ));
            } else if exists|k: int|
                0 <= k < note.outputs@.len() && (#[trigger] note.outputs@[k]).code.val == c {
                let k = choose|k: int|
                    0 <= k < note.outputs@.len() && (#[trigger] note.outputs@[k]).code.val == c;
                assert(sum_for(note.inputs@, note.outputs@[k].code.val) == sum_for(
                    note.outputs@,
                    note.outputs@[k].code.val,
                ));
            } else {
                lemma_sum_absent(note.inputs@, c);
                lemma_sum_absent(note.outputs@, c);
            }
        }
    }
    true
}

/// A plain copy of a list of issuance numbers.
fn copy_nums(v: &Vec<u64>) -> (r: Vec<u64>)
    ensures
        r@ == v@,
{
    let mut r: Vec<u64> = Vec::new();
    let n = v.len();
    for i in 0..n
        invariant
            n == v@.len(),
            r@ == v@.take(i as int),
    {
        r.push(v[i]);
        proof {
            assert(v@.take(i as int + 1) =~= v@.take(i as int).push(v@[i as int]));
        }
    }
    proof {
        assert(v@.take(n as int) =~= v@);
    }
    r
}

/// Validate one asset definition and record it.
fn do_define(
    new_asset_codes: &mut UMap<AssetType>,
    new_issuance_nums: &mut UMap<Vec<u64>>,
    def: &DefineAsset,
    Ghost(txos): Ghost<Seq<Option<TxOutput>>>,
    Ghost(inmap): Ghost<Map<u128, AssetRecord>>,
) -> (r: Result<(), PlatformError>)
    requires
        old(new_asset_codes).wf(),
        old(new_issuance_nums).wf(),
    ensures
        final(new_asset_codes).wf(),
        final(new_issuance_nums).wf(),
        ({
            let s0 = (EffectState {
                txos,
                input_txos: inmap,
                new_asset_codes: old(new_asset_codes)@,
                new_issuance_nums: nums_view(*old(new_issuance_nums)),
            });
            let s1 = (EffectState {
                txos,
                input_txos: inmap,
                new_asset_codes: final(new_asset_codes)@,
                new_issuance_nums: nums_view(*final(new_issuance_nums)),
            });
            match r {
                Ok(_) => define_step(s0, *def) == Ok::<EffectState, PlatformError>(s1),
                Err(e) => define_step(s0, *def) == Err::<EffectState, PlatformError>(e),
            }
        }),
{
    let body_bytes = define_body_bytes(&def.body);
    if !crate::crypto::verify_signature(&def.pubkey.key, &body_bytes, &def.signature) {
        return Err(PlatformError::SignatureError);
    }
    let code = def.body.asset.code;
    if new_asset_codes.contains_key(code.val) || new_issuance_nums.contains_key(code.val) {
        return Err(PlatformError::InputsError);
    }
    new_asset_codes.insert(code.val, AssetType { properties: def.body.asset, units: 0 });
    new_issuance_nums.insert(code.val, Vec::new());
    proof {
        assert(nums_view(*new_issuance_nums) =~= nums_view(*old(new_issuance_nums)).insert(
            code.val,
            Seq::<u64>::empty(),
        ));
    }
    Ok(())
}

/// Validate one asset issuance, record its sequence number, and append its
/// records as new output slots.
#[verifier::loop_isolation(false)]
#[verifier::rlimit(100)]
fn do_issue(
    txos: &mut Vec<Option<TxOutput>>,
    new_issuance_nums: &mut UMap<Vec<u64>>,
    iss: &IssueAsset,
    Ghost(inmap): Ghost<Map<u128, AssetRecord>>,
    Ghost(codes): Ghost<Map<u128, AssetType>>,
) -> (r: Result<(), PlatformError>)
    requires
        old(new_issuance_nums).wf(),
    ensures
        final(new_issuance_nums).wf(),
        ({
            let s0 = (EffectState {
                txos: old(txos)@,
                input_txos: inmap,
                new_asset_codes: codes,
                new_issuance_nums: nums_view(*old(new_issuance_nums)),
            });
            let s1 = (EffectState {
                txos: final(txos)@,
                input_txos: inmap,
                new_asset_codes: codes,
                new_issuance_nums: nums_view(*final(new_issuance_nums)),
            });
            match r {
                Ok(_) => issue_step(s0, *iss) == Ok::<EffectState, PlatformError>(s1),
                Err(e) => issue_step(s0, *iss) == Err::<EffectState, PlatformError>(e),
            }
        }),
{
    if iss.body.num_outputs != iss.body.records.len() {
        return Err(PlatformError::InputsError);
    }
    let code = iss.body.code;
    let seq_num = iss.body.seq_num;
    let mut nums2: Vec<u64> = match new_issuance_nums.get(code.val) {
        Some(v) => copy_nums(v),
        None => Vec::new(),
    };
    proof {
        assert(nums2@ == ({
            let m = nums_view(*old(new_issuance_nums));
            if m.contains_key(code.val) {
                m[code.val]
            } else {
                Seq::<u64>::empty()
            }
        }));
    }
    if nums2.len() > 0 && seq_num <= nums2[nums2.len() - 1] {
        return Err(PlatformError::InputsError);
    }
    if seq_num == u64::MAX {
        return Err(PlatformError::InputsError);
    }
    let body_bytes = issue_body_bytes(&iss.body);
    if !crate::crypto::verify_signature(&iss.pubkey.key, &body_bytes, &iss.signature) {
        return Err(PlatformError::SignatureError);
    }
    nums2.push(seq_num);
    new_issuance_nums.insert(code.val, nums2);
    proof {
        assert(nums_view(*new_issuance_nums) =~= nums_view(*old(new_issuance_nums)).insert(
            code.val,
            ({
                let m = nums_view(*old(new_issuance_nums));
                if m.contains_key(code.val) {
                    m[code.val]
                } else {
                    Seq::<u64>::empty()
                }
            }).push(seq_num),
        ));
    }
    let ghost txos_mid = txos@;
    let m = iss.body.records.len();
    for j in 0..m
        invariant
            txos@ == txos_mid + iss.body.records@.take(j as int).map_values(
                |o: TxOutput| Some(o),
            ),
    {
        txos.push(Some(iss.body.records[j]));
        proof {
            assert(txos@ =~= txos_mid + iss.body.records@.take(j as int + 1).map_values(
                |o: TxOutput| Some(o),
            ));
        }
    }
    proof {
        assert(iss.body.records@.take(m as int) =~= iss.body.records@);
    }
    Ok(())
}

/// Validate one transfer: counts, signatures and balance, then consume each
/// referenced input and append the produced records as new output slots.
#[verifier::loop_isolation(false)]
#[verifier::rlimit(100)]
fn do_transfer(
    txos: &mut Vec<Option<TxOutput>>,
    input_txos: &mut UMap<AssetRecord>,
    trn: &TransferAsset,
    Ghost(codes): Ghost<Map<u128, AssetType>>,
    Ghost(nums): Ghost<Map<u128, Seq<u64>>>,
) -> (r: Result<(), PlatformError>)
    requires
        old(input_txos).wf(),
    ensures
        final(input_txos).wf(),
        ({
            let s0 = (EffectState {
                txos: old(txos)@,
                input_txos: old(input_txos)@,
                new_asset_codes: codes,
                new_issuance_nums: nums,
            });
            let s1 = (EffectState {
                txos: final(txos)@,
                input_txos: final(input_txos)@,
                new_asset_codes: codes,
                new_issuance_nums: nums,
            });
            match r {
                Ok(_) => transfer_step(s0, *trn) == Ok::<EffectState, PlatformError>(s1),
                Err(e) => transfer_step(s0, *trn) == Err::<EffectState, PlatformError>(e),
            }
        }),
{
    if trn.body.inputs.len() != trn.body.transfer.inputs.len() {
        return Err(PlatformError::InputsError);
    }
    if trn.body.num_outputs != trn.body.transfer.outputs.len() {
        return Err(PlatformError::InputsError);
    }
    let body_bytes = transfer_body_bytes(&trn.body);
    let ns = trn.body_signatures.len();
    for si in 0..ns
        invariant
            forall|k: int|
                0 <= k < si ==> sig_verify_ok(
                    (#[trigger] trn.body_signatures@[k]).address.bytes(),
                    transfer_body_enc(trn.body),
                    trn.body_signatures@[k].signature.bytes(),
                ),
    {
        let sa = &trn.body_signatures[si];
        if !crate::crypto::verify_signature(&sa.address, &body_bytes, &sa.signature) {
            assert(!all_sigs_ok(*trn));
            return Err(PlatformError::SignatureError);
        }
    }
    assert(all_sigs_ok(*trn));
    if !check_balanced(&trn.body.transfer) {
        return Err(PlatformError::ProofError);
    }
    let ghost txos0 = txos@;
    let ghost in0 = input_txos@;
    proof {
        assert(trn.body.inputs@.skip(0) =~= trn.body.inputs@);
        assert(trn.body.transfer.inputs@.skip(0) =~= trn.body.transfer.inputs@);
    }
    let nin = trn.body.inputs.len();
    for j in 0..nin
        invariant
            input_txos.wf(),
            xfer_inputs(txos0, in0, trn.body.inputs@, trn.body.transfer.inputs@) == xfer_inputs(
                txos@,
                input_txos@,
                trn.body.inputs@.skip(j as int),
                trn.body.transfer.inputs@.skip(j as int),
            ),
    {
        proof {
            assert(trn.body.inputs@.skip(j as int).first() == trn.body.inputs@[j as int]);
            assert(trn.body.inputs@.skip(j as int).drop_first() =~= trn.body.inputs@.skip(
                j as int + 1,
            ));
            assert(trn.body.transfer.inputs@.skip(j as int).first()
                == trn.body.transfer.inputs@[j as int]);
            assert(trn.body.transfer.inputs@.skip(j as int).drop_first()
                =~= trn.body.transfer.inputs@.skip(j as int + 1));
        }
        let rec = trn.body.transfer.inputs[j];
        match trn.body.inputs[j] {
            TxoRef::Relative(offs) => {
                if offs >= txos.len() as u64 {
                    return Err(PlatformError::InputsError);
                }
                let ix = txos.len() - 1 - (offs as usize);
                match txos[ix] {
                    None => {
                        return Err(PlatformError::InputsError);
                    },
                    Some(out) => {
                        if out.0 != rec {
                            return Err(PlatformError::InputsError);
                        }
                    },
                }
                txos[ix] = None;
            },
            TxoRef::Absolute(sid) => {
                if input_txos.contains_key(sid.0 as u128) {
                    return Err(PlatformError::InputsError);
                }
                input_txos.insert(sid.0 as u128, rec);
            },
        }
    }
    proof {
        assert(trn.body.inputs@.skip(nin as int) =~= Seq::<TxoRef>::empty());
        assert(trn.body.transfer.inputs@.skip(nin as int) =~= Seq::<AssetRecord>::empty());
    }
    let ghost txos_mid = txos@;
    let nout = trn.body.transfer.outputs.len();
    for j in 0..nout
        invariant
            txos@ == txos_mid + trn.body.transfer.outputs@.take(j as int).map_values(
                |r: AssetRecord| Some(TxOutput(r)),
            ),
    {
        txos.push(Some(TxOutput(trn.body.transfer.outputs[j])));
        proof {
            assert(txos@ =~= txos_mid + trn.body.transfer.outputs@.take(j as int + 1).map_values(
                |r: AssetRecord| Some(TxOutput(r)),
            ));
        }
    }
    proof {
        assert(trn.body.transfer.outputs@.take(nout as int) =~= trn.body.transfer.outputs@);
    }
    Ok(())
}

impl TxnEffect {
    /// Compile `txn` into its validated effect, or reject it. The result —
    /// effect or rejection — is a function of the transaction alone, so two
    /// runs on equal transactions agree. On rejection the transaction is
    /// dropped; callers that need it must clone it first.
    #[verifier::loop_isolation(false)]
    pub fn compute_effect(txn: Transaction) -> (r: Result<TxnEffect, PlatformError>)
        ensures
            match r {
                Ok(eff) => {
                    &&& effect_model(txn) is Ok
                    &&& eff.txn == txn
                    &&& eff.wf()
                    &&& eff.matches_model(effect_model(txn)->Ok_0)
                },
                Err(e) => effect_model(txn) == Err::<EffectState, PlatformError>(e),
            },
    {
        let mut txos: Vec<Option<TxOutput>> = Vec::new();
        let mut input_txos: UMap<AssetRecord> = UMap::new();
        let mut new_asset_codes: UMap<AssetType> = UMap::new();
        let mut new_issuance_nums: UMap<Vec<u64>> = UMap::new();
        proof {
            assert(nums_view(new_issuance_nums) =~= Map::<u128, Seq<u64>>::empty());
            assert(txn.operations@.skip(0) =~= txn.operations@);
        }
        let n = txn.operations.len();
        for opi in 0..n
            invariant
                input_txos.wf(),
                new_asset_codes.wf(),
                new_issuance_nums.wf(),
                effect_model(txn) == run_ops(
                    (EffectState {
                        txos: txos@,
                        input_txos: input_txos@,
                        new_asset_codes: new_asset_codes@,
                        new_issuance_nums: nums_view(new_issuance_nums),
                    }),
                    txn.operations@.skip(opi as int),
                ),
        {
            proof {
                assert(txn.operations@.skip(opi as int).first() == txn.operations@[opi as int]);
                assert(txn.operations@.skip(opi as int).drop_first() =~= txn.operations@.skip(
                    opi as int + 1,
                ));
            }
            let step: Result<(), PlatformError> = match &txn.operations[opi] {
                Operation::DefineAsset(def) => do_define(
                    &mut new_asset_codes,
                    &mut new_issuance_nums,
                    def,
                    Ghost(txos@),
                    Ghost(input_txos@),
                ),
                Operation::IssueAsset(iss) => do_issue(
                    &mut txos,
                    &mut new_issuance_nums,
                    iss,
                    Ghost(input_txos@),
                    Ghost(new_asset_codes@),
                ),
                Operation::TransferAsset(trn) => do_transfer(
                    &mut txos,
                    &mut input_txos,
                    trn,
                    Ghost(new_asset_codes@),
                    Ghost(nums_view(new_issuance_nums)),
                ),
            };
            if let Err(e) = step {
                return Err(e);
            }
        }
        proof {
            assert(txn.operations@.skip(n as int) =~= Seq::<Operation>::empty());
            lemma_run_ops_nums_ok(empty_effect_state(), txn.operations@);
        }
        Ok(TxnEffect { txn, txos, input_txos, new_asset_codes, new_issuance_nums })
    }
}

/// Two operations carry the same data, compared through the views of their
/// list-valued fields.
pub open spec fn op_same(a: Operation, b: Operation) -> bool {
    match (a, b) {
        (Operation::DefineAsset(x), Operation::DefineAsset(y)) => x == y,
        (Operation::IssueAsset(x), Operation::IssueAsset(y)) => {
            &&& x.body.code == y.body.code
            &&& x.body.seq_num == y.body.seq_num
            &&& x.body.num_outputs == y.body.num_outputs
            &&& x.body.records@ == y.body.records@
            &&& x.pubkey == y.pubkey
            &&& x.signature == y.signature
        },
        (Operation::TransferAsset(x), Operation::TransferAsset(y)) => {
            &&& x.body.inputs@ == y.body.inputs@
            &&& x.body.num_outputs == y.body.num_outputs
            &&& x.body.transfer.inputs@ == y.body.transfer.inputs@
            &&& x.body.transfer.outputs@ == y.body.transfer.outputs@
            &&& x.body_signatures@ == y.body_signatures@
        },
        _ => false,
    }
}

/// Two transactions carry the same operations.
pub open spec fn txn_same(a: Transaction, b: Transaction) -> bool {
    &&& a.operations@.len() == b.operations@.len()
    &&& forall|i: int|
        0 <= i < a.operations@.len() ==> op_same(#[trigger] a.operations@[i], b.operations@[i])
}

proof fn lemma_op_step_same(s: EffectState, a: Operation, b: Operation)
    requires
        op_same(a, b),
    ensures
        op_step(s, a) == op_step(s, b),
{
    match (a, b) {
        (Operation::DefineAsset(x), Operation::DefineAsset(y)) => {
        },
        (Operation::IssueAsset(x), Operation::IssueAsset(y)) => {
            assert(crate::wire::outputs_enc(x.body.records@) == crate::wire::outputs_enc(
                y.body.records@,
            ));
            assert(issue_body_enc(x.body) == issue_body_enc(y.body));
            assert(x.body.records@.map_values(|o: TxOutput| Some(o)) == y.body.records@.map_values(
                |o: TxOutput| Some(o),
            ));
        },
        (Operation::TransferAsset(x), Operation::TransferAsset(y)) => {
            assert(crate::wire::note_enc(x.body.transfer) == crate::wire::note_enc(
                y.body.transfer,
            ));
            assert(transfer_body_enc(x.body) == transfer_body_enc(y.body));
            assert(all_sigs_ok(x) == all_sigs_ok(y)) by {
                if all_sigs_ok(x) {
                    assert forall|i: int| 0 <= i < y.body_signatures@.len() implies sig_verify_ok(
                        (#[trigger] y.body_signatures@[i]).address.bytes(),
                        transfer_body_enc(y.body),
                        y.body_signatures@[i].signature.bytes(),
                    ) by {
                        assert(y.body_signatures@[i] == x.body_signatures@[i]);
                    }
                }
                if all_sigs_ok(y) {
                    assert forall|i: int| 0 <= i < x.body_signatures@.len() implies sig_verify_ok(
                        (#[trigger] x.body_signatures@[i]).address.bytes(),
                        transfer_body_enc(x.body),
                        x.body_signatures@[i].signature.bytes(),
                    ) by {
                        assert(x.body_signatures@[i] == y.body_signatures@[i]);
                    }
                }
            }
            assert(note_balanced(x.body.transfer) == note_balanced(y.body.transfer)) by {
                assert(x.body.transfer.inputs@ == y.body.transfer.inputs@);
                assert(x.body.transfer.outputs@ == y.body.transfer.outputs@);
                if note_balanced(x.body.transfer) {
                    assert forall|c: u128| #![trigger sum_for(y.body.transfer.inputs@, c)] sum_for(
                        y.body.transfer.inputs@,
                        c,
                    ) == sum_for(y.body.transfer.outputs@, c) by {
                        assert(sum_for(x.body.transfer.inputs@, c) == sum_for(
                            x.body.transfer.outputs@,
                            c,
                        ));
                    }
                }
                if note_balanced(y.body.transfer) {
                    assert forall|c: u128| #![trigger sum_for(x.body.transfer.inputs@, c)] sum_for(
                        x.body.transfer.inputs@,
                        c,
                    ) == sum_for(x.body.transfer.outputs@, c) by {
                        assert(sum_for(y.body.transfer.inputs@, c) == sum_for(
                            y.body.transfer.outputs@,
                            c,
                        ));
                    }
                }
            }
        },
        _ => {
        },
    }
}

proof fn lemma_run_ops_same(s: EffectState, a: Seq<Operation>, b: Seq<Operation>)
    requires
        a.len() == b.len(),
        forall|i: int| 0 <= i < a.len() ==> op_same(#[trigger] a[i], b[i]),
    ensures
        run_ops(s, a) == run_ops(s, b),
    decreases a.len(),
{
    if a.len() > 0 {
        lemma_op_step_same(s, a.first(), b.first());
        match op_step(s, a.first()) {
            Ok(s2) => {
                assert forall|i: int| 0 <= i < a.drop_first().len() implies op_same(
                    #[trigger] a.drop_first()[i],
                    b.drop_first()[i],
                ) by {
                    assert(a.drop_first()[i] == a[i + 1]);
                    assert(b.drop_first()[i] == b[i + 1]);
                }
                lemma_run_ops_same(s2, a.drop_first(), b.drop_first());
            },
            Err(_) => {
            },
        }
    }
}

/// Two transactions with the same operations compile to the same effect or
/// the same rejection.
pub proof fn lemma_effect_model_same(a: Transaction, b: Transaction)
    requires
        txn_same(a, b),
    ensures
        effect_model(a) == effect_model(b),
{
    lemma_run_ops_same(empty_effect_state(), a.operations@, b.operations@);
}

/// A copy of one operation carrying the same data.
fn copy_operation(op: &Operation) -> (r: Operation)
    ensures
        op_same(*op, r),
{
    match op {
        Operation::DefineAsset(d) => Operation::DefineAsset(*d),
        Operation::IssueAsset(i) => Operation::IssueAsset(
            IssueAsset {
                body: IssueAssetBody {
                    code: i.body.code,
                    seq_num: i.body.seq_num,
                    num_outputs: i.body.num_outputs,
                    records: crate::builder::copy_outputs(&i.body.records),
                },
                pubkey: i.pubkey,
                signature: i.signature,
            },
        ),
        Operation::TransferAsset(t) => Operation::TransferAsset(crate::builder::copy_transfer(t)),
    }
}

/// A copy of a transaction carrying the same operations.
#[verifier::loop_isolation(false)]
fn copy_transaction(t: &Transaction) -> (r: Transaction)
    ensures
        txn_same(*t, r),
{
    let mut ops: Vec<Operation> = Vec::new();
    let n = t.operations.len();
    for i in 0..n
        invariant
            n == t.operations@.len(),
            ops@.len() == i,
            forall|j: int| 0 <= j < i ==> op_same(#[trigger] t.operations@[j], ops@[j]),
    {
        ops.push(copy_operation(&t.operations[i]));
    }
    Transaction { operations: ops }
}

/// Whether the two output-slot lists carry the same slots.
#[verifier::loop_isolation(false)]
fn eq_opt_outputs(a: &Vec<Option<TxOutput>>, b: &Vec<Option<TxOutput>>) -> (r: bool)
    ensures
        r == (a@ == b@),
{
    if a.len() != b.len() {
        return false;
    }
    let n = a.len();
    for i in 0..n
        invariant
            n == a@.len() == b@.len(),
            forall|j: int| 0 <= j < i ==> a@[j] == b@[j],
    {
        let same = match (&a[i], &b[i]) {
            (None, None) => true,
            (Some(x), Some(y)) => *x == *y,
            _ => false,
        };
        if !same {
            return false;
        }
    }
    proof {
        assert(a@ =~= b@);
    }
    true
}

/// Whether two issuance-number lists are equal.
#[verifier::loop_isolation(false)]
fn eq_nums_vec(a: &Vec<u64>, b: &Vec<u64>) -> (r: bool)
    ensures
        r == (a@ == b@),
{
    if a.len() != b.len() {
        return false;
    }
    let n = a.len();
    for i in 0..n
        invariant
            n == a@.len() == b@.len(),
            forall|j: int| 0 <= j < i ==> a@[j] == b@[j],
    {
        if a[i] != b[i] {
            return false;
        }
    }
    proof {
        assert(a@ =~= b@);
    }
    true
}

/// Whether two maps of claimed inputs agree.
#[verifier::loop_isolation(false)]
fn eq_umap_records(a: &UMap<AssetRecord>, b: &UMap<AssetRecord>) -> (r: bool)
    requires
        a.wf(),
        b.wf(),
    ensures
        r == (a@ == b@),
{
    let na = a.len();
    for i in 0..na
        invariant
            forall|j: int|
                0 <= j < i ==> b@.contains_key((#[trigger] a.entries@[j]).0) && b@[a.entries@[j].0]
                    == a.entries@[j].1,
    {
        let e = a.entry_at(i);
        match b.get(e.0) {
            None => {
                return false;
            },
            Some(v) => {
                if *v != e.1 {
                    return false;
                }
            },
        }
    }
    let nb = b.len();
    for i in 0..nb
        invariant
            forall|j: int|
                0 <= j < a.entries@.len() ==> b@.contains_key((#[trigger] a.entries@[j]).0)
                    && b@[a.entries@[j].0] == a.entries@[j].1,
            forall|j: int| 0 <= j < i ==> a@.contains_key((#[trigger] b.entries@[j]).0),
    {
        let e = b.entry_at(i);
        if !a.contains_key(e.0) {
            return false;
        }
    }
    proof {
        assert forall|k: u128| #[trigger] a@.contains_key(k) implies b@.contains_key(k) && b@[k]
            == a@[k] by {
            crate::umap::lemma_map_of_contains(a.entries@, k);
            let j = choose|j: int| 0 <= j < a.entries@.len() && a.entries@[j].0 == k;
            crate::umap::lemma_map_of_index(a.entries@, j);
        }
        assert forall|k: u128| #[trigger] b@.contains_key(k) implies a@.contains_key(k) by {
            crate::umap::lemma_map_of_contains(b.entries@, k);
            let j = choose|j: int| 0 <= j < b.entries@.len() && b.entries@[j].0 == k;
            crate::umap::lemma_map_of_index(b.entries@, j);
        }
        assert(a@ =~= b@);
    }
    true
}

/// Whether two maps of defined asset types agree.
#[verifier::loop_isolation(false)]
fn eq_umap_types(a: &UMap<AssetType>, b: &UMap<AssetType>) -> (r: bool)
    requires
        a.wf(),
        b.wf(),
    ensures
        r == (a@ == b@),
{
    let na = a.len();
    for i in 0..na
        invariant
            forall|j: int|
                0 <= j < i ==> b@.contains_key((#[trigger] a.entries@[j]).0) && b@[a.entries@[j].0]
                    == a.entries@[j].1,
    {
        let e = a.entry_at(i);
        match b.get(e.0) {
            None => {
                return false;
            },
            Some(v) => {
                if *v != e.1 {
                    return false;
                }
            },
        }
    }
    let nb = b.len();
    for i in 0..nb
        invariant
            forall|j: int|
                0 <= j < a.entries@.len() ==> b@.contains_key((#[trigger] a.entries@[j]).0)
                    && b@[a.entries@[j].0] == a.entries@[j].1,
            forall|j: int| 0 <= j < i ==> a@.contains_key((#[trigger] b.entries@[j]).0),
    {
        let e = b.entry_at(i);
        if !a.contains_key(e.0) {
            return false;
        }
    }
    proof {
        assert forall|k: u128| #[trigger] a@.contains_key(k) implies b@.contains_key(k) && b@[k]
            == a@[k] by {
            crate::umap::lemma_map_of_contains(a.entries@, k);
            let j = choose|j: int| 0 <= j < a.entries@.len() && a.entries@[j].0 == k;
            crate::umap::lemma_map_of_index(a.entries@, j);
        }
        assert forall|k: u128| #[trigger] b@.contains_key(k) implies a@.contains_key(k) by {
            crate::umap::lemma_map_of_contains(b.entries@, k);
            let j = choose|j: int| 0 <= j < b.entries@.len() && b.entries@[j].0 == k;
            crate::umap::lemma_map_of_index(b.entries@, j);
        }
        assert(a@ =~= b@);
    }
    true
}

/// Whether two maps of issuance-number lists agree, compared through the
/// views of the lists.
#[verifier::loop_isolation(false)]
fn eq_umap_nums(a: &UMap<Vec<u64>>, b: &UMap<Vec<u64>>) -> (r: bool)
    requires
        a.wf(),
        b.wf(),
    ensures
        r == (nums_view(*a) == nums_view(*b)),
{
    let na = a.len();
    for i in 0..na
        invariant
            forall|j: int|
                0 <= j < i ==> b@.contains_key((#[trigger] a.entries@[j]).0) && b@[a.entries@[j].0]@
                    == a.entries@[j].1@,
    {
        let e = a.entry_at(i);
        match b.get(e.0) {
            None => {
                proof {
                    assert(nums_view(*a).contains_key(e.0));
                    assert(!nums_view(*b).contains_key(e.0));
                }
                return false;
            },
            Some(v) => {
                if !eq_nums_vec(v, &e.1) {
                    proof {
                        assert(nums_view(*a)[e.0] == e.1@);
                        assert(nums_view(*b)[e.0] == v@);
                    }
                    return false;
                }
            },
        }
    }
    let nb = b.len();
    for i in 0..nb
        invariant
            forall|j: int|
                0 <= j < a.entries@.len() ==> b@.contains_key((#[trigger] a.entries@[j]).0)
                    && b@[a.entries@[j].0]@ == a.entries@[j].1@,
            forall|j: int| 0 <= j < i ==> a@.contains_key((#[trigger] b.entries@[j]).0),
    {
        let e = b.entry_at(i);
        if !a.contains_key(e.0) {
            proof {
                assert(nums_view(*b).contains_key(e.0));
                assert(!nums_view(*a).contains_key(e.0));
            }
            return false;
        }
    }
    proof {
        assert forall|k: u128| #[trigger]
            nums_view(*a).contains_key(k) implies nums_view(*b).contains_key(k) && nums_view(*b)[k]
            == nums_view(*a)[k] by {
            crate::umap::lemma_map_of_contains(a.entries@, k);
            let j = choose|j: int| 0 <= j < a.entries@.len() && a.entries@[j].0 == k;
            crate::umap::lemma_map_of_index(a.entries@, j);
        }
        assert forall|k: u128| #[trigger]
            nums_view(*b).contains_key(k) implies nums_view(*a).contains_key(k) by {
            crate::umap::lemma_map_of_contains(b.entries@, k);
            let j = choose|j: int| 0 <= j < b.entries@.len() && b.entries@[j].0 == k;
            crate::umap::lemma_map_of_index(b.entries@, j);
        }
        assert(nums_view(*a) =~= nums_view(*b));
    }
    true
}

/// Input position `j` of the transfer at position `o` consumes the
/// committed output `k`.
pub open spec fn claim_pos(ops: Seq<Operation>, o: int, j: int, k: u128) -> bool {
    &&& 0 <= o < ops.len()
    &&& ops[o] is TransferAsset
    &&& 0 <= j < ops[o]->TransferAsset_0.body.inputs@.len()
    &&& ops[o]->TransferAsset_0.body.inputs@[j] is Absolute
    &&& ops[o]->TransferAsset_0.body.inputs@[j]->Absolute_0.0 as u128 == k
}

/// Within one transfer: every input position that consumes `k` carries
/// exactly the record `rec`, and no relative input carries `rec`.
pub open spec fn transfer_claims_match(t: TransferAsset, k: u128, rec: AssetRecord) -> bool {
    forall|j: int|
        0 <= j < t.body.inputs@.len() ==> {
            &&& ((#[trigger] t.body.inputs@[j]) is Absolute && t.body.inputs@[j]->Absolute_0.0
                as u128 == k ==> j < t.body.transfer.inputs@.len() && t.body.transfer.inputs@[j]
                == rec)
            &&& (t.body.inputs@[j] is Relative ==> (j < t.body.transfer.inputs@.len()
                ==> t.body.transfer.inputs@[j] != rec))
        }
}

/// Every transfer of the list respects `transfer_claims_match` for the
/// claimed pair.
pub open spec fn ops_claims_match(ops: Seq<Operation>, k: u128, rec: AssetRecord) -> bool {
    forall|o: int|
        0 <= o < ops.len() && (#[trigger] ops[o]) is TransferAsset ==> transfer_claims_match(
            ops[o]->TransferAsset_0,
            k,
            rec,
        )
}

/// Every transfer pairs its input references and its note records one to
/// one.
pub open spec fn transfers_len_ok(ops: Seq<Operation>) -> bool {
    forall|o: int|
        0 <= o < ops.len() && (#[trigger] ops[o]) is TransferAsset
            ==> ops[o]->TransferAsset_0.body.inputs@.len()
            == ops[o]->TransferAsset_0.body.transfer.inputs@.len()
}

/// The committed output `k` is consumed by exactly one transfer input of
/// the transaction, with exactly the record `rec`, and no relative input
/// carries `rec`.
pub open spec fn claimed_exactly_once(ops: Seq<Operation>, k: u128, rec: AssetRecord) -> bool {
    &&& exists|o: int, j: int| #[trigger] claim_pos(ops, o, j, k)
    &&& forall|o1: int, j1: int, o2: int, j2: int|
        #[trigger] claim_pos(ops, o1, j1, k) && #[trigger] claim_pos(ops, o2, j2, k) ==> o1 == o2
            && j1 == j2
    &&& ops_claims_match(ops, k, rec)
}

impl TxnEffect {
    /// The whole consistency condition the deep check decides: recompiling
    /// the embedded transaction succeeds and reproduces this effect's data,
    /// and every committed output the effect claims is consumed by exactly
    /// one transfer input with exactly the claimed record; when anything is
    /// claimed, every transfer also pairs its references and note records
    /// one to one.
    pub open spec fn consistent(self) -> bool {
        &&& effect_model(self.txn) is Ok
        &&& self.matches_model(effect_model(self.txn)->Ok_0)
        &&& forall|k: u128| #[trigger]
            self.input_txos@.contains_key(k) ==> claimed_exactly_once(
                self.txn.operations@,
                k,
                self.input_txos@[k],
            )
        &&& ((exists|k: u128| self.input_txos@.contains_key(k)) ==> transfers_len_ok(
            self.txn.operations@,
        ))
    }

    /// Check the effect's internal consistency, and report corruption if
    /// and only if it actually fails: the check accepts exactly the
    /// effects that satisfy `consistent`.
    #[verifier::loop_isolation(false)]
    #[verifier::rlimit(100)]
    pub fn deep_invariant_check(&self) -> (r: Result<(), PlatformError>)
        requires
            self.input_txos.wf(),
            self.new_asset_codes.wf(),
            self.new_issuance_nums.wf(),
        ensures
            match r {
                Ok(_) => self.consistent(),
                Err(e) => e == PlatformError::InvariantError && !self.consistent(),
            },
    {
        let ghost ops = self.txn.operations@;
        // Every claimed input is consumed by exactly one transfer input.
        let n_in = self.input_txos.len();
        for i in 0..n_in
            invariant
                forall|t: int|
                    0 <= t < i ==> claimed_exactly_once(
                        ops,
                        (#[trigger] self.input_txos.entries@[t]).0,
                        self.input_txos.entries@[t].1,
                    ),
                i > 0 ==> transfers_len_ok(ops),
        {
            let e = self.input_txos.entry_at(i);
            let ghost k = e.0;
            let ghost rec = e.1;
            let mut found = false;
            let ghost mut wo: int = 0;
            let ghost mut wj: int = 0;
            let n_ops = self.txn.operations.len();
            for o in 0..n_ops
                invariant
                    forall|o1: int|
                        0 <= o1 < o && (#[trigger] ops[o1]) is TransferAsset ==> (
                        ops[o1]->TransferAsset_0.body.inputs@.len()
                            == ops[o1]->TransferAsset_0.body.transfer.inputs@.len()
                            && transfer_claims_match(ops[o1]->TransferAsset_0, k, rec)),
                    found ==> #[trigger] claim_pos(ops, wo, wj, k) && wo < o,
                    forall|o1: int, j1: int|
                        0 <= o1 < o && #[trigger] claim_pos(ops, o1, j1, k) ==> (found && o1 == wo
                            && j1 == wj),
            {
                if let Operation::TransferAsset(trn) = &self.txn.operations[o] {
                    if trn.body.inputs.len() != trn.body.transfer.inputs.len() {
                        proof {
                            assert(self.input_txos@.contains_key(k));
                            assert(!transfers_len_ok(ops));
                        }
                        return Err(PlatformError::InvariantError);
                    }
                    let n_refs = trn.body.inputs.len();
                    for j in 0..n_refs
                        invariant
                            found ==> #[trigger] claim_pos(ops, wo, wj, k) && (wo < o || (wo == o
                                && wj < j)),
                            forall|o1: int, j1: int|
                                (0 <= o1 < o || (o1 == o && 0 <= j1 < j)) && #[trigger] claim_pos(
                                    ops,
                                    o1,
                                    j1,
                                    k,
                                ) ==> (found && o1 == wo && j1 == wj),
                            forall|j1: int|
                                0 <= j1 < j ==> {
                                    &&& ((#[trigger] trn.body.inputs@[j1]) is Absolute
                                        && trn.body.inputs@[j1]->Absolute_0.0 as u128 == k
                                        ==> trn.body.transfer.inputs@[j1] == rec)
                                    &&& (trn.body.inputs@[j1] is Relative
                                        ==> trn.body.transfer.inputs@[j1] != rec)
                                },
                    {
                        match trn.body.inputs[j] {
                            TxoRef::Absolute(sid) => {
                                if sid.0 as u128 == e.0 {
                                    proof {
                                        assert(claim_pos(ops, o as int, j as int, k));
                                    }
                                    if trn.body.transfer.inputs[j] != e.1 {
                                        proof {
                                            assert(self.input_txos@.contains_key(k));
                                            assert(!transfer_claims_match(*trn, k, rec));
                                            assert(!claimed_exactly_once(ops, k, rec));
                                        }
                                        return Err(PlatformError::InvariantError);
                                    }
                                    if found {
                                        proof {
                                            assert(self.input_txos@.contains_key(k));
                                            assert(claim_pos(ops, wo, wj, k) && claim_pos(
                                                ops,
                                                o as int,
                                                j as int,
                                                k,
                                            ) && !(wo == o as int && wj == j as int));
                                            assert(!claimed_exactly_once(ops, k, rec));
                                        }
                                        return Err(PlatformError::InvariantError);
                                    }
                                    found = true;
                                    proof {
                                        wo = o as int;
                                        wj = j as int;
                                    }
                                }
                            },
                            TxoRef::Relative(_) => {
                                if trn.body.transfer.inputs[j] == e.1 {
                                    proof {
                                        assert(self.input_txos@.contains_key(k));
                                        assert(!transfer_claims_match(*trn, k, rec));
                                        assert(!claimed_exactly_once(ops, k, rec));
                                    }
                                    return Err(PlatformError::InvariantError);
                                }
                            },
                        }
                    }
                    proof {
                        assert(transfer_claims_match(*trn, k, rec));
                    }
                }
            }
            if !found {
                proof {
                    assert(self.input_txos@.contains_key(k));
                    assert(!(exists|o: int, j: int| #[trigger] claim_pos(ops, o, j, k)));
                    assert(!claimed_exactly_once(ops, k, rec));
                }
                return Err(PlatformError::InvariantError);
            }
            proof {
                assert(claimed_exactly_once(ops, k, rec));
            }
        }
        proof {
            assert forall|k: u128| #[trigger]
                self.input_txos@.contains_key(k) implies claimed_exactly_once(
                ops,
                k,
                self.input_txos@[k],
            ) by {
                crate::umap::lemma_map_of_contains(self.input_txos.entries@, k);
                let t = choose|t: int|
                    0 <= t < self.input_txos.entries@.len() && self.input_txos.entries@[t].0 == k;
                crate::umap::lemma_map_of_index(self.input_txos.entries@, t);
            }
            if exists|k: u128| self.input_txos@.contains_key(k) {
                let k = choose|k: u128| self.input_txos@.contains_key(k);
                crate::umap::lemma_map_of_contains(self.input_txos.entries@, k);
                assert(n_in > 0);
            }
        }
        // Recompiling the embedded transaction must reproduce this effect.
        let twin = copy_transaction(&self.txn);
        let ghost gtwin = twin;
        let re = match TxnEffect::compute_effect(twin) {
            Err(_) => {
                proof {
                    lemma_effect_model_same(self.txn, gtwin);
                }
                return Err(PlatformError::InvariantError);
            },
            Ok(eff) => eff,
        };
        proof {
            lemma_effect_model_same(self.txn, gtwin);
        }
        if !eq_opt_outputs(&self.txos, &re.txos) {
            return Err(PlatformError::InvariantError);
        }
        if !eq_umap_records(&self.input_txos, &re.input_txos) {
            return Err(PlatformError::InvariantError);
        }
        if !eq_umap_types(&self.new_asset_codes, &re.new_asset_codes) {
            return Err(PlatformError::InvariantError);
        }
        if !eq_umap_nums(&self.new_issuance_nums, &re.new_issuance_nums) {
            return Err(PlatformError::InvariantError);
        }
        Ok(())
    }
}

/// Running the compiler keeps every issuance-number list strictly
/// increasing and below the last representable number.
pub proof fn lemma_run_ops_nums_ok(s: EffectState, ops: Seq<Operation>)
    requires
        nums_ok(s.new_issuance_nums),
        run_ops(s, ops) is Ok,
    ensures
        nums_ok(run_ops(s, ops)->Ok_0.new_issuance_nums),
    decreases ops.len(),
{
    if ops.len() > 0 {
        let s2 = op_step(s, ops.first())->Ok_0;
        match ops.first() {
            Operation::DefineAsset(d) => {
                assert(nums_ok(s2.new_issuance_nums));
            },
            Operation::IssueAsset(iss) => {
                let code = iss.body.code.val;
                let prior = if s.new_issuance_nums.contains_key(code) {
                    s.new_issuance_nums[code]
                } else {
                    Seq::<u64>::empty()
                };
                let grown = prior.push(iss.body.seq_num);
                assert(strictly_inc(grown)) by {
                    assert forall|i: int, j: int| 0 <= i < j < grown.len() implies grown[i]
                        < grown[j] by {
                        if j < grown.len() - 1 {
                            assert(grown[i] == prior[i] && grown[j] == prior[j]);
                        } else {
                            assert(grown[j] == iss.body.seq_num);
                            if prior.len() > 0 {
                                assert(prior[i] <= prior.last() || i == prior.len() - 1);
                            }
                        }
                    }
                }
                assert(nums_ok(s2.new_issuance_nums));
            },
            Operation::TransferAsset(t) => {
                assert(s2.new_issuance_nums == s.new_issuance_nums);
            },
        }
        lemma_run_ops_nums_ok(s2, ops.drop_first());
    }
}

} // verus!
