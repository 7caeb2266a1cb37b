//! The ledger: its state, the rules each operation must meet, and the block
//! pipeline that applies transactions.

use crate::codec::{
    push_bytes, push_transaction, transaction_bytes, creation_body_bytes, issuance_body_bytes, output_bytes, push_output, push_transfer_body,
    push_issuance_body, push_properties, transfer_body_bytes,
};
use crate::crypto::{compute_sha256_hash, sha256_of, signature_valid, verify_signature};
use crate::data_model::{
    AssetPolicyKey, CustomAssetPolicy, SmartContract, SmartContractKey, TxnSID, TxnTempSID, Address, AssetCreation, AssetIssuance, AssetToken, AssetTokenCode, AssetTransfer,
    LedgerSignature, Operation, Transaction, TxOutput, TxSequenceNumber, Utxo, UtxoAddress,
    XfrAmount, XfrAssetType,
};
use crate::error::LedgerError;
use crate::seqs::{
    keep_where, last_match, lemma_keep_where_take, lemma_last_match,
    lemma_last_match_take,
};
use crate::staking::{
    delegation_check_result, is_delegation_fn, lemma_sum_nat_take, stake_result, sum_nat,
    DelegationRecord, Staking, StakingModel, ValidatorEntry,
};
use vstd::prelude::*;

verus! {

/// The last sequence number issued of an asset.
#[derive(Clone, Copy, Debug, PartialEq, Eq)]
pub struct IssuanceRecord {
    pub code: AssetTokenCode,
    pub seq_num: u128,
}

/// The authoritative state: unspent outputs, assets, issuance counters, stake,
/// and the sequence number the next transaction will get.
pub struct LedgerStatus {
    pub utxos: Vec<Utxo>,
    pub tokens: Vec<AssetToken>,
    pub issuance_num: Vec<IssuanceRecord>,
    pub staking: Staking,
    pub next_txn: u64,
}

/// What a `LedgerStatus` holds, as sequences.
pub struct StatusModel {
    pub utxos: Seq<Utxo>,
    pub tokens: Seq<AssetToken>,
    pub issuance: Seq<IssuanceRecord>,
    pub staking: StakingModel,
    pub next_txn: u64,
}

impl View for LedgerStatus {
    type V = StatusModel;

    open spec fn view(&self) -> StatusModel {
        StatusModel {
            utxos: self.utxos@,
            tokens: self.tokens@,
            issuance: self.issuance_num@,
            staking: self.staking@,
            next_txn: self.next_txn,
        }
    }
}

pub open spec fn token_at_fn(c: AssetTokenCode) -> spec_fn(AssetToken) -> bool {
    |t: AssetToken| t.properties.code == c
}

pub open spec fn issuance_at_fn(c: AssetTokenCode) -> spec_fn(IssuanceRecord) -> bool {
    |r: IssuanceRecord| r.code == c
}

pub open spec fn utxo_at_fn(a: UtxoAddress) -> spec_fn(Utxo) -> bool {
    |u: Utxo| u.key == a
}

/// Where the asset with code `c` stands, or -1.
pub open spec fn token_pos(m: StatusModel, c: AssetTokenCode) -> int {
    last_match(m.tokens, token_at_fn(c))
}

/// Where the issuance counter of `c` stands, or -1.
pub open spec fn issuance_pos(m: StatusModel, c: AssetTokenCode) -> int {
    last_match(m.issuance, issuance_at_fn(c))
}

/// Where the unspent output at `a` stands, or -1.
pub open spec fn utxo_pos(m: StatusModel, a: UtxoAddress) -> int {
    last_match(m.utxos, utxo_at_fn(a))
}

/// The address of output `k` of operation `op` of transaction `sid`.
pub open spec fn address_of(sid: u64, op: int, k: int) -> UtxoAddress {
    UtxoAddress {
        transaction_id: TxSequenceNumber { val: sid },
        operation_index: op as u16,
        output_index: k as u16,
    }
}

/// The unspent outputs that an operation's outputs become.
pub open spec fn new_utxos(sid: u64, op: int, outs: Seq<TxOutput>) -> Seq<Utxo> {
    Seq::new(
        outs.len(),
        |k: int|
            Utxo {
                key: address_of(sid, op, k),
                digest: sha256_of(output_bytes(outs[k])),
                output: outs[k],
            },
    )
}

/// Creating an asset: its code must be new and the body signed.
#[verifier::opaque]
pub open spec fn creation_result(m: StatusModel, c: AssetCreation) -> Result<
    StatusModel,
    LedgerError,
> {
    if token_pos(m, c.body.properties.code) >= 0 {
        Err(LedgerError::DuplicateAssetError)
    } else if !signature_valid(
        c.body_signature.address.key@,
        creation_body_bytes(c.body),
        c.body_signature.signature@,
    ) {
        Err(LedgerError::SignatureError)
    } else {
        Ok(
            StatusModel {
                tokens: m.tokens.push(AssetToken { properties: c.body.properties, units: 0 }),
                ..m
            },
        )
    }
}

/// The plain amount of a record, or nothing for a hidden one.
pub open spec fn plain_amount(o: TxOutput) -> nat {
    match o.amount {
        XfrAmount::NonConfidential(a) => a as nat,
        XfrAmount::Confidential(_) => 0,
    }
}

pub open spec fn plain_amount_fn() -> spec_fn(TxOutput) -> nat {
    |o: TxOutput| plain_amount(o)
}

/// A record with a plain amount of the plain asset `c`.
pub open spec fn plain_of(o: TxOutput, c: AssetTokenCode) -> bool {
    o.amount is NonConfidential && o.asset_type == XfrAssetType::NonConfidential(c)
}

/// Issuing more of an asset: the asset exists, the sequence number advances,
/// the issuer signed, and every output is a plain amount of that asset. The
/// outputs become unspent outputs and count towards the asset's units.
#[verifier::opaque]
pub open spec fn issuance_result(m: StatusModel, x: AssetIssuance, sid: u64, op: int) -> Result<
    StatusModel,
    LedgerError,
> {
    let c = x.body.code;
    let t = token_pos(m, c);
    let k = issuance_pos(m, c);
    let outs = x.body.outputs@;
    if t < 0 {
        Err(LedgerError::UnknownAssetError)
    } else if k >= 0 && x.body.seq_num <= m.issuance[k].seq_num {
        Err(LedgerError::ReplayError)
    } else if !signature_valid(
        x.body_signature.address.key@,
        issuance_body_bytes(x.body),
        x.body_signature.signature@,
    ) {
        Err(LedgerError::SignatureError)
    } else if x.body_signature.address != m.tokens[t].properties.issuer {
        Err(LedgerError::SignatureError)
    } else if exists|i: int| 0 <= i < outs.len() && !plain_of(#[trigger] outs[i], c) {
        Err(LedgerError::Unsupported)
    } else if outs.len() > 65536 || m.tokens[t].units + sum_nat(outs, plain_amount_fn())
        > u64::MAX {
        Err(LedgerError::Overflow)
    } else {
        let rec = IssuanceRecord { code: c, seq_num: x.body.seq_num };
        Ok(
            StatusModel {
                utxos: m.utxos + new_utxos(sid, op, outs),
                tokens: m.tokens.update(
                    t,
                    AssetToken {
                        properties: m.tokens[t].properties,
                        units: (m.tokens[t].units + sum_nat(outs, plain_amount_fn())) as u64,
                    },
                ),
                issuance: if k >= 0 {
                    m.issuance.update(k, rec)
                } else {
                    m.issuance.push(rec)
                },
                ..m
            },
        )
    }
}

/// The plain amount of asset `c` in a record.
pub open spec fn amount_of(o: TxOutput, c: AssetTokenCode) -> nat {
    if o.asset_type == XfrAssetType::NonConfidential(c) {
        plain_amount(o)
    } else {
        0
    }
}

pub open spec fn amount_of_fn(c: AssetTokenCode) -> spec_fn(TxOutput) -> nat {
    |o: TxOutput| amount_of(o, c)
}

/// Every record has a plain amount and a plain asset type.
pub open spec fn all_plain(recs: Seq<TxOutput>) -> bool {
    forall|i: int|
        0 <= i < recs.len() ==> (#[trigger] recs[i]).amount is NonConfidential
            && recs[i].asset_type is NonConfidential
}

/// Of every asset, the inputs carry as much as the outputs.
pub open spec fn balanced(ins: Seq<TxOutput>, outs: Seq<TxOutput>) -> bool {
    forall|c: AssetTokenCode| sum_nat(ins, amount_of_fn(c)) == sum_nat(outs, amount_of_fn(c))
}

/// Every signature verifies over `msg`.
pub open spec fn all_signed(sigs: Seq<LedgerSignature>, msg: Seq<u8>) -> bool {
    forall|i: int|
        0 <= i < sigs.len() ==> signature_valid(
            (#[trigger] sigs[i]).address.key@,
            msg,
            sigs[i].signature@,
        )
}

/// No address appears twice.
pub open spec fn distinct(inputs: Seq<UtxoAddress>) -> bool {
    forall|i: int, j: int| 0 <= i < j < inputs.len() ==> inputs[i] != inputs[j]
}

/// Each input is an unspent output whose record the transfer restates.
pub open spec fn inputs_match(m: StatusModel, inputs: Seq<UtxoAddress>, recs: Seq<TxOutput>) -> bool {
    forall|i: int|
        0 <= i < inputs.len() ==> utxo_pos(m, #[trigger] inputs[i]) >= 0 && m.utxos[utxo_pos(
            m,
            inputs[i],
        )].output == recs[i]
}

/// Some signature is made with `key`.
pub open spec fn signed_by(sigs: Seq<LedgerSignature>, key: Address) -> bool {
    exists|j: int| 0 <= j < sigs.len() && (#[trigger] sigs[j]).address == key
}

/// The owner of each input signed the transfer.
pub open spec fn owners_signed(recs: Seq<TxOutput>, sigs: Seq<LedgerSignature>) -> bool {
    forall|i: int| 0 <= i < recs.len() ==> signed_by(sigs, (#[trigger] recs[i]).public_key)
}

pub open spec fn unspent_by_fn(inputs: Seq<UtxoAddress>) -> spec_fn(Utxo) -> bool {
    |u: Utxo| !inputs.contains(u.key)
}

/// Transferring: every signature holds, inputs and outputs are plain and
/// balance per asset, each input is a distinct unspent output that its owner
/// signed for. The inputs leave the UTXO set and the outputs join it.
#[verifier::opaque]
pub open spec fn transfer_result(m: StatusModel, x: AssetTransfer, sid: u64, op: int) -> Result<
    StatusModel,
    LedgerError,
> {
    let b = x.body;
    if !all_signed(x.body_signatures@, transfer_body_bytes(b)) {
        Err(LedgerError::SignatureError)
    } else if b.inputs@.len() != b.input_records@.len() {
        Err(LedgerError::InconsistentOperation)
    } else if !all_plain(b.input_records@) || !all_plain(b.outputs@) {
        Err(LedgerError::Unsupported)
    } else if !balanced(b.input_records@, b.outputs@) {
        Err(LedgerError::InconsistentOperation)
    } else if !distinct(b.inputs@) || !inputs_match(m, b.inputs@, b.input_records@) {
        Err(LedgerError::MissingInputError)
    } else if !owners_signed(b.input_records@, x.body_signatures@) {
        Err(LedgerError::SignatureError)
    } else if b.outputs@.len() > 65536 {
        Err(LedgerError::Overflow)
    } else {
        Ok(
            StatusModel {
                utxos: keep_where(m.utxos, unspent_by_fn(b.inputs@)) + new_utxos(
                    sid,
                    op,
                    b.outputs@,
                ),
                ..m
            },
        )
    }
}

/// One operation, as operation `i` of transaction `sid`; a delegation bonds `am`.
pub open spec fn op_result(m: StatusModel, op: Operation, sid: u64, i: int, am: u64) -> Result<
    StatusModel,
    LedgerError,
> {
    match op {
        Operation::AssetCreation(c) => creation_result(m, c),
        Operation::AssetIssuance(x) => issuance_result(m, x, sid, i),
        Operation::AssetTransfer(x) => transfer_result(m, x, sid, i),
        Operation::Delegation(d) => match stake_result(m.staking, d, am) {
            Ok(s) => Ok(StatusModel { staking: s, ..m }),
            Err(e) => Err(e),
        },
    }
}

/// The operations in order; the first failure ends it.
pub open spec fn ops_result(m: StatusModel, ops: Seq<Operation>, sid: u64, am: u64) -> Result<
    StatusModel,
    LedgerError,
>
    decreases ops.len(),
{
    if ops.len() == 0 {
        Ok(m)
    } else {
        match ops_result(m, ops.drop_last(), sid, am) {
            Ok(m1) => op_result(m1, ops.last(), sid, ops.len() - 1, am),
            Err(e) => Err(e),
        }
    }
}

/// Once an operation fails, the whole list fails the same way.
pub proof fn lemma_ops_failure_stays(
    m: StatusModel,
    ops: Seq<Operation>,
    sid: u64,
    am: u64,
    j: int,
    e: LedgerError,
)
    requires
        0 <= j <= ops.len(),
        ops_result(m, ops.take(j), sid, am) == Err::<StatusModel, LedgerError>(e),
    ensures
        ops_result(m, ops, sid, am) == Err::<StatusModel, LedgerError>(e),
    decreases ops.len(),
{
    if j == ops.len() {
        assert(ops.take(j) =~= ops);
    } else {
        assert(ops.drop_last().take(j) =~= ops.take(j));
        lemma_ops_failure_stays(m, ops.drop_last(), sid, am, j, e);
    }
}

/// A whole transaction, under the next sequence number, which it then uses up.
pub open spec fn txn_result(m: StatusModel, txn: Transaction, am: u64) -> Result<
    StatusModel,
    LedgerError,
> {
    if txn.operations@.len() > 65536 || m.next_txn == u64::MAX {
        Err(LedgerError::Overflow)
    } else {
        match ops_result(m, txn.operations@, m.next_txn, am) {
            Ok(m1) => Ok(StatusModel { next_txn: (m.next_txn + 1) as u64, ..m1 }),
            Err(e) => Err(e),
        }
    }
}

/// Sums of terms bounded by `b` are bounded by `b` times their number.
pub proof fn lemma_sum_bound<A>(s: Seq<A>, f: spec_fn(A) -> nat, b: nat)
    requires
        forall|x: A| #[trigger] f(x) <= b,
    ensures
        sum_nat(s, f) <= s.len() * b,
    decreases s.len(),
{
    if s.len() > 0 {
        lemma_sum_bound(s.drop_last(), f, b);
        let n = s.len() as int;
        assert((n - 1) * b + b == n * b) by (nonlinear_arith);
    }
}

/// An asset that no record names sums to nothing.
pub proof fn lemma_amount_absent(s: Seq<TxOutput>, c: AssetTokenCode)
    requires
        forall|i: int| 0 <= i < s.len() ==> (#[trigger] s[i]).asset_type != XfrAssetType::NonConfidential(c),
    ensures
        sum_nat(s, amount_of_fn(c)) == 0,
    decreases s.len(),
{
    if s.len() > 0 {
        let t = s.drop_last();
        assert forall|i: int| 0 <= i < t.len() implies (#[trigger] t[i]).asset_type
            != XfrAssetType::NonConfidential(c) by {
            assert(t[i] == s[i]);
        }
        lemma_amount_absent(t, c);
        assert(s.last() == s[s.len() - 1]);
    }
}

/// The plain amount of asset `c` over all of `recs`.
fn amount_in(recs: &Vec<TxOutput>, c: &AssetTokenCode) -> (r: u128)
    ensures
        r as nat == sum_nat(recs@, amount_of_fn(*c)),
{
    let ghost f = amount_of_fn(*c);
    let mut sum: u128 = 0;
    let mut i: usize = 0;
    while i < recs.len()
        invariant
            0 <= i <= recs@.len(),
            f == amount_of_fn(*c),
            sum as nat == sum_nat(recs@.take(i as int), f),
        decreases recs@.len() - i,
    {
        proof {
            lemma_sum_nat_take(recs@, f, i as int);
            assert forall|x: TxOutput| #[trigger] f(x) <= u64::MAX as nat by {}
            lemma_sum_bound(recs@.take(i as int), f, u64::MAX as nat);
            let n = i as int;
            assert(n * (u64::MAX as int) + u64::MAX as int <= u128::MAX) by (nonlinear_arith)
                requires n < 0x1_0000_0000_0000_0000int;
        }
        let a: u64 = match (recs[i].amount, recs[i].asset_type) {
            (XfrAmount::NonConfidential(a), XfrAssetType::NonConfidential(c2)) => if c2.same(c) {
                a
            } else {
                0
            },
            _ => 0,
        };
        assert(f(recs@[i as int]) == a as nat);
        sum = sum + a as u128;
        i = i + 1;
    }
    assert(recs@.take(i as int) =~= recs@);
    sum
}

/// The asset a record names in the clear balances between `ins` and `outs`.
pub open spec fn record_balanced(ins: Seq<TxOutput>, outs: Seq<TxOutput>, r: TxOutput) -> bool {
    match r.asset_type {
        XfrAssetType::NonConfidential(c) => sum_nat(ins, amount_of_fn(c)) == sum_nat(
            outs,
            amount_of_fn(c),
        ),
        XfrAssetType::Confidential(_) => true,
    }
}

/// Whether, for each asset, `ins` and `outs` carry the same plain amount.
fn balanced_exec(ins: &Vec<TxOutput>, outs: &Vec<TxOutput>) -> (r: bool)
    ensures
        r == balanced(ins@, outs@),
{
    let mut i: usize = 0;
    while i < ins.len()
        invariant
            0 <= i <= ins@.len(),
            forall|j: int| 0 <= j < i ==> record_balanced(ins@, outs@, #[trigger] ins@[j]),
        decreases ins@.len() - i,
    {
        if let XfrAssetType::NonConfidential(c) = ins[i].asset_type {
            if amount_in(ins, &c) != amount_in(outs, &c) {
                return false;
            }
        }
        i = i + 1;
    }
    let mut i: usize = 0;
    while i < outs.len()
        invariant
            0 <= i <= outs@.len(),
            forall|j: int| 0 <= j < ins@.len() ==> record_balanced(ins@, outs@, #[trigger] ins@[j]),
            forall|j: int| 0 <= j < i ==> record_balanced(ins@, outs@, #[trigger] outs@[j]),
        decreases outs@.len() - i,
    {
        if let XfrAssetType::NonConfidential(c) = outs[i].asset_type {
            if amount_in(ins, &c) != amount_in(outs, &c) {
                return false;
            }
        }
        i = i + 1;
    }
    assert forall|c: AssetTokenCode| sum_nat(ins@, amount_of_fn(c)) == sum_nat(
        outs@,
        amount_of_fn(c),
    ) by {
        if exists|j: int|
            0 <= j < ins@.len() && (#[trigger] ins@[j]).asset_type == XfrAssetType::NonConfidential(c) {
            let j = choose|j: int|
                0 <= j < ins@.len() && (#[trigger] ins@[j]).asset_type == XfrAssetType::NonConfidential(c);
            assert(record_balanced(ins@, outs@, ins@[j]));
        } else if exists|j: int|
            0 <= j < outs@.len() && (#[trigger] outs@[j]).asset_type == XfrAssetType::NonConfidential(c) {
            let j = choose|j: int|
                0 <= j < outs@.len() && (#[trigger] outs@[j]).asset_type == XfrAssetType::NonConfidential(c);
            assert(record_balanced(ins@, outs@, outs@[j]));
        } else {
            lemma_amount_absent(ins@, c);
            lemma_amount_absent(outs@, c);
        }
    }
    true
}

fn all_plain_exec(recs: &Vec<TxOutput>) -> (r: bool)
    ensures
        r == all_plain(recs@),
{
    let mut i: usize = 0;
    while i < recs.len()
        invariant
            0 <= i <= recs@.len(),
            forall|j: int|
                0 <= j < i ==> (#[trigger] recs@[j]).amount is NonConfidential
                    && recs@[j].asset_type is NonConfidential,
        decreases recs@.len() - i,
    {
        let ok = match (recs[i].amount, recs[i].asset_type) {
            (XfrAmount::NonConfidential(_), XfrAssetType::NonConfidential(_)) => true,
            _ => false,
        };
        if !ok {
            return false;
        }
        i = i + 1;
    }
    true
}

fn contains_address(v: &Vec<UtxoAddress>, a: &UtxoAddress) -> (r: bool)
    ensures
        r == v@.contains(*a),
{
    let mut i: usize = 0;
    while i < v.len()
        invariant
            0 <= i <= v@.len(),
            forall|j: int| 0 <= j < i ==> v@[j] != *a,
        decreases v@.len() - i,
    {
        if v[i] == *a {
            return true;
        }
        i = i + 1;
    }
    false
}

fn distinct_exec(v: &Vec<UtxoAddress>) -> (r: bool)
    ensures
        r == distinct(v@),
{
    let mut j: usize = 0;
    while j < v.len()
        invariant
            0 <= j <= v@.len(),
            forall|a: int, b: int| 0 <= a < b < j ==> v@[a] != v@[b],
        decreases v@.len() - j,
    {
        let mut i: usize = 0;
        while i < j
            invariant
                0 <= i <= j < v@.len(),
                forall|a: int| 0 <= a < i ==> v@[a] != v@[j as int],
            decreases j - i,
        {
            if v[i] == v[j] {
                return false;
            }
            i = i + 1;
        }
        j = j + 1;
    }
    true
}

fn owners_signed_exec(recs: &Vec<TxOutput>, sigs: &Vec<LedgerSignature>) -> (r: bool)
    ensures
        r == owners_signed(recs@, sigs@),
{
    let mut i: usize = 0;
    while i < recs.len()
        invariant
            0 <= i <= recs@.len(),
            forall|k: int| 0 <= k < i ==> signed_by(sigs@, (#[trigger] recs@[k]).public_key),
        decreases recs@.len() - i,
    {
        let mut found = false;
        let mut j: usize = 0;
        while j < sigs.len()
            invariant
                0 <= i < recs@.len(),
                0 <= j <= sigs@.len(),
                found ==> signed_by(sigs@, recs@[i as int].public_key),
                !found ==> forall|l: int|
                    0 <= l < j ==> sigs@[l].address != recs@[i as int].public_key,
            decreases sigs@.len() - j,
        {
            if sigs[j].address.same(&recs[i].public_key) {
                found = true;
            }
            j = j + 1;
        }
        if !found {
            return false;
        }
        i = i + 1;
    }
    true
}

impl LedgerStatus {
    pub fn token_index(&self, c: &AssetTokenCode) -> (r: Option<usize>)
        ensures
            match r {
                Some(i) => i as int == token_pos(self@, *c),
                None => token_pos(self@, *c) == -1,
            },
    {
        let ghost p = token_at_fn(*c);
        let mut found: Option<usize> = None;
        let mut i: usize = 0;
        while i < self.tokens.len()
            invariant
                0 <= i <= self.tokens@.len(),
                p == token_at_fn(*c),
                match found {
                    Some(j) => j as int == last_match(self.tokens@.take(i as int), p),
                    None => last_match(self.tokens@.take(i as int), p) == -1,
                },
            decreases self.tokens@.len() - i,
        {
            proof {
                lemma_last_match_take(self.tokens@, p, i as int);
            }
            if self.tokens[i].properties.code.same(c) {
                found = Some(i);
            }
            i = i + 1;
        }
        assert(self.tokens@.take(i as int) =~= self.tokens@);
        found
    }

    pub fn issuance_index(&self, c: &AssetTokenCode) -> (r: Option<usize>)
        ensures
            match r {
                Some(i) => i as int == issuance_pos(self@, *c),
                None => issuance_pos(self@, *c) == -1,
            },
    {
        let ghost p = issuance_at_fn(*c);
        let mut found: Option<usize> = None;
        let mut i: usize = 0;
        while i < self.issuance_num.len()
            invariant
                0 <= i <= self.issuance_num@.len(),
                p == issuance_at_fn(*c),
                match found {
                    Some(j) => j as int == last_match(self.issuance_num@.take(i as int), p),
                    None => last_match(self.issuance_num@.take(i as int), p) == -1,
                },
            decreases self.issuance_num@.len() - i,
        {
            proof {
                lemma_last_match_take(self.issuance_num@, p, i as int);
            }
            if self.issuance_num[i].code.same(c) {
                found = Some(i);
            }
            i = i + 1;
        }
        assert(self.issuance_num@.take(i as int) =~= self.issuance_num@);
        found
    }

    pub fn utxo_index(&self, a: &UtxoAddress) -> (r: Option<usize>)
        ensures
            match r {
                Some(i) => i as int == utxo_pos(self@, *a),
                None => utxo_pos(self@, *a) == -1,
            },
    {
        let ghost p = utxo_at_fn(*a);
        let mut found: Option<usize> = None;
        let mut i: usize = 0;
        while i < self.utxos.len()
            invariant
                0 <= i <= self.utxos@.len(),
                p == utxo_at_fn(*a),
                match found {
                    Some(j) => j as int == last_match(self.utxos@.take(i as int), p),
                    None => last_match(self.utxos@.take(i as int), p) == -1,
                },
            decreases self.utxos@.len() - i,
        {
            proof {
                lemma_last_match_take(self.utxos@, p, i as int);
            }
            if self.utxos[i].key == *a {
                found = Some(i);
            }
            i = i + 1;
        }
        assert(self.utxos@.take(i as int) =~= self.utxos@);
        found
    }

    /// Appends the outputs of operation `op` of transaction `sid` as unspent outputs.
    fn add_outputs(&mut self, sid: u64, op: usize, outs: &Vec<TxOutput>)
        requires
            op < 65536,
            outs@.len() <= 65536,
        ensures
            final(self)@ == (StatusModel {
                utxos: old(self)@.utxos + new_utxos(sid, op as int, outs@),
                ..old(self)@
            }),
    {
        let mut k: usize = 0;
        while k < outs.len()
            invariant
                0 <= k <= outs@.len() <= 65536,
                op < 65536,
                self@ == (StatusModel {
                    utxos: old(self)@.utxos + new_utxos(sid, op as int, outs@).take(k as int),
                    ..old(self)@
                }),
            decreases outs@.len() - k,
        {
            let mut bytes: Vec<u8> = Vec::new();
            push_output(&mut bytes, &outs[k]);
            assert(bytes@ =~= output_bytes(outs@[k as int]));
            let u = Utxo {
                key: UtxoAddress {
                    transaction_id: TxSequenceNumber { val: sid },
                    operation_index: op as u16,
                    output_index: k as u16,
                },
                digest: compute_sha256_hash(bytes.as_slice()),
                output: outs[k],
            };
            self.utxos.push(u);
            assert(new_utxos(sid, op as int, outs@).take(k + 1) =~= new_utxos(
                sid,
                op as int,
                outs@,
            ).take(k as int).push(u));
            assert(self.utxos@ =~= old(self)@.utxos + new_utxos(sid, op as int, outs@).take(
                k + 1,
            ));
            k = k + 1;
        }
        assert(new_utxos(sid, op as int, outs@).take(k as int) =~= new_utxos(
            sid,
            op as int,
            outs@,
        ));
    }

    /// Drops from the UTXO set every output that `inputs` names.
    fn remove_spent(&mut self, inputs: &Vec<UtxoAddress>)
        ensures
            final(self)@ == (StatusModel {
                utxos: keep_where(old(self)@.utxos, unspent_by_fn(inputs@)),
                ..old(self)@
            }),
    {
        let ghost p = unspent_by_fn(inputs@);
        let mut kept: Vec<Utxo> = Vec::new();
        let mut i: usize = 0;
        while i < self.utxos.len()
            invariant
                0 <= i <= self.utxos@.len(),
                p == unspent_by_fn(inputs@),
                self@ == old(self)@,
                kept@ == keep_where(self.utxos@.take(i as int), p),
            decreases self.utxos@.len() - i,
        {
            proof {
                lemma_keep_where_take(self.utxos@, p, i as int);
            }
            if !contains_address(inputs, &self.utxos[i].key) {
                kept.push(self.utxos[i]);
            }
            i = i + 1;
        }
        assert(self.utxos@.take(i as int) =~= self.utxos@);
        self.utxos = kept;
    }

    /// Transfers as operation `op` of transaction `sid`; on failure nothing changes.
    #[verifier::loop_isolation(false)]
    pub fn apply_asset_transfer(&mut self, x: &AssetTransfer, sid: u64, op: usize) -> (r: Result<
        (),
        LedgerError,
    >)
        requires
            op < 65536,
        ensures
            match transfer_result(old(self)@, *x, sid, op as int) {
                Ok(m) => r is Ok && final(self)@ == m,
                Err(e) => r == Err::<(), LedgerError>(e) && final(self)@ == old(self)@,
            },
    {
        reveal(transfer_result);
        let b = &x.body;
        let mut msg: Vec<u8> = Vec::new();
        push_transfer_body(&mut msg, b);
        assert(msg@ =~= transfer_body_bytes(*b));
        let sigs = &x.body_signatures;
        let mut i: usize = 0;
        while i < sigs.len()
            invariant
                0 <= i <= sigs@.len(),
                forall|j: int|
                    0 <= j < i ==> signature_valid(
                        (#[trigger] sigs@[j]).address.key@,
                        msg@,
                        sigs@[j].signature@,
                    ),
            decreases sigs@.len() - i,
        {
            if !verify_signature(&sigs[i].address.key, msg.as_slice(), &sigs[i].signature) {
                return Err(LedgerError::SignatureError);
            }
            i = i + 1;
        }
        if b.inputs.len() != b.input_records.len() {
            return Err(LedgerError::InconsistentOperation);
        }
        if !all_plain_exec(&b.input_records) || !all_plain_exec(&b.outputs) {
            return Err(LedgerError::Unsupported);
        }
        if !balanced_exec(&b.input_records, &b.outputs) {
            return Err(LedgerError::InconsistentOperation);
        }
        if !distinct_exec(&b.inputs) {
            return Err(LedgerError::MissingInputError);
        }
        let mut i: usize = 0;
        while i < b.inputs.len()
            invariant
                0 <= i <= b.inputs@.len(),
                b.inputs@.len() == b.input_records@.len(),
                forall|j: int|
                    0 <= j < i ==> utxo_pos(self@, #[trigger] b.inputs@[j]) >= 0
                        && self@.utxos[utxo_pos(self@, b.inputs@[j])].output == b.input_records@[j],
            decreases b.inputs@.len() - i,
        {
            let found = match self.utxo_index(&b.inputs[i]) {
                Some(p) => {
                    proof {
                        lemma_last_match(self.utxos@, utxo_at_fn(b.inputs@[i as int]));
                    }
                    self.utxos[p].output.same(&b.input_records[i])
                },
                None => false,
            };
            if !found {
                return Err(LedgerError::MissingInputError);
            }
            i = i + 1;
        }
        if !owners_signed_exec(&b.input_records, sigs) {
            return Err(LedgerError::SignatureError);
        }
        if b.outputs.len() > 65536 {
            return Err(LedgerError::Overflow);
        }
        self.remove_spent(&b.inputs);
        self.add_outputs(sid, op, &b.outputs);
        Ok(())
    }

    /// Creates an asset; on failure nothing changes.
    pub fn apply_asset_creation(&mut self, c: &AssetCreation) -> (r: Result<(), LedgerError>)
        ensures
            match creation_result(old(self)@, *c) {
                Ok(m) => r is Ok && final(self)@ == m,
                Err(e) => r == Err::<(), LedgerError>(e) && final(self)@ == old(self)@,
            },
    {
        reveal(creation_result);
        if self.token_index(&c.body.properties.code).is_some() {
            return Err(LedgerError::DuplicateAssetError);
        }
        let mut msg: Vec<u8> = Vec::new();
        push_properties(&mut msg, &c.body.properties);
        assert(msg@ =~= creation_body_bytes(c.body));
        if !verify_signature(&c.body_signature.address.key, msg.as_slice(), &c.body_signature.signature) {
            return Err(LedgerError::SignatureError);
        }
        self.tokens.push(AssetToken { properties: c.body.properties.duplicate(), units: 0 });
        Ok(())
    }

    /// Issues more of an asset as operation `op` of transaction `sid`; on failure
    /// nothing changes.
    #[verifier::loop_isolation(false)]
    pub fn apply_asset_issuance(&mut self, x: &AssetIssuance, sid: u64, op: usize) -> (r: Result<
        (),
        LedgerError,
    >)
        requires
            op < 65536,
        ensures
            match issuance_result(old(self)@, *x, sid, op as int) {
                Ok(m) => r is Ok && final(self)@ == m,
                Err(e) => r == Err::<(), LedgerError>(e) && final(self)@ == old(self)@,
            },
    {
        reveal(issuance_result);
        let c = &x.body.code;
        let t = match self.token_index(c) {
            Some(t) => t,
            None => {
                return Err(LedgerError::UnknownAssetError);
            },
        };
        proof {
            lemma_last_match(self.tokens@, token_at_fn(*c));
        }
        let k = self.issuance_index(c);
        proof {
            lemma_last_match(self.issuance_num@, issuance_at_fn(*c));
        }
        if let Some(k) = k {
            if x.body.seq_num <= self.issuance_num[k].seq_num {
                return Err(LedgerError::ReplayError);
            }
        }
        let mut msg: Vec<u8> = Vec::new();
        push_issuance_body(&mut msg, &x.body);
        assert(msg@ =~= issuance_body_bytes(x.body));
        if !verify_signature(&x.body_signature.address.key, msg.as_slice(), &x.body_signature.signature) {
            return Err(LedgerError::SignatureError);
        }
        if !x.body_signature.address.same(&self.tokens[t].properties.issuer) {
            return Err(LedgerError::SignatureError);
        }
        let outs = &x.body.outputs;
        let mut i: usize = 0;
        while i < outs.len()
            invariant
                0 <= i <= outs@.len(),
                forall|j: int| 0 <= j < i ==> plain_of(#[trigger] outs@[j], *c),
            decreases outs@.len() - i,
        {
            let ok = match (outs[i].amount, outs[i].asset_type) {
                (XfrAmount::NonConfidential(_), XfrAssetType::NonConfidential(c2)) => c2.same(c),
                _ => false,
            };
            if !ok {
                assert(!plain_of(outs@[i as int], *c));
                return Err(LedgerError::Unsupported);
            }
            i = i + 1;
        }
        if outs.len() > 65536 {
            return Err(LedgerError::Overflow);
        }
        let mut units: u64 = self.tokens[t].units;
        let mut i: usize = 0;
        while i < outs.len()
            invariant
                0 <= i <= outs@.len(),
                0 <= t < self.tokens@.len(),
                units as nat == self.tokens@[t as int].units + sum_nat(
                    outs@.take(i as int),
                    plain_amount_fn(),
                ),
            decreases outs@.len() - i,
        {
            proof {
                lemma_sum_nat_take(outs@, plain_amount_fn(), i as int);
            }
            let a = match outs[i].amount {
                XfrAmount::NonConfidential(a) => a,
                XfrAmount::Confidential(_) => 0,
            };
            assert(plain_amount_fn()(outs@[i as int]) == a as nat);
            units = match units.checked_add(a) {
                Some(u) => u,
                None => {
                    proof {
                        crate::staking::lemma_sum_nat_prefix(outs@, plain_amount_fn(), i as int + 1);
                    }
                    return Err(LedgerError::Overflow);
                },
            };
            i = i + 1;
        }
        assert(outs@.take(i as int) =~= outs@);
        let token = AssetToken { properties: self.tokens[t].properties.duplicate(), units };
        self.tokens.set(t, token);
        let rec = IssuanceRecord { code: *c, seq_num: x.body.seq_num };
        match k {
            Some(k) => {
                self.issuance_num.set(k, rec);
            },
            None => {
                self.issuance_num.push(rec);
            },
        }
        self.add_outputs(sid, op, outs);
        Ok(())
    }
}

/// The stake a transaction's delegation bonds, from what the transaction alone
/// decides; a transaction without a delegation bonds nothing.
pub open spec fn effect_result(txn: Transaction) -> Result<u64, LedgerError> {
    let k = last_match(txn.operations@, is_delegation_fn());
    if k < 0 {
        Ok(0)
    } else {
        match txn.operations@[k] {
            Operation::Delegation(d) => delegation_check_result(d, txn),
            _ => Ok(0),
        }
    }
}

/// A transaction applied to the state, from start to end.
pub open spec fn apply_result(m: StatusModel, txn: Transaction) -> Result<StatusModel, LedgerError> {
    match effect_result(txn) {
        Ok(am) => txn_result(m, txn, am),
        Err(e) => Err(e),
    }
}

/// A transaction together with what its checks that need no ledger found.
pub struct TxnEffect {
    txn: Transaction,
    /// What its delegation bonds, if it has one.
    stake: u64,
}

impl TxnEffect {
    #[verifier::type_invariant]
    spec fn checked(self) -> bool {
        effect_result(self.txn) == Ok::<u64, LedgerError>(self.stake)
    }

    pub closed spec fn spec_txn(self) -> Transaction {
        self.txn
    }

    pub closed spec fn spec_stake(self) -> u64 {
        self.stake
    }

    pub fn txn(&self) -> (r: &Transaction)
        ensures
            *r == self.spec_txn(),
    {
        &self.txn
    }

    /// Runs the checks of `txn` that need no ledger.
    pub fn compute(txn: Transaction) -> (r: Result<TxnEffect, LedgerError>)
        ensures
            match effect_result(txn) {
                Ok(am) => r matches Ok(e) && e.spec_txn() == txn && e.spec_stake() == am,
                Err(e) => r == Err::<TxnEffect, LedgerError>(e),
            },
    {
        let stake = effect_stake(&txn)?;
        Ok(TxnEffect { txn, stake })
    }
}

/// What the delegation of `txn` bonds, from the checks that need no ledger.
pub fn effect_stake(txn: &Transaction) -> (r: Result<u64, LedgerError>)
    ensures
        r == effect_result(*txn),
{
    let mut last: Option<usize> = None;
    let mut i: usize = 0;
    while i < txn.operations.len()
        invariant
            0 <= i <= txn.operations@.len(),
            match last {
                Some(j) => j as int == last_match(txn.operations@.take(i as int), is_delegation_fn()),
                None => last_match(txn.operations@.take(i as int), is_delegation_fn()) == -1,
            },
        decreases txn.operations@.len() - i,
    {
        proof {
            lemma_last_match_take(txn.operations@, is_delegation_fn(), i as int);
            assert(is_delegation_fn()(txn.operations@[i as int]) == (txn.operations@[i as int] is Delegation));
        }
        if let Operation::Delegation(_) = &txn.operations[i] {
            last = Some(i);
        }
        i = i + 1;
    }
    assert(txn.operations@.take(i as int) =~= txn.operations@);
    match last {
        None => Ok(0),
        Some(k) => {
            proof {
                lemma_last_match(txn.operations@, is_delegation_fn());
            }
            match &txn.operations[k] {
                Operation::Delegation(d) => d.check(txn),
                _ => Ok(0),
            }
        },
    }
}

impl Staking {
    pub fn duplicate(&self) -> (r: Staking)
        ensures
            r@ == self@,
    {
        let mut validators: Vec<ValidatorEntry> = Vec::new();
        let mut i: usize = 0;
        while i < self.validators.len()
            invariant
                0 <= i <= self.validators@.len(),
                validators@ == self.validators@.take(i as int),
            decreases self.validators@.len() - i,
        {
            let e = &self.validators[i];
            validators.push(
                ValidatorEntry {
                    addr: e.addr.clone(),
                    validator: e.validator,
                    start_height: e.start_height,
                },
            );
            assert(self.validators@.take(i + 1) =~= self.validators@.take(i as int).push(*e));
            i = i + 1;
        }
        let mut delegations: Vec<DelegationRecord> = Vec::new();
        let mut i: usize = 0;
        while i < self.delegations.len()
            invariant
                0 <= i <= self.delegations@.len(),
                delegations@ == self.delegations@.take(i as int),
            decreases self.delegations@.len() - i,
        {
            let d = &self.delegations[i];
            delegations.push(
                DelegationRecord {
                    delegator: d.delegator,
                    validator: d.validator.clone(),
                    amount: d.amount,
                },
            );
            assert(self.delegations@.take(i + 1) =~= self.delegations@.take(i as int).push(*d));
            i = i + 1;
        }
        assert(validators@ =~= self.validators@);
        assert(delegations@ =~= self.delegations@);
        Staking { cur_height: self.cur_height, validators, delegations }
    }
}

impl LedgerStatus {
    pub fn new() -> (r: LedgerStatus)
        ensures
            r@.utxos.len() == 0,
            r@.tokens.len() == 0,
            r@.issuance.len() == 0,
            r@.staking.validators.len() == 0,
            r@.staking.delegations.len() == 0,
            r@.staking.cur_height == 0,
            r@.next_txn == 0,
            status_wf(r@),
    {
        LedgerStatus {
            utxos: Vec::new(),
            tokens: Vec::new(),
            issuance_num: Vec::new(),
            staking: Staking::new(0),
            next_txn: 0,
        }
    }

    pub fn duplicate(&self) -> (r: LedgerStatus)
        ensures
            r@ == self@,
    {
        let mut utxos: Vec<Utxo> = Vec::new();
        let mut i: usize = 0;
        while i < self.utxos.len()
            invariant
                0 <= i <= self.utxos@.len(),
                utxos@ == self.utxos@.take(i as int),
            decreases self.utxos@.len() - i,
        {
            utxos.push(self.utxos[i]);
            assert(self.utxos@.take(i + 1) =~= self.utxos@.take(i as int).push(self.utxos@[i as int]));
            i = i + 1;
        }
        let mut tokens: Vec<AssetToken> = Vec::new();
        let mut i: usize = 0;
        while i < self.tokens.len()
            invariant
                0 <= i <= self.tokens@.len(),
                tokens@ == self.tokens@.take(i as int),
            decreases self.tokens@.len() - i,
        {
            tokens.push(self.tokens[i].duplicate());
            assert(self.tokens@.take(i + 1) =~= self.tokens@.take(i as int).push(self.tokens@[i as int]));
            i = i + 1;
        }
        let mut issuance_num: Vec<IssuanceRecord> = Vec::new();
        let mut i: usize = 0;
        while i < self.issuance_num.len()
            invariant
                0 <= i <= self.issuance_num@.len(),
                issuance_num@ == self.issuance_num@.take(i as int),
            decreases self.issuance_num@.len() - i,
        {
            issuance_num.push(self.issuance_num[i]);
            assert(self.issuance_num@.take(i + 1) =~= self.issuance_num@.take(i as int).push(
                self.issuance_num@[i as int],
            ));
            i = i + 1;
        }
        assert(utxos@ =~= self.utxos@);
        assert(tokens@ =~= self.tokens@);
        assert(issuance_num@ =~= self.issuance_num@);
        LedgerStatus {
            utxos,
            tokens,
            issuance_num,
            staking: self.staking.duplicate(),
            next_txn: self.next_txn,
        }
    }

    /// One operation, as operation `i` of transaction `sid`; on failure nothing changes.
    pub fn apply_operation(&mut self, op: &Operation, sid: u64, i: usize, am: u64) -> (r: Result<
        (),
        LedgerError,
    >)
        requires
            i < 65536,
        ensures
            match op_result(old(self)@, *op, sid, i as int, am) {
                Ok(m) => r is Ok && final(self)@ == m,
                Err(e) => r == Err::<(), LedgerError>(e) && final(self)@ == old(self)@,
            },
    {
        match op {
            Operation::AssetCreation(c) => self.apply_asset_creation(c),
            Operation::AssetIssuance(x) => self.apply_asset_issuance(x, sid, i),
            Operation::AssetTransfer(x) => self.apply_asset_transfer(x, sid, i),
            Operation::Delegation(d) => self.staking.apply_delegation(d, am),
        }
    }

    /// A transaction whose delegation bonds `am`, under the next sequence number.
    /// On failure the state is left part-way and must be discarded.
    pub(crate) fn apply_txn(&mut self, txn: &Transaction, am: u64) -> (r: Result<(), LedgerError>)
        ensures
            match txn_result(old(self)@, *txn, am) {
                Ok(m) => r is Ok && final(self)@ == m,
                Err(e) => r == Err::<(), LedgerError>(e),
            },
    {
        if txn.operations.len() > 65536 || self.next_txn == u64::MAX {
            return Err(LedgerError::Overflow);
        }
        let sid = self.next_txn;
        let ghost ops = txn.operations@;
        let mut i: usize = 0;
        while i < txn.operations.len()
            invariant
                0 <= i <= ops.len() <= 65536,
                ops == txn.operations@,
                sid == old(self)@.next_txn,
                sid < u64::MAX,
                ops_result(old(self)@, ops.take(i as int), sid, am) == Ok::<StatusModel, LedgerError>(self@),
            decreases ops.len() - i,
        {
            assert(ops.take(i + 1).drop_last() =~= ops.take(i as int));
            match self.apply_operation(&txn.operations[i], sid, i, am) {
                Ok(()) => {},
                Err(e) => {
                    proof {
                        lemma_ops_failure_stays(old(self)@, ops, sid, am, i + 1, e);
                    }
                    return Err(e);
                },
            }
            i = i + 1;
        }
        assert(ops.take(i as int) =~= ops);
        self.next_txn = sid + 1;
        Ok(())
    }
}

/// No two unspent outputs share an address.
pub open spec fn keys_unique(s: Seq<Utxo>) -> bool {
    forall|i: int, j: int| 0 <= i < j < s.len() ==> s[i].key != s[j].key
}

/// A state whose unspent outputs have unique addresses, all from transactions
/// before the next sequence number.
pub open spec fn utxos_wf(m: StatusModel) -> bool {
    keys_unique(m.utxos) && forall|k: int|
        0 <= k < m.utxos.len() ==> (#[trigger] m.utxos[k]).key.transaction_id.val < m.next_txn
}

/// The invariant of a ledger state: of its unspent outputs and of its staking table.
pub open spec fn status_wf(m: StatusModel) -> bool {
    utxos_wf(m) && crate::staking::staking_wf(m.staking)
}

/// The commitment after folding `txns`, in order, into `c`.
pub open spec fn chain(c: [u8; 32], txns: Seq<Transaction>) -> [u8; 32]
    decreases txns.len(),
{
    if txns.len() == 0 {
        c
    } else {
        sha256_of(chain(c, txns.drop_last())@ + transaction_bytes(txns.last()))
    }
}

/// What an operation outputs.
pub open spec fn op_outputs(op: Operation) -> Seq<TxOutput> {
    match op {
        Operation::AssetIssuance(x) => x.body.outputs@,
        Operation::AssetTransfer(x) => x.body.outputs@,
        _ => Seq::empty(),
    }
}

/// The addresses of the outputs of the first `n` operations of `ops`, as
/// transaction `sid`, in order of operation and then of output.
pub open spec fn produced_upto(ops: Seq<Operation>, sid: u64, n: int) -> Seq<UtxoAddress>
    decreases n,
{
    if n <= 0 {
        Seq::empty()
    } else {
        produced_upto(ops, sid, n - 1) + Seq::new(
            op_outputs(ops[n - 1]).len(),
            |k: int| address_of(sid, n - 1, k),
        )
    }
}

/// The addresses of all outputs of `txn` as transaction `sid`.
pub open spec fn produced(txn: Transaction, sid: u64) -> Seq<UtxoAddress> {
    produced_upto(txn.operations@, sid, txn.operations@.len() as int)
}

/// The addresses a committed transaction produced.
fn produced_addresses(txn: &Transaction, sid: u64) -> (r: Vec<UtxoAddress>)
    requires
        txn.operations@.len() <= 65536,
        forall|j: int| 0 <= j < txn.operations@.len() ==> op_outputs(#[trigger] txn.operations@[j]).len() <= 65536,
    ensures
        r@ == produced(*txn, sid),
{
    let mut r: Vec<UtxoAddress> = Vec::new();
    let mut j: usize = 0;
    while j < txn.operations.len()
        invariant
            0 <= j <= txn.operations@.len() <= 65536,
            forall|j: int| 0 <= j < txn.operations@.len() ==> op_outputs(#[trigger] txn.operations@[j]).len() <= 65536,
            r@ == produced_upto(txn.operations@, sid, j as int),
        decreases txn.operations@.len() - j,
    {
        let n: usize = match &txn.operations[j] {
            Operation::AssetIssuance(x) => x.body.outputs.len(),
            Operation::AssetTransfer(x) => x.body.outputs.len(),
            _ => 0,
        };
        assert(n == op_outputs(txn.operations@[j as int]).len());
        let ghost start = r@;
        let mut k: usize = 0;
        while k < n
            invariant
                0 <= k <= n <= 65536,
                j < 65536,
                r@ == start + Seq::new(k as nat, |k: int| address_of(sid, j as int, k)),
            decreases n - k,
        {
            r.push(
                UtxoAddress {
                    transaction_id: TxSequenceNumber { val: sid },
                    operation_index: j as u16,
                    output_index: k as u16,
                },
            );
            assert(r@ =~= start + Seq::new((k + 1) as nat, |k: int| address_of(sid, j as int, k)));
            k = k + 1;
        }
        j = j + 1;
    }
    r
}

/// The ledger: its committed state, the transactions committed so far, the
/// commitment to them and the block height, and whether a block is open.
pub struct LedgerState {
    status: LedgerStatus,
    txs: Vec<Transaction>,
    policies: Vec<CustomAssetPolicy>,
    contracts: Vec<SmartContract>,
    commitment: [u8; 32],
    height: u64,
    tendermint_height: u64,
    block_open: bool,
}

/// What a `LedgerState` holds, as sequences and values.
pub struct LedgerModel {
    pub status: StatusModel,
    pub txns: Seq<Transaction>,
    pub policies: Seq<CustomAssetPolicy>,
    pub contracts: Seq<SmartContract>,
    pub commitment: [u8; 32],
    pub height: u64,
    /// The consensus height of the last commit.
    pub tendermint_height: u64,
    pub block_open: bool,
}

impl View for LedgerState {
    type V = LedgerModel;

    closed spec fn view(&self) -> LedgerModel {
        LedgerModel {
            status: self.status@,
            txns: self.txs@,
            policies: self.policies@,
            contracts: self.contracts@,
            commitment: self.commitment,
            height: self.height,
            tendermint_height: self.tendermint_height,
            block_open: self.block_open,
        }
    }
}

/// A block being built: a working copy of the state with the block's
/// transactions applied, the sequence number the block started from, and
/// those transactions in order.
pub struct BlockContext {
    working: LedgerStatus,
    base_txn: u64,
    txns: Vec<Transaction>,
    /// How many unspent outputs the ledger held when the block opened.
    base_utxos: Ghost<nat>,
}

/// What a `BlockContext` holds: the working state, the sequence number the
/// block starts from, and its transactions.
pub struct BlockModel {
    pub working: StatusModel,
    pub base_txn: u64,
    pub txns: Seq<Transaction>,
    pub base_utxos: nat,
}

impl View for BlockContext {
    type V = BlockModel;

    closed spec fn view(&self) -> BlockModel {
        BlockModel {
            working: self.working@,
            base_txn: self.base_txn,
            txns: self.txns@,
            base_utxos: self.base_utxos@,
        }
    }
}

/// The state with the staking table's current height set to `h`.
pub open spec fn at_height(m: StatusModel, h: u64) -> StatusModel {
    StatusModel { staking: StakingModel { cur_height: h, ..m.staking }, ..m }
}

/// The invariant of a ledger: its state is well formed.
pub open spec fn ledger_wf(l: LedgerModel) -> bool {
    status_wf(l.status)
}

/// The invariant of a block: its working state is well formed, it has used up
/// one sequence number per transaction since it started, and each of its
/// transactions fits the sixteen bits of a UTXO address; its unspent outputs
/// number those it opened with plus what its transactions produced less what
/// they spent.
pub open spec fn block_wf(b: BlockModel) -> bool {
    &&& status_wf(b.working)
    &&& b.working.utxos.len() + sum_nat(b.txns, crate::laws::spent_count_fn()) == b.base_utxos
        + sum_nat(b.txns, crate::laws::made_count_fn())
    &&& b.working.next_txn == b.base_txn + b.txns.len()
    &&& forall|i: int| 0 <= i < b.txns.len() ==> fits_addresses(#[trigger] b.txns[i])
}

impl BlockContext {
    /// Sets the staking height of the block's working state.
    pub fn set_custom_block_height(&mut self, h: u64)
        ensures
            final(self)@ == (BlockModel { working: at_height(old(self)@.working, h), ..old(self)@ }),
    {
        self.working.staking.set_custom_block_height(h);
    }

    /// How many transactions the block holds.
    pub fn len(&self) -> (r: usize)
        ensures
            r == self@.txns.len(),
    {
        self.txns.len()
    }
}

/// What a finished block reports of each of its transactions, by temporary
/// identifier: the canonical identifier and the addresses it produced.
pub open spec fn finished(b: BlockModel) -> Seq<(TxnSID, Seq<UtxoAddress>)> {
    Seq::new(
        b.txns.len(),
        |i: int| (TxnSID((b.base_txn + i) as u64), produced(b.txns[i], (b.base_txn + i) as u64)),
    )
}

/// Whether a block can be committed on the ledger: a block is open, the block
/// starts where the ledger stands, and its identifiers and addresses fit.
pub open spec fn finish_ok(l: LedgerModel, b: BlockModel) -> bool {
    &&& l.block_open
    &&& b.base_txn == l.status.next_txn
    &&& b.base_txn + b.txns.len() <= u64::MAX
    &&& l.height < u64::MAX
    &&& forall|i: int| 0 <= i < b.txns.len() ==> fits_addresses(#[trigger] b.txns[i])
}

/// The ledger once block `b` is committed on it.
pub open spec fn committed(l: LedgerModel, b: BlockModel) -> LedgerModel {
    LedgerModel {
        status: b.working,
        txns: l.txns + b.txns,
        commitment: chain(l.commitment, b.txns),
        height: (l.height + 1) as u64,
        block_open: false,
        ..l
    }
}

/// Operation and output counts fit the sixteen bits of a UTXO address.
pub open spec fn fits_addresses(txn: Transaction) -> bool {
    txn.operations@.len() <= 65536 && forall|j: int|
        0 <= j < txn.operations@.len() ==> op_outputs(#[trigger] txn.operations@[j]).len() <= 65536
}

/// Reading the committed state.
pub trait LedgerAccess: View<V = LedgerModel> {
    fn check_utxo(&self, addr: &UtxoAddress) -> (r: Option<Utxo>)
        ensures
            ({
                let k = utxo_pos(self@.status, *addr);
                if k >= 0 {
                    r == Some(self@.status.utxos[k])
                } else {
                    r is None
                }
            }),
    ;

    fn get_asset_token(&self, code: &AssetTokenCode) -> (r: Option<AssetToken>)
        ensures
            ({
                let k = token_pos(self@.status, *code);
                if k >= 0 {
                    r == Some(self@.status.tokens[k])
                } else {
                    r is None
                }
            }),
    ;

    fn get_asset_policy(&self, key: &AssetPolicyKey) -> (r: Option<CustomAssetPolicy>)
        ensures
            ({
                let k = last_match(self@.policies, |p: CustomAssetPolicy| p.key == *key);
                if k >= 0 {
                    r == Some(self@.policies[k])
                } else {
                    r is None
                }
            }),
    ;

    fn get_smart_contract(&self, key: &SmartContractKey) -> (r: Option<SmartContract>)
        ensures
            ({
                let k = last_match(self@.contracts, |c: SmartContract| c.key == *key);
                if k >= 0 {
                    r == Some(self@.contracts[k])
                } else {
                    r is None
                }
            }),
    ;
}

/// Checking a transaction against the committed state without changing it.
pub trait LedgerValidate: View<V = LedgerModel> {
    fn validate_transaction(&mut self, txn: &Transaction) -> (r: bool)
        ensures
            r == (apply_result(old(self)@.status, *txn) is Ok),
            final(self)@ == old(self)@,
    ;
}

impl LedgerState {
    pub fn new() -> (r: LedgerState)
        ensures
            r@.status.utxos.len() == 0,
            r@.status.tokens.len() == 0,
            r@.status.issuance.len() == 0,
            r@.status.staking.validators.len() == 0,
            r@.status.staking.delegations.len() == 0,
            r@.status.staking.cur_height == 0,
            r@.status.next_txn == 0,
            r@.txns.len() == 0,
            r@.policies.len() == 0,
            r@.contracts.len() == 0,
            r@.commitment@ == Seq::new(32, |i: int| 0u8),
            r@.height == 0,
            r@.tendermint_height == 0,
            ledger_wf(r@),
            !r@.block_open,
    {
        let r = LedgerState {
            status: LedgerStatus::new(),
            txs: Vec::new(),
            policies: Vec::new(),
            contracts: Vec::new(),
            commitment: [0u8; 32],
            height: 0,
            tendermint_height: 0,
            block_open: false,
        };
        assert(r.commitment@ =~= Seq::new(32, |i: int| 0u8));
        r
    }

    /// The commitment to every committed transaction, and the block height.
    pub fn get_state_commitment(&self) -> (r: ([u8; 32], u64))
        ensures
            r == (self@.commitment, self@.height),
    {
        (self.commitment, self.height)
    }

    /// Records the consensus height of a commit.
    pub fn set_tendermint_height(&mut self, h: u64)
        ensures
            final(self)@ == (LedgerModel { tendermint_height: h, ..old(self)@ }),
    {
        self.tendermint_height = h;
    }

    /// The consensus height of the last commit.
    pub fn get_tendermint_height(&self) -> (r: u64)
        ensures
            r == self@.tendermint_height,
    {
        self.tendermint_height
    }

    /// Sets the height at which validators that bond themselves are registered.
    pub fn set_custom_block_height(&mut self, h: u64)
        ensures
            final(self)@ == (LedgerModel { status: at_height(old(self)@.status, h), ..old(self)@ }),
    {
        self.status.staking.set_custom_block_height(h);
    }

    /// The staking table.
    pub fn get_staking(&self) -> (r: &Staking)
        ensures
            r@ == self@.status.staking,
    {
        &self.status.staking
    }




}

/// Building blocks: open one, apply transactions to it, then commit or drop it.
pub trait LedgerUpdate: View<V = LedgerModel> {
    /// Opens a block on the current state; fails while one is open.
    fn start_block(&mut self) -> (r: Result<BlockContext, LedgerError>)
        ensures
            old(self)@.block_open ==> r == Err::<BlockContext, LedgerError>(LedgerError::CapacityError)
                && final(self)@ == old(self)@,
            !old(self)@.block_open ==> (r matches Ok(b) && b@.working == old(self)@.status
                && b@.base_txn == old(self)@.status.next_txn && b@.txns.len() == 0 && b@.base_utxos
                == old(self)@.status.utxos.len()),
            !old(self)@.block_open ==> final(self)@ == (LedgerModel {
                block_open: true,
                ..old(self)@
            }),
            ledger_wf(old(self)@) ==> (r matches Ok(b) ==> block_wf(b@)),
    ;

    /// Applies a transaction to an open block's working state. On success the
    /// transaction joins the block under the next temporary identifier; on
    /// failure the block is unchanged.
    fn apply_transaction(&self, block: &mut BlockContext, effect: TxnEffect) -> (r: Result<
        TxnTempSID,
        LedgerError,
    >)
        ensures
            match apply_result(old(block)@.working, effect.spec_txn()) {
                Ok(m) => if fits_addresses(effect.spec_txn()) {
                    r == Ok::<TxnTempSID, LedgerError>(TxnTempSID(old(block)@.txns.len() as u64))
                        && final(block)@ == (BlockModel {
                        working: m,
                        txns: old(block)@.txns.push(effect.spec_txn()),
                        ..old(block)@
                    })
                } else {
                    r == Err::<TxnTempSID, LedgerError>(LedgerError::Overflow) && final(block)@ == old(block)@
                },
                Err(e) => r == Err::<TxnTempSID, LedgerError>(e) && final(block)@ == old(block)@,
            },
            block_wf(old(block)@) ==> block_wf(final(block)@),
    ;

    /// Commits an open block: its working state becomes the ledger's state, its
    /// transactions get canonical identifiers in order from where the block
    /// started, the commitment folds them in and the height goes up by one.
    /// Fails with nothing changed while no block is open; a block that no
    /// longer fits the ledger is dropped with nothing committed.
    fn finish_block(&mut self, block: BlockContext) -> (r: Result<
        Vec<(TxnSID, Vec<UtxoAddress>)>,
        LedgerError,
    >)
        ensures
            !old(self)@.block_open ==> r == Err::<Vec<(TxnSID, Vec<UtxoAddress>)>, LedgerError>(
                LedgerError::CapacityError,
            ) && final(self)@ == old(self)@,
            old(self)@.block_open && r is Err ==> r == Err::<
                Vec<(TxnSID, Vec<UtxoAddress>)>,
                LedgerError,
            >(LedgerError::InvariantViolation) && final(self)@ == (LedgerModel {
                block_open: false,
                ..old(self)@
            }),
            r is Ok <==> finish_ok(old(self)@, block@),
            r matches Ok(v) ==> final(self)@ == committed(old(self)@, block@) && v@.len() == block@.txns.len() && forall|i: int|
                0 <= i < v@.len() ==> (#[trigger] v@[i]).0 == finished(block@)[i].0 && v@[i].1@
                    == finished(block@)[i].1,
            ledger_wf(old(self)@) && block_wf(block@) ==> ledger_wf(final(self)@),
    ;

    /// Throws an open block away; the ledger is as it was before the block.
    fn abort_block(&mut self, block: BlockContext)
        ensures
            final(self)@ == (LedgerModel { block_open: false, ..old(self)@ }),
    ;
}

impl LedgerUpdate for LedgerState {
    fn start_block(&mut self) -> (r: Result<BlockContext, LedgerError>)
    {
        if self.block_open {
            return Err(LedgerError::CapacityError);
        }
        self.block_open = true;
        let b = BlockContext {
            working: self.status.duplicate(),
            base_txn: self.status.next_txn,
            txns: Vec::new(),
            base_utxos: Ghost(self.status@.utxos.len()),
        };
        assert(b@.txns =~= Seq::<Transaction>::empty());
        Ok(b)
    }

    #[verifier::loop_isolation(false)]
    fn apply_transaction(&self, block: &mut BlockContext, effect: TxnEffect) -> (r: Result<
        TxnTempSID,
        LedgerError,
    >)
    {
        proof {
            use_type_invariant(&effect);
        }
        let mut next = block.working.duplicate();
        next.apply_txn(&effect.txn, effect.stake)?;
        let txn = effect.txn;
        if txn.operations.len() > 65536 {
            return Err(LedgerError::Overflow);
        }
        let mut j: usize = 0;
        while j < txn.operations.len()
            invariant
                0 <= j <= txn.operations@.len(),
                forall|i: int| 0 <= i < j ==> op_outputs(#[trigger] txn.operations@[i]).len() <= 65536,
            decreases txn.operations@.len() - j,
        {
            let n: usize = match &txn.operations[j] {
                Operation::AssetIssuance(x) => x.body.outputs.len(),
                Operation::AssetTransfer(x) => x.body.outputs.len(),
                _ => 0,
            };
            if n > 65536 {
                assert(op_outputs(txn.operations@[j as int]).len() > 65536);
                return Err(LedgerError::Overflow);
            }
            j = j + 1;
        }
        let temp = block.txns.len() as u64;
        proof {
            if block_wf(old(block)@) {
                crate::laws::lemma_apply_wf(old(block)@.working, txn);
            }
        }
        let ghost before = block.txns@;
        block.working = next;
        block.txns.push(txn);
        proof {
            if block_wf(old(block)@) {
                assert forall|i: int| 0 <= i < block.txns@.len() implies fits_addresses(
                    #[trigger] block.txns@[i],
                ) by {
                    if i < before.len() {
                        assert(block.txns@[i] == before[i]);
                    }
                }
                assert(block.txns@.drop_last() =~= before);
                crate::laws::lemma_utxo_conservation(old(block)@.working, block.txns@.last());
            }
        }
        Ok(TxnTempSID(temp))
    }

    #[verifier::loop_isolation(false)]
    fn finish_block(&mut self, block: BlockContext) -> (r: Result<
        Vec<(TxnSID, Vec<UtxoAddress>)>,
        LedgerError,
    >)
    {
        if !self.block_open {
            return Err(LedgerError::CapacityError);
        }
        self.block_open = false;
        let mut block = block;
        let n = block.txns.len();
        if block.base_txn != self.status.next_txn || self.height == u64::MAX || block.base_txn > u64::MAX
            - n as u64 {
            return Err(LedgerError::InvariantViolation);
        }
        let ghost b = block@;
        let mut out: Vec<(TxnSID, Vec<UtxoAddress>)> = Vec::new();
        let mut c = self.commitment;
        let mut i: usize = 0;
        while i < n
            invariant
                0 <= i <= n,
                n == b.txns.len(),
                block@ == b,
                b.base_txn + n <= u64::MAX,
                c == chain(old(self)@.commitment, b.txns.take(i as int)),
                forall|k: int| 0 <= k < i ==> fits_addresses(#[trigger] b.txns[k]),
                out@.len() == i,
                forall|k: int|
                    0 <= k < i ==> (#[trigger] out@[k]).0 == finished(b)[k].0 && out@[k].1@
                        == finished(b)[k].1,
            decreases n - i,
        {
            let txn = &block.txns[i];
            if txn.operations.len() > 65536 {
                assert(!fits_addresses(b.txns[i as int]));
                return Err(LedgerError::InvariantViolation);
            }
            let mut j: usize = 0;
            while j < txn.operations.len()
                invariant
                    0 <= j <= txn.operations@.len(),
                    forall|l: int| 0 <= l < j ==> op_outputs(#[trigger] txn.operations@[l]).len() <= 65536,
                decreases txn.operations@.len() - j,
            {
                let m: usize = match &txn.operations[j] {
                    Operation::AssetIssuance(x) => x.body.outputs.len(),
                    Operation::AssetTransfer(x) => x.body.outputs.len(),
                    _ => 0,
                };
                if m > 65536 {
                    assert(op_outputs(txn.operations@[j as int]).len() > 65536);
                    assert(!fits_addresses(b.txns[i as int]));
                    return Err(LedgerError::InvariantViolation);
                }
                j = j + 1;
            }
            let sid = block.base_txn + i as u64;
            let addrs = produced_addresses(txn, sid);
            out.push((TxnSID(sid), addrs));
            let mut bytes: Vec<u8> = Vec::new();
            push_bytes(&mut bytes, &c);
            push_transaction(&mut bytes, txn);
            proof {
                assert(b.txns.take(i + 1).drop_last() =~= b.txns.take(i as int));
                assert(b.txns.take(i + 1).last() == b.txns[i as int]);
                assert(bytes@ =~= c@ + transaction_bytes(b.txns[i as int]));
            }
            c = compute_sha256_hash(bytes.as_slice());
            i = i + 1;
        }
        assert(b.txns.take(n as int) =~= b.txns);
        self.commitment = c;
        self.height = self.height + 1;
        self.status = block.working;
        self.txs.append(&mut block.txns);
        Ok(out)
    }

    fn abort_block(&mut self, block: BlockContext)
    {
        self.block_open = false;
    }
}

impl LedgerAccess for LedgerState {
    fn check_utxo(&self, addr: &UtxoAddress) -> (r: Option<Utxo>) {
        match self.status.utxo_index(addr) {
            Some(k) => {
                proof {
                    lemma_last_match(self.status.utxos@, utxo_at_fn(*addr));
                }
                Some(self.status.utxos[k])
            },
            None => None,
        }
    }

    fn get_asset_token(&self, code: &AssetTokenCode) -> (r: Option<AssetToken>) {
        match self.status.token_index(code) {
            Some(k) => {
                proof {
                    lemma_last_match(self.status.tokens@, token_at_fn(*code));
                }
                Some(self.status.tokens[k].duplicate())
            },
            None => None,
        }
    }

    fn get_asset_policy(&self, key: &AssetPolicyKey) -> (r: Option<CustomAssetPolicy>) {
        let ghost p = |p: CustomAssetPolicy| p.key == *key;
        let mut found: Option<usize> = None;
        let mut i: usize = 0;
        while i < self.policies.len()
            invariant
                0 <= i <= self.policies@.len(),
                p == (|p: CustomAssetPolicy| p.key == *key),
                match found {
                    Some(j) => j as int == last_match(self.policies@.take(i as int), p),
                    None => last_match(self.policies@.take(i as int), p) == -1,
                },
            decreases self.policies@.len() - i,
        {
            proof {
                lemma_last_match_take(self.policies@, p, i as int);
            }
            if self.policies[i].key == *key {
                found = Some(i);
            }
            i = i + 1;
        }
        assert(self.policies@.take(i as int) =~= self.policies@);
        proof {
            lemma_last_match(self.policies@, p);
        }
        match found {
            Some(k) => {
                let q = &self.policies[k];
                Some(CustomAssetPolicy { key: q.key, policy: q.policy.clone() })
            },
            None => None,
        }
    }

    fn get_smart_contract(&self, key: &SmartContractKey) -> (r: Option<SmartContract>) {
        let ghost p = |c: SmartContract| c.key == *key;
        let mut found: Option<usize> = None;
        let mut i: usize = 0;
        while i < self.contracts.len()
            invariant
                0 <= i <= self.contracts@.len(),
                p == (|c: SmartContract| c.key == *key),
                match found {
                    Some(j) => j as int == last_match(self.contracts@.take(i as int), p),
                    None => last_match(self.contracts@.take(i as int), p) == -1,
                },
            decreases self.contracts@.len() - i,
        {
            proof {
                lemma_last_match_take(self.contracts@, p, i as int);
            }
            if self.contracts[i].key == *key {
                found = Some(i);
            }
            i = i + 1;
        }
        assert(self.contracts@.take(i as int) =~= self.contracts@);
        proof {
            lemma_last_match(self.contracts@, p);
        }
        match found {
            Some(k) => {
                let q = &self.contracts[k];
                Some(SmartContract { key: q.key, code: q.code.clone() })
            },
            None => None,
        }
    }
}

impl LedgerValidate for LedgerState {
    fn validate_transaction(&mut self, txn: &Transaction) -> (r: bool) {
        let am = match effect_stake(txn) {
            Ok(am) => am,
            Err(_) => {
                return false;
            },
        };
        let mut scratch = self.status.duplicate();
        scratch.apply_txn(txn, am).is_ok()
    }
}

} // verus!
