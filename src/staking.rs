//! The staking table and the delegation operation: the checks a delegation
//! must pass within its transaction, and its effect on the table.

use crate::codec::{data_bytes, push_data};
use crate::crypto::{
    hex_upper, public_key, public_key_of, sign, signature_of, signature_valid, to_hex_upper,
    verify_signature,
};
use crate::data_model::{
    asset_type_fra, coinbase_principal_pk, is_fra, is_principal, Address, AssetTokenCode, Data,
    DelegationOps,
    Operation, Transaction, TxOutput, Validator, XfrAmount, XfrAssetType,
    STAKING_VALIDATOR_MIN_POWER,
};
use crate::error::LedgerError;
use crate::seqs::{last_match, lemma_last_match, lemma_last_match_take};
use vstd::prelude::*;

verus! {

/// The sum of `f` over the items of `s`.
pub open spec fn sum_nat<A>(s: Seq<A>, f: spec_fn(A) -> nat) -> nat
    decreases s.len(),
{
    if s.len() == 0 {
        0
    } else {
        sum_nat(s.drop_last(), f) + f(s.last())
    }
}

pub proof fn lemma_sum_nat_take<A>(s: Seq<A>, f: spec_fn(A) -> nat, i: int)
    requires
        0 <= i < s.len(),
    ensures
        sum_nat(s.take(i + 1), f) == sum_nat(s.take(i), f) + f(s[i]),
{
    assert(s.take(i + 1).drop_last() =~= s.take(i));
}

/// A prefix never sums to more than the whole.
pub proof fn lemma_sum_nat_prefix<A>(s: Seq<A>, f: spec_fn(A) -> nat, i: int)
    requires
        0 <= i <= s.len(),
    ensures
        sum_nat(s.take(i), f) <= sum_nat(s, f),
    decreases s.len() - i,
{
    if i < s.len() {
        lemma_sum_nat_take(s, f, i);
        lemma_sum_nat_prefix(s, f, i + 1);
    } else {
        assert(s.take(i) =~= s);
    }
}

/// What an output pays into escrow: its amount when it is a plain amount of the
/// native asset sent to the coinbase-principal key, else nothing.
pub open spec fn principal_amount(o: TxOutput) -> nat {
    match o.asset_type {
        XfrAssetType::NonConfidential(ty) => if is_fra(ty) && is_principal(o.public_key) {
            match o.amount {
                XfrAmount::NonConfidential(a) => a as nat,
                XfrAmount::Confidential(_) => 0,
            }
        } else {
            0
        },
        XfrAssetType::Confidential(_) => 0,
    }
}

pub open spec fn principal_amount_fn() -> spec_fn(TxOutput) -> nat {
    |o: TxOutput| principal_amount(o)
}

/// All of the records are owned by `owner`, and there is at least one.
pub open spec fn single_owner(recs: Seq<TxOutput>, owner: Address) -> bool {
    recs.len() > 0 && forall|i: int| 0 <= i < recs.len() ==> (#[trigger] recs[i]).public_key == owner
}

/// What one operation pays into escrow on behalf of `owner`: for a transfer
/// whose inputs all belong to `owner`, what its outputs pay; else nothing.
pub open spec fn paid_by(op: Operation, owner: Address) -> nat {
    match op {
        Operation::AssetTransfer(x) => if single_owner(x.body.input_records@, owner) {
            sum_nat(x.body.outputs@, principal_amount_fn())
        } else {
            0
        },
        _ => 0,
    }
}

pub open spec fn paid_by_fn(owner: Address) -> spec_fn(Operation) -> nat {
    |op: Operation| paid_by(op, owner)
}

/// What the transaction pays into escrow on behalf of `owner`.
pub open spec fn stake_paid(tx: Transaction, owner: Address) -> nat {
    sum_nat(tx.operations@, paid_by_fn(owner))
}

pub open spec fn is_delegation(op: Operation) -> bool {
    op is Delegation
}

pub open spec fn is_delegation_fn() -> spec_fn(Operation) -> bool {
    |op: Operation| is_delegation(op)
}

/// How many delegation operations the transaction holds.
pub open spec fn delegation_count(ops: Seq<Operation>) -> nat
    decreases ops.len(),
{
    if ops.len() == 0 {
        0
    } else {
        delegation_count(ops.drop_last()) + if is_delegation(ops.last()) {
            1nat
        } else {
            0nat
        }
    }
}

/// The delegator of the last delegation operation of `ops`.
pub open spec fn delegator_of(ops: Seq<Operation>) -> Address {
    let k = last_match(ops, is_delegation_fn());
    match ops[k] {
        Operation::Delegation(d) => d.pubkey,
        _ => arbitrary(),
    }
}

/// The amount a transaction pays into escrow for its one delegation operation.
pub open spec fn principal_result(tx: Transaction, owner: Address) -> Result<u64, LedgerError> {
    if stake_paid(tx, owner) > u64::MAX {
        Err(LedgerError::Overflow)
    } else if stake_paid(tx, owner) == 0 {
        Err(LedgerError::DelegationContextError)
    } else {
        Ok(stake_paid(tx, owner) as u64)
    }
}

/// The delegation check over a whole transaction: exactly one delegation
/// operation, paid for by its delegator.
pub open spec fn context_result(tx: Transaction) -> Result<u64, LedgerError> {
    if delegation_count(tx.operations@) != 1 {
        Err(LedgerError::DelegationContextError)
    } else {
        principal_result(tx, delegator_of(tx.operations@))
    }
}

pub fn single_owner_exec(recs: &Vec<TxOutput>, owner: &Address) -> (r: bool)
    ensures
        r == single_owner(recs@, *owner),
{
    if recs.len() == 0 {
        return false;
    }
    let mut i: usize = 0;
    while i < recs.len()
        invariant
            0 <= i <= recs@.len(),
            forall|j: int| 0 <= j < i ==> (#[trigger] recs@[j]).public_key == *owner,
        decreases recs@.len() - i,
    {
        if !recs[i].public_key.same(owner) {
            return false;
        }
        i = i + 1;
    }
    true
}

fn principal_amount_exec(o: &TxOutput, fra: &AssetTokenCode, principal: &Address) -> (r: u64)
    requires
        is_fra(*fra),
        is_principal(*principal),
    ensures
        r as nat == principal_amount(*o),
{
    match o.asset_type {
        XfrAssetType::NonConfidential(ty) => {
            let same_ty = ty.same(fra);
            let to_principal = o.public_key.same(principal);
            proof {
                if is_fra(ty) {
                    vstd::array::axiom_array_ext_equal(ty.val, fra.val);
                }
                if is_principal(o.public_key) {
                    vstd::array::axiom_array_ext_equal(o.public_key.key, principal.key);
                }
            }
            if same_ty && to_principal {
                match o.amount {
                    XfrAmount::NonConfidential(a) => a,
                    XfrAmount::Confidential(_) => 0,
                }
            } else {
                0
            }
        },
        XfrAssetType::Confidential(_) => 0,
    }
}

/// What one transfer's outputs pay into escrow, or `None` past `u64::MAX`.
fn outputs_paid(outs: &Vec<TxOutput>) -> (r: Option<u64>)
    ensures
        r matches Some(a) ==> a as nat == sum_nat(outs@, principal_amount_fn()),
        r is None ==> sum_nat(outs@, principal_amount_fn()) > u64::MAX,
{
    let fra = asset_type_fra();
    let principal = coinbase_principal_pk();
    let mut am: u64 = 0;
    let mut i: usize = 0;
    while i < outs.len()
        invariant
            0 <= i <= outs@.len(),
            is_fra(fra),
            is_principal(principal),
            am as nat == sum_nat(outs@.take(i as int), principal_amount_fn()),
        decreases outs@.len() - i,
    {
        let a = principal_amount_exec(&outs[i], &fra, &principal);
        proof {
            lemma_sum_nat_take(outs@, principal_amount_fn(), i as int);
        }
        match am.checked_add(a) {
            Some(x) => {
                am = x;
            },
            None => {
                proof {
                    lemma_sum_nat_prefix(outs@, principal_amount_fn(), i as int + 1);
                }
                return None;
            },
        }
        i = i + 1;
    }
    assert(outs@.take(i as int) =~= outs@);
    Some(am)
}

/// The stake that `tx` pays for `owner`: the sum, over the transfers whose inputs
/// all belong to `owner`, of their plain native-asset outputs to the
/// coinbase-principal key. It must be positive.
pub fn check_delegation_context_principal(tx: &Transaction, owner: &Address) -> (r: Result<
    u64,
    LedgerError,
>)
    ensures
        r == principal_result(*tx, *owner),
{
    let ghost f = paid_by_fn(*owner);
    let mut am: u64 = 0;
    let mut i: usize = 0;
    while i < tx.operations.len()
        invariant
            0 <= i <= tx.operations@.len(),
            f == paid_by_fn(*owner),
            am as nat == sum_nat(tx.operations@.take(i as int), f),
        decreases tx.operations@.len() - i,
    {
        proof {
            lemma_sum_nat_take(tx.operations@, f, i as int);
        }
        let mut part: u64 = 0;
        if let Operation::AssetTransfer(x) = &tx.operations[i] {
            if single_owner_exec(&x.body.input_records, owner) {
                match outputs_paid(&x.body.outputs) {
                    Some(p) => {
                        part = p;
                    },
                    None => {
                        proof {
                            lemma_sum_nat_prefix(tx.operations@, f, i as int + 1);
                        }
                        return Err(LedgerError::Overflow);
                    },
                }
            }
        }
        assert(part as nat == f(tx.operations@[i as int]));
        match am.checked_add(part) {
            Some(x) => {
                am = x;
            },
            None => {
                proof {
                    lemma_sum_nat_prefix(tx.operations@, f, i as int + 1);
                }
                return Err(LedgerError::Overflow);
            },
        }
        i = i + 1;
    }
    assert(tx.operations@.take(i as int) =~= tx.operations@);
    if am > 0 {
        Ok(am)
    } else {
        Err(LedgerError::DelegationContextError)
    }
}

/// Exactly one delegation operation, paid for by its delegator.
pub fn check_delegation_context(tx: &Transaction) -> (r: Result<u64, LedgerError>)
    ensures
        r == context_result(*tx),
{
    let mut count: usize = 0;
    let mut last: usize = 0;
    let mut i: usize = 0;
    while i < tx.operations.len()
        invariant
            0 <= i <= tx.operations@.len(),
            count <= i,
            count as nat == delegation_count(tx.operations@.take(i as int)),
            count > 0 ==> last < i && last as int == last_match(tx.operations@.take(i as int), is_delegation_fn()),
            count == 0 ==> last_match(tx.operations@.take(i as int), is_delegation_fn()) == -1,
        decreases tx.operations@.len() - i,
    {
        proof {
            lemma_last_match_take(tx.operations@, is_delegation_fn(), i as int);
            assert(is_delegation_fn()(tx.operations@[i as int]) == is_delegation(tx.operations@[i as int]));
            assert(tx.operations@.take(i as int + 1).drop_last() =~= tx.operations@.take(i as int));
        }
        if let Operation::Delegation(_) = &tx.operations[i] {
            count = count + 1;
            last = i;
        }
        i = i + 1;
    }
    assert(tx.operations@.take(i as int) =~= tx.operations@);
    if count != 1 {
        return Err(LedgerError::DelegationContextError);
    }
    proof {
        lemma_last_match(tx.operations@, is_delegation_fn());
        assert(is_delegation_fn()(tx.operations@[last as int]));
    }
    match &tx.operations[last] {
        Operation::Delegation(d) => check_delegation_context_principal(tx, &d.pubkey),
        _ => Err(LedgerError::DelegationContextError),
    }
}

/// A registered validator, under the hexadecimal form of its consensus address.
#[derive(Clone, Debug, PartialEq, Eq)]
pub struct ValidatorEntry {
    pub addr: String,
    pub validator: Validator,
    /// The height at which it bonded itself.
    pub start_height: u64,
}

/// The stake that one delegator has bonded to one validator.
#[derive(Clone, Debug, PartialEq, Eq)]
pub struct DelegationRecord {
    pub delegator: Address,
    pub validator: String,
    pub amount: u64,
}

/// The staking table: registered validators and bonded stake.
#[derive(Clone, Debug, PartialEq, Eq)]
pub struct Staking {
    pub cur_height: u64,
    pub validators: Vec<ValidatorEntry>,
    pub delegations: Vec<DelegationRecord>,
}

/// What a `Staking` table holds, as sequences.
pub struct StakingModel {
    pub cur_height: u64,
    pub validators: Seq<ValidatorEntry>,
    pub delegations: Seq<DelegationRecord>,
}

impl View for Staking {
    type V = StakingModel;

    open spec fn view(&self) -> StakingModel {
        StakingModel {
            cur_height: self.cur_height,
            validators: self.validators@,
            delegations: self.delegations@,
        }
    }
}

pub open spec fn validator_at_fn(addr: Seq<char>) -> spec_fn(ValidatorEntry) -> bool {
    |e: ValidatorEntry| e.addr@ == addr
}

pub open spec fn delegation_at_fn(d: Address, addr: Seq<char>) -> spec_fn(DelegationRecord) -> bool {
    |r: DelegationRecord| r.delegator == d && r.validator@ == addr
}

/// Where the validator registered under `addr` stands, or -1.
pub open spec fn validator_pos(m: StakingModel, addr: Seq<char>) -> int {
    last_match(m.validators, validator_at_fn(addr))
}

/// Where the record of `d`'s stake with the validator at `addr` stands, or -1.
pub open spec fn delegation_pos(m: StakingModel, d: Address, addr: Seq<char>) -> int {
    last_match(m.delegations, delegation_at_fn(d, addr))
}

/// The stake `d` has bonded to the validator at `addr`.
pub open spec fn stake_of(m: StakingModel, d: Address, addr: Seq<char>) -> nat {
    let k = delegation_pos(m, d, addr);
    if k >= 0 {
        m.delegations[k].amount as nat
    } else {
        0
    }
}

/// Bonding `am` from `d` to the validator at `addr`: both the delegator's stake
/// and the validator's power grow by `am`.
pub open spec fn delegate_result(m: StakingModel, d: Address, addr: String, am: u64) -> Result<
    StakingModel,
    LedgerError,
> {
    let v = validator_pos(m, addr@);
    let k = delegation_pos(m, d, addr@);
    if v < 0 {
        Err(LedgerError::StakingError)
    } else if m.validators[v].validator.td_power + am > u64::MAX {
        Err(LedgerError::Overflow)
    } else if k >= 0 && m.delegations[k].amount + am > u64::MAX {
        Err(LedgerError::Overflow)
    } else {
        let e = m.validators[v];
        let nv = Validator { td_power: (e.validator.td_power + am) as u64, ..e.validator };
        Ok(
            StakingModel {
                cur_height: m.cur_height,
                validators: m.validators.update(
                    v,
                    ValidatorEntry { addr: e.addr, validator: nv, start_height: e.start_height },
                ),
                delegations: if k >= 0 {
                    m.delegations.update(
                        k,
                        DelegationRecord {
                            delegator: d,
                            validator: m.delegations[k].validator,
                            amount: (m.delegations[k].amount + am) as u64,
                        },
                    )
                } else {
                    m.delegations.push(DelegationRecord { delegator: d, validator: addr, amount: am })
                },
            },
        )
    }
}

/// Registering a validator that bonds itself: it must be new, and it starts
/// with no power at the current height.
pub open spec fn register_result(m: StakingModel, addr: String, v: Validator) -> Result<
    StakingModel,
    LedgerError,
> {
    if validator_pos(m, addr@) >= 0 {
        Err(LedgerError::StakingError)
    } else {
        Ok(
            StakingModel {
                validators: m.validators.push(
                    ValidatorEntry {
                        addr,
                        validator: Validator { td_power: 0, ..v },
                        start_height: m.cur_height,
                    },
                ),
                ..m
            },
        )
    }
}

/// The effect of a checked delegation of `am` on the table.
pub open spec fn stake_result(m: StakingModel, op: DelegationOps, am: u64) -> Result<
    StakingModel,
    LedgerError,
> {
    match op.body.validator_staking {
        Some(v) => match register_result(m, op.body.validator, v) {
            Ok(m1) => delegate_result(m1, op.pubkey, op.body.validator, am),
            Err(e) => Err(e),
        },
        None => delegate_result(m, op.pubkey, op.body.validator, am),
    }
}

/// A delegation record's stake, when it is with the validator at `addr`.
pub open spec fn stake_to_fn(addr: Seq<char>) -> spec_fn(DelegationRecord) -> nat {
    |r: DelegationRecord| if r.validator@ == addr {
        r.amount as nat
    } else {
        0
    }
}

/// All the stake delegated to the validator at `addr`.
pub open spec fn staked_to(m: StakingModel, addr: Seq<char>) -> nat {
    sum_nat(m.delegations, stake_to_fn(addr))
}

/// Some validator is registered at `addr`.
pub open spec fn registered(vs: Seq<ValidatorEntry>, addr: Seq<char>) -> bool {
    exists|i: int| 0 <= i < vs.len() && (#[trigger] vs[i]).addr@ == addr
}

/// The invariant of a staking table: validators have distinct addresses,
/// every delegation is to a registered validator, and each validator's power
/// is the sum of the stakes delegated to it.
pub open spec fn staking_wf(m: StakingModel) -> bool {
    &&& forall|i: int, j: int|
        0 <= i < j < m.validators.len() ==> m.validators[i].addr@ != m.validators[j].addr@
    &&& forall|k: int|
        0 <= k < m.delegations.len() ==> registered(m.validators, (#[trigger] m.delegations[k]).validator@)
    &&& forall|i: int|
        0 <= i < m.validators.len() ==> staked_to(m, (#[trigger] m.validators[i]).addr@)
            == m.validators[i].validator.td_power
}

proof fn lemma_sum_update<A>(s: Seq<A>, f: spec_fn(A) -> nat, k: int, x: A)
    requires
        0 <= k < s.len(),
    ensures
        sum_nat(s.update(k, x), f) + f(s[k]) == sum_nat(s, f) + f(x),
    decreases s.len(),
{
    let u = s.update(k, x);
    if k == s.len() - 1 {
        assert(u.drop_last() =~= s.drop_last());
    } else {
        assert(u.drop_last() =~= s.drop_last().update(k, x));
        lemma_sum_update(s.drop_last(), f, k, x);
    }
}

proof fn lemma_sum_zero<A>(s: Seq<A>, f: spec_fn(A) -> nat)
    requires
        forall|i: int| 0 <= i < s.len() ==> f(#[trigger] s[i]) == 0,
    ensures
        sum_nat(s, f) == 0,
    decreases s.len(),
{
    if s.len() > 0 {
        let t = s.drop_last();
        assert forall|i: int| 0 <= i < t.len() implies f(#[trigger] t[i]) == 0 by {
            assert(t[i] == s[i]);
        }
        lemma_sum_zero(t, f);
        assert(f(s[s.len() - 1]) == 0);
    }
}

proof fn lemma_register_wf(m: StakingModel, addr: String, v: Validator)
    requires
        staking_wf(m),
        register_result(m, addr, v) is Ok,
    ensures
        staking_wf(register_result(m, addr, v)->Ok_0),
{
    let m2 = register_result(m, addr, v)->Ok_0;
    lemma_last_match(m.validators, validator_at_fn(addr@));
    assert forall|i: int| 0 <= i < m.validators.len() implies (#[trigger] m.validators[i]).addr@ != addr@ by {
        assert(!validator_at_fn(addr@)(m.validators[i]));
    }
    assert forall|k: int| 0 <= k < m.delegations.len() implies (#[trigger] m.delegations[k]).validator@ != addr@ by {
        assert(registered(m.validators, m.delegations[k].validator@));
    }
    lemma_sum_zero(m.delegations, stake_to_fn(addr@));
    assert forall|k: int| 0 <= k < m2.delegations.len() implies registered(
        m2.validators,
        (#[trigger] m2.delegations[k]).validator@,
    ) by {
        assert(registered(m.validators, m.delegations[k].validator@));
        let i = choose|i: int| 0 <= i < m.validators.len() && (#[trigger] m.validators[i]).addr@
            == m.delegations[k].validator@;
        assert(m2.validators[i] == m.validators[i]);
    }
    assert forall|i: int| 0 <= i < m2.validators.len() implies staked_to(m2, (#[trigger] m2.validators[i]).addr@)
        == m2.validators[i].validator.td_power by {
        if i < m.validators.len() {
            assert(m2.validators[i] == m.validators[i]);
        }
    }
}

proof fn lemma_delegate_wf(m: StakingModel, d: Address, addr: String, am: u64)
    requires
        staking_wf(m),
        delegate_result(m, d, addr, am) is Ok,
    ensures
        staking_wf(delegate_result(m, d, addr, am)->Ok_0),
{
    let m2 = delegate_result(m, d, addr, am)->Ok_0;
    let v = validator_pos(m, addr@);
    let k = delegation_pos(m, d, addr@);
    lemma_last_match(m.validators, validator_at_fn(addr@));
    lemma_last_match(m.delegations, delegation_at_fn(d, addr@));
    assert(m.validators[v].addr@ == addr@);
    assert forall|i: int| 0 <= i < m2.validators.len() implies (#[trigger] m2.validators[i]).addr@
        == m.validators[i].addr@ by {}
    assert forall|k2: int| 0 <= k2 < m2.delegations.len() implies registered(
        m2.validators,
        (#[trigger] m2.delegations[k2]).validator@,
    ) by {
        if k2 < m.delegations.len() && (k < 0 || k2 != k) {
            assert(m2.delegations[k2] == m.delegations[k2]);
            assert(registered(m.validators, m.delegations[k2].validator@));
            let i = choose|i: int| 0 <= i < m.validators.len() && (#[trigger] m.validators[i]).addr@
                == m.delegations[k2].validator@;
            assert(m2.validators[i].addr@ == m.validators[i].addr@);
        } else {
            assert(m2.validators[v].addr@ == addr@);
        }
    }
    assert forall|i: int| 0 <= i < m2.validators.len() implies staked_to(m2, (#[trigger] m2.validators[i]).addr@)
        == m2.validators[i].validator.td_power by {
        let a = m.validators[i].addr@;
        let f = stake_to_fn(a);
        assert(staked_to(m, m.validators[i].addr@) == m.validators[i].validator.td_power);
        if k >= 0 {
            let rec = DelegationRecord {
                delegator: d,
                validator: m.delegations[k].validator,
                amount: (m.delegations[k].amount + am) as u64,
            };
            lemma_sum_update(m.delegations, f, k, rec);
        } else {
            let rec = DelegationRecord { delegator: d, validator: addr, amount: am };
            assert(m2.delegations.drop_last() =~= m.delegations);
        }
        if i != v {
            assert(a != addr@);
        }
    }
}

/// Checked delegations keep the staking table's invariant.
pub proof fn lemma_stake_wf(m: StakingModel, op: DelegationOps, am: u64)
    requires
        staking_wf(m),
        stake_result(m, op, am) is Ok,
    ensures
        staking_wf(stake_result(m, op, am)->Ok_0),
{
    match op.body.validator_staking {
        Some(v) => {
            lemma_register_wf(m, op.body.validator, v);
            lemma_delegate_wf(
                register_result(m, op.body.validator, v)->Ok_0,
                op.pubkey,
                op.body.validator,
                am,
            );
        },
        None => {
            lemma_delegate_wf(m, op.pubkey, op.body.validator, am);
        },
    }
}

impl Staking {
    pub fn new(cur_height: u64) -> (r: Staking)
        ensures
            r@.cur_height == cur_height,
            r@.validators.len() == 0,
            r@.delegations.len() == 0,
            staking_wf(r@),
    {
        Staking { cur_height, validators: Vec::new(), delegations: Vec::new() }
    }

    /// Sets the height at which validators that bond themselves are registered.
    pub fn set_custom_block_height(&mut self, h: u64)
        ensures
            final(self)@ == (StakingModel { cur_height: h, ..old(self)@ }),
    {
        self.cur_height = h;
    }

    pub fn validator_index(&self, addr: &String) -> (r: Option<usize>)
        ensures
            match r {
                Some(i) => i as int == validator_pos(self@, addr@),
                None => validator_pos(self@, addr@) == -1,
            },
    {
        let ghost p = validator_at_fn(addr@);
        let mut found: Option<usize> = None;
        let mut i: usize = 0;
        while i < self.validators.len()
            invariant
                0 <= i <= self.validators@.len(),
                p == validator_at_fn(addr@),
                match found {
                    Some(j) => j as int == last_match(self.validators@.take(i as int), p),
                    None => last_match(self.validators@.take(i as int), p) == -1,
                },
            decreases self.validators@.len() - i,
        {
            proof {
                lemma_last_match_take(self.validators@, p, i as int);
            }
            if self.validators[i].addr == *addr {
                found = Some(i);
            }
            i = i + 1;
        }
        assert(self.validators@.take(i as int) =~= self.validators@);
        found
    }

    pub fn delegation_index(&self, d: &Address, addr: &String) -> (r: Option<usize>)
        ensures
            match r {
                Some(i) => i as int == delegation_pos(self@, *d, addr@),
                None => delegation_pos(self@, *d, addr@) == -1,
            },
    {
        let ghost p = delegation_at_fn(*d, addr@);
        let mut found: Option<usize> = None;
        let mut i: usize = 0;
        while i < self.delegations.len()
            invariant
                0 <= i <= self.delegations@.len(),
                p == delegation_at_fn(*d, addr@),
                match found {
                    Some(j) => j as int == last_match(self.delegations@.take(i as int), p),
                    None => last_match(self.delegations@.take(i as int), p) == -1,
                },
            decreases self.delegations@.len() - i,
        {
            proof {
                lemma_last_match_take(self.delegations@, p, i as int);
            }
            let r = &self.delegations[i];
            if r.delegator.same(d) && r.validator == *addr {
                found = Some(i);
            }
            i = i + 1;
        }
        assert(self.delegations@.take(i as int) =~= self.delegations@);
        found
    }

    /// Bonds `am` from `d` to the validator at `addr`; on failure nothing changes.
    pub fn delegate(&mut self, d: &Address, addr: &String, am: u64) -> (r: Result<(), LedgerError>)
        ensures
            match delegate_result(old(self)@, *d, *addr, am) {
                Ok(m) => r is Ok && final(self)@ == m,
                Err(e) => r == Err::<(), LedgerError>(e) && final(self)@ == old(self)@,
            },
            staking_wf(old(self)@) ==> staking_wf(final(self)@),
    {
        proof {
            if staking_wf(old(self)@) && delegate_result(old(self)@, *d, *addr, am) is Ok {
                lemma_delegate_wf(old(self)@, *d, *addr, am);
            }
        }
        let v = match self.validator_index(addr) {
            Some(v) => v,
            None => {
                return Err(LedgerError::StakingError);
            },
        };
        proof {
            lemma_last_match(self.validators@, validator_at_fn(addr@));
        }
        let k = self.delegation_index(d, addr);
        proof {
            lemma_last_match(self.delegations@, delegation_at_fn(*d, addr@));
        }
        let power = match self.validators[v].validator.td_power.checked_add(am) {
            Some(p) => p,
            None => {
                return Err(LedgerError::Overflow);
            },
        };
        let amount = match k {
            Some(k) => match self.delegations[k].amount.checked_add(am) {
                Some(a) => a,
                None => {
                    return Err(LedgerError::Overflow);
                },
            },
            None => am,
        };
        let e = &self.validators[v];
        let ne = ValidatorEntry {
            addr: e.addr.clone(),
            validator: Validator { td_power: power, ..e.validator },
            start_height: e.start_height,
        };
        self.validators.set(v, ne);
        match k {
            Some(k) => {
                let nr = DelegationRecord {
                    delegator: *d,
                    validator: self.delegations[k].validator.clone(),
                    amount,
                };
                self.delegations.set(k, nr);
            },
            None => {
                self.delegations.push(DelegationRecord { delegator: *d, validator: addr.clone(), amount });
            },
        }
        assert(self@.validators =~= delegate_result(old(self)@, *d, *addr, am)->Ok_0.validators);
        assert(self@.delegations =~= delegate_result(old(self)@, *d, *addr, am)->Ok_0.delegations);
        Ok(())
    }

    /// Registers a validator that bonds itself under `addr`; on failure nothing changes.
    pub fn register(&mut self, addr: &String, v: &Validator) -> (r: Result<(), LedgerError>)
        ensures
            match register_result(old(self)@, *addr, *v) {
                Ok(m) => r is Ok && final(self)@ == m,
                Err(e) => r == Err::<(), LedgerError>(e) && final(self)@ == old(self)@,
            },
            staking_wf(old(self)@) ==> staking_wf(final(self)@),
    {
        proof {
            if staking_wf(old(self)@) && register_result(old(self)@, *addr, *v) is Ok {
                lemma_register_wf(old(self)@, *addr, *v);
            }
        }
        if self.validator_index(addr).is_some() {
            return Err(LedgerError::StakingError);
        }
        let e = ValidatorEntry {
            addr: addr.clone(),
            validator: Validator { td_power: 0, ..*v },
            start_height: self.cur_height,
        };
        self.validators.push(e);
        Ok(())
    }

    /// The effect of a checked delegation of `am`; on failure nothing changes.
    pub fn apply_delegation(&mut self, op: &DelegationOps, am: u64) -> (r: Result<(), LedgerError>)
        ensures
            match stake_result(old(self)@, *op, am) {
                Ok(m) => r is Ok && final(self)@ == m,
                Err(e) => r == Err::<(), LedgerError>(e) && final(self)@ == old(self)@,
            },
            staking_wf(old(self)@) ==> staking_wf(final(self)@),
    {
        proof {
            if staking_wf(old(self)@) && stake_result(old(self)@, *op, am) is Ok {
                lemma_stake_wf(old(self)@, *op, am);
            }
        }
        match &op.body.validator_staking {
            Some(v) => {
                self.register(&op.body.validator, v)?;
                let r = self.delegate(&op.pubkey, &op.body.validator, am);
                if r.is_err() {
                    self.validators.pop();
                    assert(self@.validators =~= old(self)@.validators);
                }
                r
            },
            None => self.delegate(&op.pubkey, &op.body.validator, am),
        }
    }
}

/// A validator record is well formed when its commission is a fraction of at most one.
pub open spec fn validator_basic_valid(v: Validator) -> bool {
    v.commission_rate[1] > 0 && v.commission_rate[0] <= v.commission_rate[1]
}

/// The checks a delegation passes without the ledger: the delegator's signature,
/// the payment around it in `tx`, and, for a validator that bonds itself, the
/// minimum stake, the address and the record's shape. The stake on success.
pub open spec fn delegation_check_result(op: DelegationOps, tx: Transaction) -> Result<
    u64,
    LedgerError,
> {
    if !signature_valid(op.pubkey.key@, data_bytes(op.body), op.signature@) {
        Err(LedgerError::SignatureError)
    } else {
        match context_result(tx) {
            Err(e) => Err(e),
            Ok(am) => match op.body.validator_staking {
                Some(v) => if !validator_basic_valid(v) || am < STAKING_VALIDATOR_MIN_POWER
                    || op.body.validator@ != hex_upper(v.td_addr@) {
                    Err(LedgerError::StakingError)
                } else {
                    Ok(am)
                },
                None => Ok(am),
            },
        }
    }
}

/// A delegation checked within `tx` and then bonded on the table.
pub open spec fn delegation_apply_result(m: StakingModel, op: DelegationOps, tx: Transaction) -> Result<
    StakingModel,
    LedgerError,
> {
    match delegation_check_result(op, tx) {
        Ok(am) => stake_result(m, op, am),
        Err(e) => Err(e),
    }
}

impl Validator {
    pub fn staking_is_basic_valid(&self) -> (r: bool)
        ensures
            r == validator_basic_valid(*self),
    {
        self.commission_rate[1] > 0 && self.commission_rate[0] <= self.commission_rate[1]
    }
}

impl Data {
    pub fn new(v: String, nonce: u64) -> (r: Data)
        ensures
            r.validator == v,
            r.validator_staking is None,
            r.nonce == nonce,
    {
        Data { validator: v, validator_staking: None, nonce }
    }

    /// The bytes a delegator signs.
    pub fn to_bytes(&self) -> (r: Vec<u8>)
        ensures
            r@ == data_bytes(*self),
    {
        let mut out: Vec<u8> = Vec::new();
        push_data(&mut out, self);
        assert(out@ =~= data_bytes(*self));
        out
    }

    pub fn set_nonce(&mut self, nonce: u64)
        ensures
            *final(self) == (Data { nonce, ..*old(self) }),
    {
        self.nonce = nonce;
    }

    pub fn get_nonce(&self) -> (r: u64)
        ensures
            r == self.nonce,
    {
        self.nonce
    }
}

impl DelegationOps {
    /// A delegation to `validator`, signed with the 32-byte secret key `sk`.
    pub fn new(sk: &[u8; 32], validator: String, nonce: u64) -> (r: DelegationOps)
        ensures
            r.body == (Data { validator, validator_staking: None, nonce }),
            r.pubkey.key@ == public_key_of(sk@),
            r.signature@ == signature_of(sk@, data_bytes(r.body)),
    {
        let body = Data::new(validator, nonce);
        let bytes = body.to_bytes();
        let signature = sign(sk, bytes.as_slice());
        DelegationOps { body, pubkey: Address { key: public_key(sk) }, signature }
    }

    pub fn set_nonce(&mut self, nonce: u64)
        ensures
            final(self).body == (Data { nonce, ..old(self).body }),
            final(self).pubkey == old(self).pubkey,
            final(self).signature == old(self).signature,
    {
        self.body.set_nonce(nonce);
    }

    pub fn get_nonce(&self) -> (r: u64)
        ensures
            r == self.body.nonce,
    {
        self.body.get_nonce()
    }

    pub fn get_related_pubkeys(&self) -> (r: Vec<Address>)
        ensures
            r@ == seq![self.pubkey],
    {
        let r = vec![self.pubkey];
        assert(r@ =~= seq![self.pubkey]);
        r
    }

    /// Whether the delegator signed the body.
    pub fn verify(&self) -> (r: Result<(), LedgerError>)
        ensures
            r is Ok <==> signature_valid(self.pubkey.key@, data_bytes(self.body), self.signature@),
            r is Err ==> r == Err::<(), LedgerError>(LedgerError::SignatureError),
    {
        let bytes = self.body.to_bytes();
        if verify_signature(&self.pubkey.key, bytes.as_slice(), &self.signature) {
            Ok(())
        } else {
            Err(LedgerError::SignatureError)
        }
    }

    /// Everything about this delegation that `tx` alone decides; the stake on success.
    pub fn check(&self, tx: &Transaction) -> (r: Result<u64, LedgerError>)
        ensures
            r == delegation_check_result(*self, *tx),
    {
        self.verify()?;
        let am = check_delegation_context(tx)?;
        if let Some(v) = &self.body.validator_staking {
            let addr = to_hex_upper(&v.td_addr);
            if !v.staking_is_basic_valid() || am < STAKING_VALIDATOR_MIN_POWER || self.body.validator
                != addr {
                return Err(LedgerError::StakingError);
            }
        }
        Ok(am)
    }

    /// Checks this delegation within `tx` and bonds its stake; on failure the
    /// table is unchanged.
    pub fn apply(&self, staking: &mut Staking, tx: &Transaction) -> (r: Result<(), LedgerError>)
        ensures
            match delegation_apply_result(old(staking)@, *self, *tx) {
                Ok(m) => r is Ok && final(staking)@ == m,
                Err(e) => r == Err::<(), LedgerError>(e) && final(staking)@ == old(staking)@,
            },
            staking_wf(old(staking)@) ==> staking_wf(final(staking)@),
    {
        let am = self.check(tx)?;
        staking.apply_delegation(self, am)
    }

    /// Runs the delegation against a staking simulator.
    pub fn check_run(&self, staking_simulator: &mut Staking, tx: &Transaction) -> (r: Result<
        (),
        LedgerError,
    >)
        ensures
            match delegation_apply_result(old(staking_simulator)@, *self, *tx) {
                Ok(m) => r is Ok && final(staking_simulator)@ == m,
                Err(e) => r == Err::<(), LedgerError>(e) && final(staking_simulator)@ == old(
                    staking_simulator,
                )@,
            },
            staking_wf(old(staking_simulator)@) ==> staking_wf(final(staking_simulator)@),
    {
        self.apply(staking_simulator, tx)
    }
}

} // verus!
