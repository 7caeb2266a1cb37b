use sha2::Digest;
use ed25519_dalek::{Signer, SigningKey};
use findora_ledger::abci::app_hash;
use findora_ledger::data_model::{
    Address, AssetCreation, AssetCreationBody, AssetIssuance, AssetIssuanceBody, AssetTokenCode,
    AssetTokenProperties, AssetTransfer, AssetTransferBody, Data, DelegationOps, LedgerSignature,
    Operation, Transaction, TxOutput, TxSequenceNumber, UtxoAddress, Validator, XfrAmount,
    XfrAssetType,
};
use findora_ledger::error::LedgerError;
use findora_ledger::precompile::{ensure_linear_cost, ExitError};
use findora_ledger::staking::{check_delegation_context, check_delegation_context_principal, Staking};
use findora_ledger::store::{LedgerAccess, LedgerState, LedgerUpdate, TxnEffect};

const FRA: [u8; 16] = [0; 16];
const PRINCIPAL: [u8; 32] = [1; 32];

fn keys(seed: u8) -> (Address, SigningKey) {
    let sk = SigningKey::from_bytes(&[seed; 32]);
    (Address { key: sk.verifying_key().to_bytes() }, sk)
}

fn plain(owner: &Address, amount: u64, code: [u8; 16]) -> TxOutput {
    TxOutput {
        public_key: *owner,
        amount: XfrAmount::NonConfidential(amount),
        asset_type: XfrAssetType::NonConfidential(AssetTokenCode { val: code }),
    }
}

fn create(pk: &Address, sk: &SigningKey, code: [u8; 16]) -> Operation {
    let body = AssetCreationBody {
        properties: AssetTokenProperties {
            code: AssetTokenCode { val: code },
            issuer: *pk,
            memo: String::new(),
            confidential_memo: String::new(),
            updatable: false,
            asset_type: String::from("token"),
        },
    };
    let signature = sk.sign(&body.to_bytes()).to_bytes();
    Operation::AssetCreation(AssetCreation { body, body_signature: LedgerSignature { address: *pk, signature } })
}

fn issue(pk: &Address, sk: &SigningKey, code: [u8; 16], seq_num: u128, outputs: Vec<TxOutput>) -> Operation {
    let body = AssetIssuanceBody { seq_num, code: AssetTokenCode { val: code }, outputs };
    let signature = sk.sign(&body.to_bytes()).to_bytes();
    Operation::AssetIssuance(AssetIssuance { body, body_signature: LedgerSignature { address: *pk, signature } })
}

fn transfer(inputs: Vec<UtxoAddress>, input_records: Vec<TxOutput>, outputs: Vec<TxOutput>, signers: &[(Address, &SigningKey)]) -> Operation {
    let body = AssetTransferBody { inputs, input_records, outputs };
    let bytes = body.to_bytes();
    let body_signatures = signers
        .iter()
        .map(|(pk, sk)| LedgerSignature { address: *pk, signature: sk.sign(&bytes).to_bytes() })
        .collect();
    Operation::AssetTransfer(AssetTransfer { body, body_signatures })
}

fn delegation(pk: &Address, sk: &SigningKey, validator: String, staking: Option<Validator>) -> Operation {
    let body = Data { validator, validator_staking: staking, nonce: 0 };
    let signature = sk.sign(&body.to_bytes()).to_bytes();
    Operation::Delegation(DelegationOps { body, pubkey: *pk, signature })
}

fn txn(ops: Vec<Operation>, token: u64) -> Transaction {
    Transaction { operations: ops, no_replay_token: token }
}

fn addr(t: u64, op: u16, out: u16) -> UtxoAddress {
    UtxoAddress { transaction_id: TxSequenceNumber { val: t }, operation_index: op, output_index: out }
}

/// Commits one block holding `txs`; the first rejected transaction's error aborts it.
fn commit(state: &mut LedgerState, txs: Vec<Transaction>) -> Result<(), LedgerError> {
    let mut block = state.start_block()?;
    for tx in txs {
        let r = TxnEffect::compute(tx).and_then(|e| state.apply_transaction(&mut block, e));
        if let Err(e) = r {
            state.abort_block(block);
            return Err(e);
        }
    }
    state.finish_block(block).map(|_| ())
}

fn balance(state: &LedgerState, owner: &Address, addrs: &[UtxoAddress]) -> u64 {
    addrs
        .iter()
        .filter_map(|a| state.check_utxo(a))
        .filter(|u| u.output.public_key == *owner)
        .map(|u| match u.output.amount {
            XfrAmount::NonConfidential(x) => x,
            XfrAmount::Confidential(_) => 0,
        })
        .sum()
}

#[test]
fn asset_creation_round_trip_changes_commitment() {
    let (pk, sk) = keys(10);
    let mut state = LedgerState::new();
    let before = state.get_state_commitment();
    commit(&mut state, vec![txn(vec![create(&pk, &sk, [1; 16])], 1)]).unwrap();
    let token = state.get_asset_token(&AssetTokenCode { val: [1; 16] }).unwrap();
    assert_eq!(token.units, 0);
    assert_eq!(token.properties.issuer, pk);
    let after = state.get_state_commitment();
    assert_ne!(after.0, before.0);
    assert_eq!(after.1, 1);
}

#[test]
fn duplicate_asset_creation_is_rejected() {
    let (pk, sk) = keys(10);
    let mut state = LedgerState::new();
    commit(&mut state, vec![txn(vec![create(&pk, &sk, [1; 16])], 1)]).unwrap();
    assert_eq!(commit(&mut state, vec![txn(vec![create(&pk, &sk, [1; 16])], 2)]), Err(LedgerError::DuplicateAssetError));
}

#[test]
fn issuance_replay_is_rejected() {
    let (pk, sk) = keys(10);
    let code = [5; 16];
    let mut state = LedgerState::new();
    commit(&mut state, vec![txn(vec![create(&pk, &sk, code)], 1)]).unwrap();
    commit(&mut state, vec![txn(vec![issue(&pk, &sk, code, 5, vec![plain(&pk, 100, code)])], 2)]).unwrap();
    let again = commit(&mut state, vec![txn(vec![issue(&pk, &sk, code, 5, vec![plain(&pk, 100, code)])], 3)]);
    assert_eq!(again, Err(LedgerError::ReplayError));
    let u = state.check_utxo(&addr(1, 0, 0)).unwrap();
    assert_eq!(u.output, plain(&pk, 100, code));
    assert_eq!(state.get_asset_token(&AssetTokenCode { val: code }).unwrap().units, 100);
}

#[test]
fn issuance_by_other_key_and_of_unknown_asset_fail() {
    let (pk, sk) = keys(10);
    let (pk2, sk2) = keys(11);
    let code = [5; 16];
    let mut state = LedgerState::new();
    assert_eq!(commit(&mut state, vec![txn(vec![issue(&pk, &sk, code, 1, vec![])], 1)]), Err(LedgerError::UnknownAssetError));
    commit(&mut state, vec![txn(vec![create(&pk, &sk, code)], 1)]).unwrap();
    assert_eq!(commit(&mut state, vec![txn(vec![issue(&pk2, &sk2, code, 1, vec![])], 2)]), Err(LedgerError::SignatureError));
}

#[test]
fn hidden_issuance_is_unsupported() {
    let (pk, sk) = keys(10);
    let code = [5; 16];
    let mut state = LedgerState::new();
    commit(&mut state, vec![txn(vec![create(&pk, &sk, code)], 1)]).unwrap();
    let hidden = TxOutput { public_key: pk, amount: XfrAmount::Confidential([3; 32]), asset_type: XfrAssetType::NonConfidential(AssetTokenCode { val: code }) };
    assert_eq!(commit(&mut state, vec![txn(vec![issue(&pk, &sk, code, 1, vec![hidden])], 2)]), Err(LedgerError::Unsupported));
}

fn funded(owner: &Address, amount: u64) -> LedgerState {
    let (ipk, isk) = keys(20);
    let mut state = LedgerState::new();
    commit(&mut state, vec![txn(vec![create(&ipk, &isk, FRA)], 1)]).unwrap();
    commit(&mut state, vec![txn(vec![issue(&ipk, &isk, FRA, 1, vec![plain(owner, amount, FRA)])], 2)]).unwrap();
    state
}

#[test]
fn transfer_moves_outputs_and_conserves_count() {
    let (pk, sk) = keys(30);
    let (pk2, _) = keys(31);
    let mut state = funded(&pk, 500);
    let op = transfer(vec![addr(1, 0, 0)], vec![plain(&pk, 500, FRA)], vec![plain(&pk2, 200, FRA), plain(&pk, 300, FRA)], &[(pk, &sk)]);
    commit(&mut state, vec![txn(vec![op], 3)]).unwrap();
    assert!(state.check_utxo(&addr(1, 0, 0)).is_none());
    assert_eq!(state.check_utxo(&addr(2, 0, 0)).unwrap().output, plain(&pk2, 200, FRA));
    assert_eq!(state.check_utxo(&addr(2, 0, 1)).unwrap().output, plain(&pk, 300, FRA));
    assert!(state.check_utxo(&addr(2, 0, 2)).is_none());
}

#[test]
fn unbalanced_or_unsigned_transfer_fails() {
    let (pk, sk) = keys(30);
    let (pk2, sk2) = keys(31);
    let mut state = funded(&pk, 500);
    let unbalanced = transfer(vec![addr(1, 0, 0)], vec![plain(&pk, 500, FRA)], vec![plain(&pk2, 501, FRA)], &[(pk, &sk)]);
    assert_eq!(commit(&mut state, vec![txn(vec![unbalanced], 3)]), Err(LedgerError::InconsistentOperation));
    let unsigned = transfer(vec![addr(1, 0, 0)], vec![plain(&pk, 500, FRA)], vec![plain(&pk2, 500, FRA)], &[(pk2, &sk2)]);
    assert_eq!(commit(&mut state, vec![txn(vec![unsigned], 3)]), Err(LedgerError::SignatureError));
    let missing = transfer(vec![addr(9, 0, 0)], vec![plain(&pk, 500, FRA)], vec![plain(&pk2, 500, FRA)], &[(pk, &sk)]);
    assert_eq!(commit(&mut state, vec![txn(vec![missing], 3)]), Err(LedgerError::MissingInputError));
}

#[test]
fn no_double_spend_within_or_across_blocks() {
    let (pk, sk) = keys(30);
    let (pk2, _) = keys(31);
    let mut state = funded(&pk, 500);
    let spend = |token| txn(vec![transfer(vec![addr(1, 0, 0)], vec![plain(&pk, 500, FRA)], vec![plain(&pk2, 500, FRA)], &[(pk, &sk)])], token);
    assert_eq!(commit(&mut state, vec![spend(3), spend(4)]), Err(LedgerError::MissingInputError));
    commit(&mut state, vec![spend(3)]).unwrap();
    assert_eq!(commit(&mut state, vec![spend(4)]), Err(LedgerError::MissingInputError));
    let twice = txn(vec![transfer(vec![addr(1, 0, 0), addr(1, 0, 0)], vec![plain(&pk, 500, FRA), plain(&pk, 500, FRA)], vec![plain(&pk2, 1000, FRA)], &[(pk, &sk)])], 5);
    assert_eq!(commit(&mut funded(&pk, 500), vec![twice]), Err(LedgerError::MissingInputError));
}

#[test]
fn sequence_numbers_run_on_across_blocks() {
    let (pk, sk) = keys(10);
    let mut state = LedgerState::new();
    let mut block = state.start_block().unwrap();
    let e0 = TxnEffect::compute(txn(vec![create(&pk, &sk, [1; 16])], 1)).unwrap();
    let e1 = TxnEffect::compute(txn(vec![issue(&pk, &sk, [1; 16], 1, vec![plain(&pk, 1, [1; 16]), plain(&pk, 2, [1; 16])])], 2)).unwrap();
    assert_eq!(state.apply_transaction(&mut block, e0).unwrap().0, 0);
    assert_eq!(state.apply_transaction(&mut block, e1).unwrap().0, 1);
    let done = state.finish_block(block).unwrap();
    assert_eq!(done.len(), 2);
    assert_eq!(done[0].0 .0, 0);
    assert!(done[0].1.is_empty());
    assert_eq!(done[1].0 .0, 1);
    assert_eq!(done[1].1, vec![addr(1, 0, 0), addr(1, 0, 1)]);
    let mut block = state.start_block().unwrap();
    let e2 = TxnEffect::compute(txn(vec![], 3)).unwrap();
    let e3 = TxnEffect::compute(txn(vec![issue(&pk, &sk, [1; 16], 2, vec![plain(&pk, 3, [1; 16])]), issue(&pk, &sk, [1; 16], 3, vec![plain(&pk, 4, [1; 16])])], 4)).unwrap();
    assert_eq!(state.apply_transaction(&mut block, e2).unwrap().0, 0);
    assert_eq!(state.apply_transaction(&mut block, e3).unwrap().0, 1);
    let done = state.finish_block(block).unwrap();
    assert_eq!(done[0].0 .0, 2);
    assert_eq!(done[1].0 .0, 3);
    assert_eq!(done[1].1, vec![addr(3, 0, 0), addr(3, 1, 0)]);
    assert_eq!(state.get_asset_token(&AssetTokenCode { val: [1; 16] }).unwrap().units, 10);
}

#[test]
fn second_block_cannot_open_and_finish_needs_open_block() {
    let mut state = LedgerState::new();
    let block = state.start_block().unwrap();
    assert!(matches!(state.start_block(), Err(LedgerError::CapacityError)));
    state.abort_block(block);
    let block = state.start_block().unwrap();
    state.finish_block(block).unwrap();
    let stale = {
        let b = state.start_block().unwrap();
        state.abort_block(LedgerState::new().start_block().unwrap());
        b
    };
    assert!(matches!(state.finish_block(stale), Err(LedgerError::CapacityError)));
}

#[test]
fn stale_block_is_dropped_as_invariant_violation() {
    let (pk, sk) = keys(10);
    let mut state = LedgerState::new();
    let stale = state.start_block().unwrap();
    state.abort_block(LedgerState::new().start_block().unwrap());
    let mut fresh = state.start_block().unwrap();
    let e = TxnEffect::compute(txn(vec![create(&pk, &sk, [1; 16])], 1)).unwrap();
    state.apply_transaction(&mut fresh, e).unwrap();
    state.finish_block(fresh).unwrap();
    let _open = state.start_block().unwrap();
    let before = state.get_state_commitment();
    assert!(matches!(state.finish_block(stale), Err(LedgerError::InvariantViolation)));
    assert_eq!(state.get_state_commitment(), before);
    assert!(state.start_block().is_ok());
}

#[test]
fn issuance_past_u64_units_overflows() {
    let (pk, sk) = keys(10);
    let code = [6; 16];
    let mut state = LedgerState::new();
    commit(&mut state, vec![txn(vec![create(&pk, &sk, code)], 1)]).unwrap();
    commit(&mut state, vec![txn(vec![issue(&pk, &sk, code, 1, vec![plain(&pk, u64::MAX, code)])], 2)]).unwrap();
    let more = commit(&mut state, vec![txn(vec![issue(&pk, &sk, code, 2, vec![plain(&pk, 1, code)])], 3)]);
    assert_eq!(more, Err(LedgerError::Overflow));
    assert_eq!(state.get_asset_token(&AssetTokenCode { val: code }).unwrap().units, u64::MAX);
}

#[test]
fn abort_leaves_state_and_commitment() {
    let (pk, sk) = keys(10);
    let mut state = LedgerState::new();
    commit(&mut state, vec![txn(vec![create(&pk, &sk, [1; 16])], 1)]).unwrap();
    let before = state.get_state_commitment();
    let mut block = state.start_block().unwrap();
    let e = TxnEffect::compute(txn(vec![create(&pk, &sk, [2; 16])], 2)).unwrap();
    state.apply_transaction(&mut block, e).unwrap();
    state.abort_block(block);
    assert_eq!(state.get_state_commitment(), before);
    assert!(state.get_asset_token(&AssetTokenCode { val: [2; 16] }).is_none());
    assert!(state.get_asset_token(&AssetTokenCode { val: [1; 16] }).is_some());
}

#[test]
fn same_stream_gives_same_commitment() {
    let (pk, sk) = keys(10);
    let stream = vec![
        vec![txn(vec![create(&pk, &sk, [1; 16])], 1)],
        vec![txn(vec![issue(&pk, &sk, [1; 16], 1, vec![plain(&pk, 9, [1; 16])])], 2), txn(vec![], 3)],
    ];
    let mut a = LedgerState::new();
    let mut b = LedgerState::new();
    for blk in stream.clone() {
        commit(&mut a, blk.clone()).unwrap();
        commit(&mut b, blk).unwrap();
        assert_eq!(a.get_state_commitment(), b.get_state_commitment());
    }
    let mut c = LedgerState::new();
    commit(&mut c, vec![txn(vec![create(&pk, &sk, [1; 16])], 7)]).unwrap();
    assert_ne!(c.get_state_commitment().0, {
        let mut d = LedgerState::new();
        commit(&mut d, stream[0].clone()).unwrap();
        d.get_state_commitment().0
    });
}

fn validator() -> (Validator, String) {
    let (id, _) = keys(40);
    let v = Validator { td_addr: [0xAB; 20], td_power: 0, commission_rate: [1, 100], id };
    (v, hex::encode_upper([0xAB; 20]))
}

#[test]
fn delegation_with_payment_bonds_stake() {
    let (pk_d, sk_d) = keys(50);
    let principal = Address { key: PRINCIPAL };
    let mut state = funded(&pk_d, 2_000_000);
    let (v, v_addr) = validator();
    let pay = transfer(vec![addr(1, 0, 0)], vec![plain(&pk_d, 2_000_000, FRA)], vec![plain(&principal, 1_000_000, FRA), plain(&pk_d, 1_000_000, FRA)], &[(pk_d, &sk_d)]);
    let del = delegation(&pk_d, &sk_d, v_addr.clone(), Some(v));
    let tx = txn(vec![pay, del], 3);
    assert_eq!(check_delegation_context(&tx), Ok(1_000_000));
    let all = [addr(1, 0, 0), addr(2, 0, 0), addr(2, 0, 1)];
    assert_eq!(balance(&state, &pk_d, &all), 2_000_000);
    state.set_custom_block_height(7);
    commit(&mut state, vec![tx]).unwrap();
    assert_eq!(balance(&state, &pk_d, &all), 1_000_000);
    let staking = state.get_staking();
    let rec = staking.delegations.iter().find(|r| r.delegator == pk_d && r.validator == v_addr).unwrap();
    assert_eq!(rec.amount, 1_000_000);
    let entry = staking.validators.iter().find(|e| e.addr == v_addr).unwrap();
    assert_eq!(entry.validator.td_power, 1_000_000);
    assert_eq!(entry.start_height, 7);
}

#[test]
fn delegation_without_payment_fails() {
    let (pk_d, sk_d) = keys(50);
    let mut state = funded(&pk_d, 2_000_000);
    let (v, v_addr) = validator();
    let tx = txn(vec![delegation(&pk_d, &sk_d, v_addr, Some(v))], 3);
    assert_eq!(check_delegation_context(&tx), Err(LedgerError::DelegationContextError));
    let before = state.get_state_commitment();
    assert_eq!(commit(&mut state, vec![tx]), Err(LedgerError::DelegationContextError));
    assert_eq!(state.get_state_commitment(), before);
    assert!(state.get_staking().delegations.is_empty());
}

#[test]
fn delegation_checks_reject_bad_shapes() {
    let (pk_d, sk_d) = keys(50);
    let (pk_x, sk_x) = keys(51);
    let principal = Address { key: PRINCIPAL };
    let (v, v_addr) = validator();
    let pay = transfer(vec![addr(1, 0, 0)], vec![plain(&pk_d, 2_000_000, FRA)], vec![plain(&principal, 2_000_000, FRA)], &[(pk_d, &sk_d)]);
    let two = txn(vec![pay.clone(), delegation(&pk_d, &sk_d, v_addr.clone(), None), delegation(&pk_d, &sk_d, v_addr.clone(), None)], 1);
    assert_eq!(check_delegation_context(&two), Err(LedgerError::DelegationContextError));
    let other = txn(vec![pay.clone(), delegation(&pk_x, &sk_x, v_addr.clone(), None)], 1);
    assert_eq!(check_delegation_context(&other), Err(LedgerError::DelegationContextError));
    assert_eq!(check_delegation_context_principal(&other, &pk_d), Ok(2_000_000));
    let small = transfer(vec![addr(1, 0, 0)], vec![plain(&pk_d, 10, FRA)], vec![plain(&principal, 10, FRA)], &[(pk_d, &sk_d)]);
    let under = txn(vec![small, delegation(&pk_d, &sk_d, v_addr.clone(), Some(v))], 1);
    assert_eq!(TxnEffect::compute(under).err(), Some(LedgerError::StakingError));
    let wrong_addr = txn(vec![pay.clone(), delegation(&pk_d, &sk_d, String::from("AB"), Some(v))], 1);
    assert_eq!(TxnEffect::compute(wrong_addr).err(), Some(LedgerError::StakingError));
    let mut forged = txn(vec![pay.clone(), delegation(&pk_d, &sk_d, v_addr.clone(), Some(v))], 1);
    if let Operation::Delegation(d) = &mut forged.operations[1] {
        d.body.nonce = 9;
    }
    assert_eq!(TxnEffect::compute(forged).err(), Some(LedgerError::SignatureError));
    let unknown = txn(vec![pay, delegation(&pk_d, &sk_d, v_addr, None)], 1);
    let mut state = funded(&pk_d, 2_000_000);
    assert_eq!(commit(&mut state, vec![unknown]), Err(LedgerError::StakingError));
}

#[test]
fn delegation_ops_new_signs_its_body() {
    let ops = DelegationOps::new(&[50; 32], String::from("AB"), 4);
    let (pk_d, _) = keys(50);
    assert_eq!(ops.pubkey, pk_d);
    assert_eq!(ops.get_nonce(), 4);
    assert!(ops.verify().is_ok());
    let mut changed = ops.clone();
    changed.set_nonce(5);
    assert_eq!(changed.get_nonce(), 5);
    assert_eq!(changed.verify(), Err(LedgerError::SignatureError));
    assert_eq!(ops.get_related_pubkeys(), vec![pk_d]);
}

#[test]
fn linear_cost_values() {
    assert_eq!(ensure_linear_cost(Some(100), 64, 10, 3), Ok(16));
    assert_eq!(ensure_linear_cost(None, 0, 10, 3), Ok(10));
    assert_eq!(ensure_linear_cost(None, 1, 10, 3), Ok(13));
    assert_eq!(ensure_linear_cost(None, 33, 10, 3), Ok(16));
    assert_eq!(ensure_linear_cost(Some(15), 64, 10, 3), Err(ExitError::OutOfGas));
    assert_eq!(ensure_linear_cost(None, u64::MAX, 0, u64::MAX), Err(ExitError::OutOfGas));
    assert_eq!(ensure_linear_cost(None, 0, u64::MAX, 1), Ok(u64::MAX));
}

#[test]
fn app_hash_joins_only_nonempty_side_hash() {
    let la = vec![1u8, 2, 3];
    assert_eq!(app_hash("commit", 5, la.clone(), vec![]), la);
    let cs = vec![9u8; 4];
    let mut joined = la.clone();
    joined.extend_from_slice(&cs);
    assert_eq!(app_hash("commit", 5, la, cs), sha2::Sha256::digest(&joined).to_vec());
}

#[test]
fn validator_power_is_sum_of_delegated_stake() {
    let (v, v_addr) = validator();
    let (d1, _) = keys(60);
    let (d2, _) = keys(61);
    let mut staking = Staking::new(4);
    assert_eq!(staking.delegate(&d1, &v_addr, 5), Err(LedgerError::StakingError));
    staking.register(&v_addr, &v).unwrap();
    assert_eq!(staking.register(&v_addr, &v), Err(LedgerError::StakingError));
    staking.delegate(&d1, &v_addr, 100).unwrap();
    staking.delegate(&d2, &v_addr, 50).unwrap();
    staking.delegate(&d1, &v_addr, 7).unwrap();
    let power = staking.validators[0].validator.td_power;
    let sum: u64 = staking.delegations.iter().filter(|r| r.validator == v_addr).map(|r| r.amount).sum();
    assert_eq!(power, 157);
    assert_eq!(sum, power);
    assert_eq!(staking.validators[0].start_height, 4);
    assert_eq!(staking.delegate(&d2, &v_addr, u64::MAX), Err(LedgerError::Overflow));
    assert_eq!(staking.validators[0].validator.td_power, 157);
}
