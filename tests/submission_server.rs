use sha2::Digest;
use ed25519_dalek::{Signer, SigningKey};
use findora_ledger::data_model::{
    Address, AssetCreation, AssetCreationBody, AssetTokenCode, AssetTokenProperties,
    LedgerSignature, Operation, Transaction, TxnSID, TxnTempSID,
};
use findora_ledger::abci::{self, AbciServer, Rejection};
use findora_ledger::error::LedgerError;
use findora_ledger::store::{LedgerAccess, LedgerState};
use findora_ledger::submission_server::{DuplicatePolicy, SubmissionServer, TxnHandle, TxnStatus};
use rand_chacha::rand_core::SeedableRng;
use rand_chacha::ChaChaRng;

fn create_asset_txn(seed: u8, code: [u8; 16], asset_type: &str) -> Transaction {
    let sk = SigningKey::from_bytes(&[seed; 32]);
    let pk = Address { key: sk.verifying_key().to_bytes() };
    let body = AssetCreationBody {
        properties: AssetTokenProperties {
            code: AssetTokenCode { val: code },
            issuer: pk,
            memo: String::new(),
            confidential_memo: String::new(),
            updatable: true,
            asset_type: asset_type.to_string(),
        },
    };
    let signature = sk.sign(&body.to_bytes()).to_bytes();
    let mut tx = Transaction::create_empty();
    tx.operations.push(Operation::AssetCreation(AssetCreation {
        body,
        body_signature: LedgerSignature { address: pk, signature },
    }));
    tx
}

#[test]
fn test_cache_transaction() {
    let block_capacity = 8;
    let ledger_state = LedgerState::new();
    let prng = ChaChaRng::from_seed([0u8; 32]);
    let mut submission_server = SubmissionServer::new(prng, ledger_state, block_capacity).unwrap();

    submission_server.begin_block().unwrap();

    let txn_0 = create_asset_txn(3, [7; 16], "{}");
    let txn_1 = create_asset_txn(3, [8; 16], "test");

    submission_server.cache_transaction(txn_0).unwrap();
    submission_server.cache_transaction(txn_1).unwrap();

    let temp_sids = submission_server.pending_temp_sids();
    let temp_sid_0 = temp_sids.get(0).unwrap();
    let temp_sid_1 = temp_sids.get(1).unwrap();

    assert_eq!(*temp_sid_0, TxnTempSID(0));
    assert_eq!(*temp_sid_1, TxnTempSID(1));
}

#[test]
fn test_eligible_to_commit() {
    let block_capacity = 8;
    let ledger_state = LedgerState::new();
    let prng = ChaChaRng::from_seed([0u8; 32]);
    let mut submission_server = SubmissionServer::new(prng, ledger_state, block_capacity).unwrap();

    submission_server.begin_block().unwrap();

    let transaction = Transaction::default();

    for _i in 0..(block_capacity - 1) {
        submission_server.cache_transaction(transaction.clone()).unwrap();
        assert!(!submission_server.eligible_to_commit());
    }

    submission_server.cache_transaction(transaction).unwrap();
    assert!(submission_server.eligible_to_commit());
}

#[test]
fn test_txn_status() {
    let block_capacity = 2;
    let ledger_state = LedgerState::new();
    let prng = ChaChaRng::from_seed([0u8; 32]);
    let mut submission_server = SubmissionServer::new(prng, ledger_state, block_capacity).unwrap();

    let transaction = Transaction::default();
    let txn_handle = submission_server.handle_transaction(transaction.clone()).unwrap();
    let status = submission_server.get_txn_status(&txn_handle).expect("handle should be in map");
    assert_eq!(status, TxnStatus::Pending);

    submission_server.handle_transaction(transaction.clone()).expect("Txn should be valid");
    let status = submission_server.get_txn_status(&txn_handle).expect("handle should be in map");
    assert_eq!(status, TxnStatus::Committed((TxnSID(1), Vec::new())));
}

#[test]
fn invalid_signature_leaves_no_status() {
    let mut server = SubmissionServer::new(0u8, LedgerState::new(), 2).unwrap();
    let mut tx = create_asset_txn(3, [1; 16], "token1");
    if let Operation::AssetCreation(c) = &mut tx.operations[0] {
        c.body_signature.address = Address { key: SigningKey::from_bytes(&[4; 32]).verifying_key().to_bytes() };
    }
    let handle = TxnHandle::new(&tx);
    assert_eq!(server.handle_transaction(tx), Err(LedgerError::SignatureError));
    assert!(server.get_txn_status(&handle).is_none());
    assert!(server.get_committed_state().check_utxo(&findora_ledger::data_model::UtxoAddress {
        transaction_id: findora_ledger::data_model::TxSequenceNumber { val: 0 },
        operation_index: 0,
        output_index: 0,
    }).is_none());
}

#[test]
fn capacity_commit_assigns_canonical_ids_in_order() {
    let mut server = SubmissionServer::new(0u8, LedgerState::new(), 2).unwrap();
    let h0 = server.handle_transaction(create_asset_txn(3, [1; 16], "a")).unwrap();
    let h1 = server.handle_transaction(create_asset_txn(3, [2; 16], "b")).unwrap();
    assert_eq!(server.get_txn_status(&h0), Some(TxnStatus::Committed((TxnSID(0), Vec::new()))));
    assert_eq!(server.get_txn_status(&h1), Some(TxnStatus::Committed((TxnSID(1), Vec::new()))));
    assert!(server.all_commited());
    let h2 = server.handle_transaction(create_asset_txn(3, [3; 16], "c")).unwrap();
    assert_eq!(server.get_txn_status(&h2), Some(TxnStatus::Pending));
    server.end_block().unwrap();
    assert_eq!(server.get_txn_status(&h2), Some(TxnStatus::Committed((TxnSID(2), Vec::new()))));
}

#[test]
fn abort_keeps_statuses_pending_and_ledger_unchanged() {
    let mut server = SubmissionServer::new(0u8, LedgerState::new(), 4).unwrap();
    let before = server.get_committed_state().get_state_commitment();
    let h = server.handle_transaction(create_asset_txn(3, [1; 16], "a")).unwrap();
    server.abort_block();
    assert_eq!(server.get_txn_status(&h), Some(TxnStatus::Pending));
    assert!(server.all_commited());
    assert_eq!(server.get_committed_state().get_state_commitment(), before);
    assert!(server.get_committed_state().get_asset_token(&AssetTokenCode { val: [1; 16] }).is_none());
}

#[test]
fn end_block_without_block_is_capacity_error() {
    let mut server = SubmissionServer::new(0u8, LedgerState::new(), 4).unwrap();
    assert_eq!(server.end_block(), Err(LedgerError::CapacityError));
    server.begin_block().unwrap();
    assert_eq!(server.begin_block(), Err(LedgerError::CapacityError));
    assert_eq!(server.cache_transaction(Transaction::default()).map(|h| h.0.len()), Ok(64));
}

#[test]
fn handle_is_hex_of_sha256_of_encoding() {
    let tx = create_asset_txn(3, [1; 16], "token1");
    let mut bytes = vec![0u8; 8];
    bytes.extend_from_slice(&tx.to_bytes());
    let expected = hex::encode(sha2::Sha256::digest(&bytes));
    let h = TxnHandle::new(&tx);
    assert_eq!(h.0, expected);
    assert_eq!(h.0.len(), 64);
    assert_eq!(TxnHandle::new(&tx.clone()), h);
    assert_ne!(TxnHandle::new(&create_asset_txn(3, [2; 16], "token1")), h);
}

#[test]
fn duplicate_handle_overwrites_by_default() {
    let mut server = SubmissionServer::new(0u8, LedgerState::new(), 4).unwrap();
    let tx = Transaction::default();
    let h = server.handle_transaction(tx.clone()).unwrap();
    assert_eq!(server.handle_transaction(tx).unwrap(), h);
    assert_eq!(server.pending_temp_sids(), vec![TxnTempSID(0), TxnTempSID(1)]);
    server.end_block().unwrap();
    assert_eq!(server.get_txn_status(&h), Some(TxnStatus::Committed((TxnSID(1), Vec::new()))));
}

#[test]
fn duplicate_handle_rejected_under_reject_policy() {
    let mut server = SubmissionServer::new(0u8, LedgerState::new(), 4).unwrap();
    server.set_duplicate_policy(DuplicatePolicy::Reject);
    let tx = Transaction::default();
    let h = server.handle_transaction(tx.clone()).unwrap();
    assert_eq!(server.handle_transaction(tx), Err(LedgerError::ReplayError));
    assert_eq!(server.pending_temp_sids(), vec![TxnTempSID(0)]);
    server.end_block().unwrap();
    assert_eq!(server.get_txn_status(&h), Some(TxnStatus::Committed((TxnSID(0), Vec::new()))));
    let mut other = Transaction::default();
    other.no_replay_token = 1;
    assert!(server.handle_transaction(other).is_ok());
}

#[test]
fn callbacks_screen_deliver_and_commit() {
    let mut node = AbciServer::new(SubmissionServer::new(0u8, LedgerState::new(), 8).unwrap());
    let (h0, hash0) = abci::info(&mut node);
    assert_eq!(h0, 0);
    assert_eq!(hash0, vec![0u8; 32]);
    let tx = create_asset_txn(3, [1; 16], "a");
    assert_eq!(abci::check_tx(&node, None).rejection, Some(Rejection::InvalidFormat));
    assert_eq!(abci::check_tx(&node, Some(tx.clone())).code, 0);
    abci::begin_block(&mut node, 5);
    let r = abci::deliver_tx(&mut node, Some(tx.clone()));
    assert_eq!(r.code, 0);
    assert_eq!(r.data, TxnHandle::new(&tx).0.into_bytes());
    assert_eq!(abci::check_tx(&node, Some(tx.clone())).rejection, Some(Rejection::Historical));
    let again = abci::deliver_tx(&mut node, Some(tx.clone()));
    assert_eq!(again.rejection, Some(Rejection::Ledger(LedgerError::DuplicateAssetError)));
    assert_eq!(abci::deliver_tx(&mut node, None).rejection, Some(Rejection::InvalidFormat));
    assert_eq!(abci::end_block(&mut node).code, 0);
    let c = abci::commit(&mut node);
    assert_eq!(c.code, 0);
    assert_ne!(c.data, vec![0u8; 32]);
    let (h1, hash1) = abci::info(&mut node);
    assert_eq!(h1, 5);
    assert_eq!(node.la.get_committed_state().get_tendermint_height(), 5);
    assert_eq!(hash1, c.data);
    assert!(node.la.get_committed_state().get_asset_token(&AssetTokenCode { val: [1; 16] }).is_some());
}

#[test]
fn info_reports_consensus_height_after_empty_block() {
    let mut node = AbciServer::new(SubmissionServer::new(0u8, LedgerState::new(), 8).unwrap());
    abci::info(&mut node);
    abci::begin_block(&mut node, 3);
    assert_eq!(abci::end_block(&mut node).code, 0);
    abci::commit(&mut node);
    let (h, hash) = abci::info(&mut node);
    assert_eq!(h, 3);
    assert_eq!(node.height, 3);
    assert_eq!(hash, vec![0u8; 32]);
    assert_eq!(node.la.get_committed_state().get_state_commitment().1, 0);
}
