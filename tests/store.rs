use ed25519_dalek::{Signer, SigningKey};
use findora_ledger::data_model::{
    Address, AssetCreation, AssetCreationBody, AssetTokenCode, AssetTokenProperties,
    LedgerSignature, Operation, Transaction,
};
use findora_ledger::store::{LedgerAccess, LedgerState, LedgerUpdate, LedgerValidate, TxnEffect};

fn build_keys(seed: u8) -> (Address, SigningKey) {
    let sk = SigningKey::from_bytes(&[seed; 32]);
    (Address { key: sk.verifying_key().to_bytes() }, sk)
}

fn asset_creation_body(code: &AssetTokenCode, asset_type: &str, issuer: &Address, updatable: bool) -> AssetCreationBody {
    AssetCreationBody {
        properties: AssetTokenProperties {
            code: *code,
            issuer: *issuer,
            memo: String::new(),
            confidential_memo: String::new(),
            updatable,
            asset_type: asset_type.to_string(),
        },
    }
}

fn asset_creation_operation(body: &AssetCreationBody, pk: &Address, sk: &SigningKey) -> AssetCreation {
    let signature = sk.sign(&body.to_bytes()).to_bytes();
    AssetCreation {
        body: body.clone(),
        body_signature: LedgerSignature { address: *pk, signature },
    }
}

fn apply_in_block(state: &mut LedgerState, tx: Transaction) {
    let mut block = state.start_block().unwrap();
    let effect = TxnEffect::compute(tx).unwrap();
    state.apply_transaction(&mut block, effect).unwrap();
    state.finish_block(block).unwrap();
}

#[test]
fn mod_test_asset_creation_valid() {
    let mut state = LedgerState::new();
    let mut tx = Transaction::create_empty();

    let token_code1 = AssetTokenCode { val: [1; 16] };
    let (public_key, secret_key) = build_keys(0);
    let asset_type = String::from("token1");

    let asset_body = asset_creation_body(&token_code1, &asset_type, &public_key, true);
    let asset_create = asset_creation_operation(&asset_body, &public_key, &secret_key);
    tx.operations.push(Operation::AssetCreation(asset_create));

    assert_eq!(true, state.validate_transaction(&tx));

    apply_in_block(&mut state, tx);
    assert_eq!(true, state.get_asset_token(&token_code1).is_some());

    assert_eq!(asset_body.properties, state.get_asset_token(&token_code1).unwrap().properties);

    assert_eq!(0, state.get_asset_token(&token_code1).unwrap().units);
}

#[test]
fn test_asset_creation_invalid_public_key() {
    let mut state = LedgerState::new();
    let mut tx = Transaction::create_empty();

    let token_code1 = AssetTokenCode { val: [1; 16] };
    let (public_key1, secret_key1) = build_keys(0);
    let asset_type = String::from("token1");

    let asset_body = asset_creation_body(&token_code1, &asset_type, &public_key1, true);
    let mut asset_create = asset_creation_operation(&asset_body, &public_key1, &secret_key1);

    let (public_key2, _secret_key2) = build_keys(1);
    asset_create.body_signature.address.key = public_key2.key;

    tx.operations.push(Operation::AssetCreation(asset_create));

    assert_eq!(false, state.validate_transaction(&tx));
}

#[test]
fn mod_test_asset_creation_invalid_signature() {
    let mut state = LedgerState::new();
    let mut tx = Transaction::create_empty();

    let token_code1 = AssetTokenCode { val: [1; 16] };
    let (public_key1, secret_key1) = build_keys(0);
    let asset_type = String::from("token1");

    let asset_body = asset_creation_body(&token_code1, &asset_type, &public_key1, true);
    let mut asset_create = asset_creation_operation(&asset_body, &public_key1, &secret_key1);

    let (public_key2, _secret_key2) = build_keys(1);
    asset_create.body_signature.address.key = public_key2.key;

    tx.operations.push(Operation::AssetCreation(asset_create));

    assert_eq!(false, state.validate_transaction(&tx));
}
