//! Value types of the ledger: asset codes, UTXO addresses and records,
//! operations and transactions.

use vstd::prelude::*;

verus! {

/// The 16-byte code that names an asset type.
#[derive(Clone, Copy, Debug, PartialEq, Eq, Hash)]
pub struct AssetTokenCode {
    pub val: [u8; 16],
}

/// The fixed code of the native asset: sixteen zero bytes.
pub open spec fn is_fra(c: AssetTokenCode) -> bool {
    c.val@ == Seq::new(16, |i: int| 0u8)
}

pub fn asset_type_fra() -> (r: AssetTokenCode)
    ensures
        is_fra(r),
{
    let r = AssetTokenCode { val: [0u8; 16] };
    assert(r.val@ =~= Seq::new(16, |i: int| 0u8));
    r
}

/// A 32-byte Ed25519 public key.
#[derive(Clone, Copy, Debug, PartialEq, Eq, Hash)]
pub struct Address {
    pub key: [u8; 32],
}

/// The well-known key that holds delegated stake in escrow: thirty-two bytes of one.
pub open spec fn is_principal(a: Address) -> bool {
    a.key@ == Seq::new(32, |i: int| 1u8)
}

pub fn coinbase_principal_pk() -> (r: Address)
    ensures
        is_principal(r),
{
    let r = Address { key: [1u8; 32] };
    assert(r.key@ =~= Seq::new(32, |i: int| 1u8));
    r
}

/// The least stake with which a validator may bond itself.
pub const STAKING_VALIDATOR_MIN_POWER: u64 = 88_8888;

/// The sequence number of a committed transaction, as it appears in UTXO addresses.
#[derive(Clone, Copy, Debug, PartialEq, Eq, Hash, Structural)]
pub struct TxSequenceNumber {
    pub val: u64,
}

/// Where an output was produced: transaction, operation in it, output in that.
#[derive(Clone, Copy, Debug, PartialEq, Eq, Hash, Structural)]
pub struct UtxoAddress {
    pub transaction_id: TxSequenceNumber,
    pub operation_index: u16,
    pub output_index: u16,
}

/// The canonical identifier given to a transaction when its block is finished.
#[derive(Clone, Copy, Debug, PartialEq, Eq, Hash, Structural)]
pub struct TxnSID(pub u64);

/// The identifier of a transaction while its block is still open.
#[derive(Clone, Copy, Debug, PartialEq, Eq, Hash, Structural)]
pub struct TxnTempSID(pub u64);

/// An amount, in the clear or hidden behind a commitment.
#[derive(Clone, Copy, Debug, PartialEq, Eq)]
pub enum XfrAmount {
    NonConfidential(u64),
    Confidential([u8; 32]),
}

/// An asset type, in the clear or hidden behind a commitment.
#[derive(Clone, Copy, Debug, PartialEq, Eq)]
pub enum XfrAssetType {
    NonConfidential(AssetTokenCode),
    Confidential([u8; 32]),
}

/// An output record: who owns it, how much, of what.
#[derive(Clone, Copy, Debug, PartialEq, Eq)]
pub struct TxOutput {
    pub public_key: Address,
    pub amount: XfrAmount,
    pub asset_type: XfrAssetType,
}

/// An unspent output held by the ledger.
#[derive(Clone, Copy, Debug, PartialEq, Eq)]
pub struct Utxo {
    pub key: UtxoAddress,
    pub digest: [u8; 32],
    pub output: TxOutput,
}

/// A signature together with the key that made it.
#[derive(Clone, Copy, Debug, PartialEq, Eq)]
pub struct LedgerSignature {
    pub address: Address,
    pub signature: [u8; 64],
}

/// What an asset creation fixes about a new asset.
#[derive(Clone, Debug, PartialEq, Eq)]
pub struct AssetTokenProperties {
    pub code: AssetTokenCode,
    pub issuer: Address,
    pub memo: String,
    pub confidential_memo: String,
    pub updatable: bool,
    pub asset_type: String,
}

/// An asset known to the ledger, with the units issued in the clear so far.
#[derive(Clone, Debug, PartialEq, Eq)]
pub struct AssetToken {
    pub properties: AssetTokenProperties,
    pub units: u64,
}

/// The signed part of an asset creation.
#[derive(Clone, Debug, PartialEq, Eq)]
pub struct AssetCreationBody {
    pub properties: AssetTokenProperties,
}

#[derive(Clone, Debug, PartialEq, Eq)]
pub struct AssetCreation {
    pub body: AssetCreationBody,
    pub body_signature: LedgerSignature,
}

/// The signed part of an issuance: its sequence number, the asset, the new outputs.
#[derive(Clone, Debug, PartialEq, Eq)]
pub struct AssetIssuanceBody {
    pub seq_num: u128,
    pub code: AssetTokenCode,
    pub outputs: Vec<TxOutput>,
}

#[derive(Clone, Debug, PartialEq, Eq)]
pub struct AssetIssuance {
    pub body: AssetIssuanceBody,
    pub body_signature: LedgerSignature,
}

/// A transfer spends `inputs`, whose records it restates in `input_records`,
/// and produces `outputs`.
#[derive(Clone, Debug, PartialEq, Eq)]
pub struct AssetTransferBody {
    pub inputs: Vec<UtxoAddress>,
    pub input_records: Vec<TxOutput>,
    pub outputs: Vec<TxOutput>,
}

#[derive(Clone, Debug, PartialEq, Eq)]
pub struct AssetTransfer {
    pub body: AssetTransferBody,
    pub body_signatures: Vec<LedgerSignature>,
}

/// A validator that bonds itself with its first delegation.
#[derive(Clone, Copy, Debug, PartialEq, Eq)]
pub struct Validator {
    /// The consensus-level address.
    pub td_addr: [u8; 20],
    pub td_power: u64,
    /// Commission as numerator and denominator.
    pub commission_rate: [u64; 2],
    /// The key that receives the validator's rewards.
    pub id: Address,
}

/// The body of a delegation operation.
#[derive(Clone, Debug, PartialEq, Eq)]
pub struct Data {
    /// The target validator, as upper-case hexadecimal of its consensus address.
    pub validator: String,
    /// Set when the validator bonds itself with this delegation.
    pub validator_staking: Option<Validator>,
    pub nonce: u64,
}

/// A delegation operation: its body, the delegator and the delegator's signature.
#[derive(Clone, Debug, PartialEq, Eq)]
pub struct DelegationOps {
    pub body: Data,
    pub pubkey: Address,
    pub signature: [u8; 64],
}

/// One step of a transaction.
#[derive(Clone, Debug, PartialEq, Eq)]
pub enum Operation {
    AssetCreation(AssetCreation),
    AssetIssuance(AssetIssuance),
    AssetTransfer(AssetTransfer),
    Delegation(DelegationOps),
}

/// Operations applied together, in order, and a token that tells apart
/// transactions that are otherwise the same.
#[derive(Clone, Debug, Default, PartialEq, Eq)]
pub struct Transaction {
    pub operations: Vec<Operation>,
    pub no_replay_token: u64,
}

/// The key under which a custom asset policy is kept.
#[derive(Clone, Copy, Debug, PartialEq, Eq, Hash, Structural)]
pub struct AssetPolicyKey {
    pub val: u64,
}

/// The key under which a smart contract is kept.
#[derive(Clone, Copy, Debug, PartialEq, Eq, Hash, Structural)]
pub struct SmartContractKey {
    pub val: u64,
}

/// A policy kept for an asset.
#[derive(Clone, Debug, PartialEq, Eq)]
pub struct CustomAssetPolicy {
    pub key: AssetPolicyKey,
    pub policy: String,
}

#[derive(Clone, Debug, PartialEq, Eq)]
pub struct SmartContract {
    pub key: SmartContractKey,
    pub code: String,
}

/// Whether two byte arrays hold the same bytes.
pub fn bytes_eq<const N: usize>(a: &[u8; N], b: &[u8; N]) -> (r: bool)
    ensures
        r == (*a == *b),
{
    let mut i: usize = 0;
    while i < N
        invariant
            0 <= i <= N,
            forall|j: int| 0 <= j < i ==> a@[j] == b@[j],
        decreases N - i,
    {
        if a[i] != b[i] {
            return false;
        }
        i = i + 1;
    }
    assert(a@ =~= b@);
    proof {
        vstd::array::axiom_array_ext_equal(*a, *b);
    }
    true
}

impl AssetTokenCode {
    pub fn same(&self, o: &AssetTokenCode) -> (r: bool)
        ensures
            r == (*self == *o),
    {
        bytes_eq(&self.val, &o.val)
    }
}

impl Address {
    pub fn same(&self, o: &Address) -> (r: bool)
        ensures
            r == (*self == *o),
    {
        bytes_eq(&self.key, &o.key)
    }
}

impl TxOutput {
    pub fn same(&self, o: &TxOutput) -> (r: bool)
        ensures
            r == (*self == *o),
    {
        if !self.public_key.same(&o.public_key) {
            return false;
        }
        let amounts = match (self.amount, o.amount) {
            (XfrAmount::NonConfidential(a), XfrAmount::NonConfidential(b)) => a == b,
            (XfrAmount::Confidential(a), XfrAmount::Confidential(b)) => bytes_eq(&a, &b),
            _ => false,
        };
        let types = match (self.asset_type, o.asset_type) {
            (XfrAssetType::NonConfidential(a), XfrAssetType::NonConfidential(b)) => a.same(&b),
            (XfrAssetType::Confidential(a), XfrAssetType::Confidential(b)) => bytes_eq(&a, &b),
            _ => false,
        };
        amounts && types
    }
}

impl AssetTokenProperties {
    /// A copy of these properties.
    pub fn duplicate(&self) -> (r: AssetTokenProperties)
        ensures
            r == *self,
    {
        AssetTokenProperties {
            code: self.code,
            issuer: self.issuer,
            memo: self.memo.clone(),
            confidential_memo: self.confidential_memo.clone(),
            updatable: self.updatable,
            asset_type: self.asset_type.clone(),
        }
    }
}

impl AssetToken {
    pub fn duplicate(&self) -> (r: AssetToken)
        ensures
            r == *self,
    {
        AssetToken { properties: self.properties.duplicate(), units: self.units }
    }
}

impl Transaction {
    /// A transaction with no operations and a zero token.
    pub fn create_empty() -> (r: Transaction)
        ensures
            r.operations@.len() == 0,
            r.no_replay_token == 0,
    {
        Transaction { operations: Vec::new(), no_replay_token: 0 }
    }
}

} // verus!
