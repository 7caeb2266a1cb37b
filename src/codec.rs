//! The canonical byte encoding of ledger values. Integers are little-endian
//! of fixed width, strings and lists carry their length first, and each enum
//! variant is marked by one tag byte. Signatures are made over these bytes,
//! and digests are taken of them.

use crate::data_model::{
    AssetCreationBody, AssetIssuanceBody, AssetTokenProperties, AssetTransferBody, Data,
    LedgerSignature, Operation, Transaction, TxOutput, UtxoAddress, Validator, XfrAmount,
    XfrAssetType,
};
use vstd::prelude::*;
use vstd::utf8::encode_utf8;

verus! {

/// The `n` low bytes of `x`, least significant first.
pub open spec fn le_bytes(x: nat, n: nat) -> Seq<u8>
    decreases n,
{
    if n == 0 {
        Seq::empty()
    } else {
        seq![(x % 256) as u8] + le_bytes(x / 256, (n - 1) as nat)
    }
}

/// The encodings of the items of `s`, one after the other.
pub open spec fn joined<A>(s: Seq<A>, f: spec_fn(A) -> Seq<u8>) -> Seq<u8>
    decreases s.len(),
{
    if s.len() == 0 {
        Seq::empty()
    } else {
        joined(s.drop_last(), f) + f(s.last())
    }
}

/// A list: its length in eight bytes, then its items.
pub open spec fn list_bytes<A>(s: Seq<A>, f: spec_fn(A) -> Seq<u8>) -> Seq<u8> {
    le_bytes(s.len(), 8) + joined(s, f)
}

/// A string: the length of its UTF-8 form in eight bytes, then that form.
pub open spec fn str_bytes(s: Seq<char>) -> Seq<u8> {
    le_bytes(encode_utf8(s).len(), 8) + encode_utf8(s)
}

pub open spec fn bool_bytes(b: bool) -> Seq<u8> {
    if b {
        seq![1u8]
    } else {
        seq![0u8]
    }
}

pub open spec fn utxo_address_bytes(a: UtxoAddress) -> Seq<u8> {
    le_bytes(a.transaction_id.val as nat, 8) + le_bytes(a.operation_index as nat, 2) + le_bytes(
        a.output_index as nat,
        2,
    )
}

pub open spec fn amount_bytes(a: XfrAmount) -> Seq<u8> {
    match a {
        XfrAmount::NonConfidential(x) => seq![0u8] + le_bytes(x as nat, 8),
        XfrAmount::Confidential(c) => seq![1u8] + c@,
    }
}

pub open spec fn asset_type_bytes(t: XfrAssetType) -> Seq<u8> {
    match t {
        XfrAssetType::NonConfidential(c) => seq![0u8] + c.val@,
        XfrAssetType::Confidential(c) => seq![1u8] + c@,
    }
}

pub open spec fn output_bytes(o: TxOutput) -> Seq<u8> {
    o.public_key.key@ + amount_bytes(o.amount) + asset_type_bytes(o.asset_type)
}

pub open spec fn signature_bytes(s: LedgerSignature) -> Seq<u8> {
    s.address.key@ + s.signature@
}

pub open spec fn output_enc() -> spec_fn(TxOutput) -> Seq<u8> {
    |o: TxOutput| output_bytes(o)
}

pub open spec fn utxo_address_enc() -> spec_fn(UtxoAddress) -> Seq<u8> {
    |a: UtxoAddress| utxo_address_bytes(a)
}

pub open spec fn signature_enc() -> spec_fn(LedgerSignature) -> Seq<u8> {
    |s: LedgerSignature| signature_bytes(s)
}

pub open spec fn properties_bytes(p: AssetTokenProperties) -> Seq<u8> {
    p.code.val@ + p.issuer.key@ + str_bytes(p.memo@) + str_bytes(p.confidential_memo@) + bool_bytes(p.updatable) + str_bytes(p.asset_type@)
}

/// Appending one more item to a list appends its encoding.
pub proof fn lemma_joined_take<A>(s: Seq<A>, f: spec_fn(A) -> Seq<u8>, i: int)
    requires
        0 <= i < s.len(),
    ensures
        joined(s.take(i + 1), f) == joined(s.take(i), f) + f(s[i]),
{
    assert(s.take(i + 1).drop_last() =~= s.take(i));
}

/// Writes the `n` low bytes of `x`, least significant first.
pub fn push_le(out: &mut Vec<u8>, x: u128, n: usize)
    ensures
        final(out)@ == old(out)@ + le_bytes(x as nat, n as nat),
{
    let mut v: u128 = x;
    let mut k: usize = n;
    while k > 0
        invariant
            out@ + le_bytes(v as nat, k as nat) == old(out)@ + le_bytes(x as nat, n as nat),
        decreases k,
    {
        let ghost before = out@;
        out.push((v % 256) as u8);
        proof {
            assert(le_bytes(v as nat, k as nat) == seq![(v % 256) as u8] + le_bytes(
                (v / 256) as nat,
                (k - 1) as nat,
            ));
            assert(out@ + le_bytes((v / 256) as nat, (k - 1) as nat) =~= before + le_bytes(
                v as nat,
                k as nat,
            ));
        }
        v = v / 256;
        k = k - 1;
    }
    assert(out@ =~= out@ + le_bytes(v as nat, 0));
}

/// Writes the bytes of `b` as they are.
pub fn push_bytes(out: &mut Vec<u8>, b: &[u8])
    ensures
        final(out)@ == old(out)@ + b@,
{
    let mut i: usize = 0;
    while i < b.len()
        invariant
            0 <= i <= b@.len(),
            out@ == old(out)@ + b@.take(i as int),
        decreases b@.len() - i,
    {
        out.push(b[i]);
        assert(b@.take(i + 1) =~= b@.take(i as int).push(b@[i as int]));
        i = i + 1;
    }
    assert(b@.take(i as int) =~= b@);
}

pub fn push_str(out: &mut Vec<u8>, s: &String)
    ensures
        final(out)@ == old(out)@ + str_bytes(s@),
{
    let b = s.as_str().as_bytes();
    push_le(out, b.len() as u128, 8);
    push_bytes(out, b);
    assert(out@ =~= old(out)@ + str_bytes(s@));
}

pub fn push_bool(out: &mut Vec<u8>, b: bool)
    ensures
        final(out)@ == old(out)@ + bool_bytes(b),
{
    if b {
        out.push(1u8);
    } else {
        out.push(0u8);
    }
    assert(out@ =~= old(out)@ + bool_bytes(b));
}

pub open spec fn creation_body_bytes(b: AssetCreationBody) -> Seq<u8> {
    properties_bytes(b.properties)
}

pub open spec fn issuance_body_bytes(b: AssetIssuanceBody) -> Seq<u8> {
    le_bytes(b.seq_num as nat, 16) + b.code.val@ + list_bytes(b.outputs@, output_enc())
}

pub open spec fn transfer_body_bytes(b: AssetTransferBody) -> Seq<u8> {
    list_bytes(b.inputs@, utxo_address_enc()) + list_bytes(
b.input_records@, output_enc()) + list_bytes(b.outputs@, output_enc())
}

pub open spec fn validator_bytes(v: Validator) -> Seq<u8> {
    v.td_addr@ + le_bytes(v.td_power as nat, 8) + le_bytes(v.commission_rate[0] as nat, 8)
        + le_bytes(v.commission_rate[1] as nat, 8) + v.id.key@
}

pub open spec fn data_bytes(d: Data) -> Seq<u8> {
    str_bytes(d.validator@) + match d.validator_staking {
        None => seq![0u8],
        Some(v) => seq![1u8] + validator_bytes(v),
    } + le_bytes(d.nonce as nat, 8)
}

pub open spec fn operation_bytes(op: Operation) -> Seq<u8> {
    match op {
        Operation::AssetCreation(c) => seq![0u8] + creation_body_bytes(c.body) + signature_bytes(
            c.body_signature,
        ),
        Operation::AssetIssuance(i) => seq![1u8] + issuance_body_bytes(i.body) + signature_bytes(
            i.body_signature,
        ),
        Operation::AssetTransfer(t) => seq![2u8] + transfer_body_bytes(t.body) + list_bytes(
            t.body_signatures@,
            signature_enc(),
        ),
        Operation::Delegation(d) => seq![3u8] + data_bytes(d.body) + d.pubkey.key@ + d.signature@,
    }
}

pub open spec fn operation_enc() -> spec_fn(Operation) -> Seq<u8> {
    |op: Operation| operation_bytes(op)
}

pub open spec fn transaction_bytes(t: Transaction) -> Seq<u8> {
    le_bytes(t.no_replay_token as nat, 8) + list_bytes(t.operations@, operation_enc())
}

pub fn push_utxo_address(out: &mut Vec<u8>, a: &UtxoAddress)
    ensures
        final(out)@ == old(out)@ + utxo_address_bytes(*a),
{
    push_le(out, a.transaction_id.val as u128, 8);
    push_le(out, a.operation_index as u128, 2);
    push_le(out, a.output_index as u128, 2);
    assert(out@ =~= old(out)@ + utxo_address_bytes(*a));
}

pub fn push_output(out: &mut Vec<u8>, o: &TxOutput)
    ensures
        final(out)@ == old(out)@ + output_bytes(*o),
{
    push_bytes(out, &o.public_key.key);
    match o.amount {
        XfrAmount::NonConfidential(x) => {
            out.push(0u8);
            push_le(out, x as u128, 8);
        },
        XfrAmount::Confidential(c) => {
            out.push(1u8);
            push_bytes(out, &c);
        },
    }
    match o.asset_type {
        XfrAssetType::NonConfidential(c) => {
            out.push(0u8);
            push_bytes(out, &c.val);
        },
        XfrAssetType::Confidential(c) => {
            out.push(1u8);
            push_bytes(out, &c);
        },
    }
    assert(out@ =~= old(out)@ + output_bytes(*o));
}

pub fn push_signature(out: &mut Vec<u8>, s: &LedgerSignature)
    ensures
        final(out)@ == old(out)@ + signature_bytes(*s),
{
    push_bytes(out, &s.address.key);
    push_bytes(out, &s.signature);
    assert(out@ =~= old(out)@ + signature_bytes(*s));
}

pub fn push_outputs(out: &mut Vec<u8>, v: &Vec<TxOutput>)
    ensures
        final(out)@ == old(out)@ + list_bytes(v@, output_enc()),
{
    push_le(out, v.len() as u128, 8);
    let ghost start = out@;
    let mut i: usize = 0;
    while i < v.len()
        invariant
            0 <= i <= v@.len(),
            start == old(out)@ + le_bytes(v@.len(), 8),
            out@ == start + joined(v@.take(i as int), output_enc()),
        decreases v@.len() - i,
    {
        push_output(out, &v[i]);
        proof {
            lemma_joined_take(v@, output_enc(), i as int);
            assert(output_enc()(v@[i as int]) == output_bytes(v@[i as int]));
            assert(out@ =~= start + joined(v@.take(i as int + 1), output_enc()));
        }
        i = i + 1;
    }
    assert(v@.take(i as int) =~= v@);
    assert(out@ =~= old(out)@ + list_bytes(v@, output_enc()));
}

pub fn push_utxo_addresses(out: &mut Vec<u8>, v: &Vec<UtxoAddress>)
    ensures
        final(out)@ == old(out)@ + list_bytes(v@, utxo_address_enc()),
{
    push_le(out, v.len() as u128, 8);
    let ghost start = out@;
    let mut i: usize = 0;
    while i < v.len()
        invariant
            0 <= i <= v@.len(),
            start == old(out)@ + le_bytes(v@.len(), 8),
            out@ == start + joined(v@.take(i as int), utxo_address_enc()),
        decreases v@.len() - i,
    {
        push_utxo_address(out, &v[i]);
        proof {
            lemma_joined_take(v@, utxo_address_enc(), i as int);
            assert(utxo_address_enc()(v@[i as int]) == utxo_address_bytes(v@[i as int]));
            assert(out@ =~= start + joined(v@.take(i as int + 1), utxo_address_enc()));
        }
        i = i + 1;
    }
    assert(v@.take(i as int) =~= v@);
    assert(out@ =~= old(out)@ + list_bytes(v@, utxo_address_enc()));
}

pub fn push_signatures(out: &mut Vec<u8>, v: &Vec<LedgerSignature>)
    ensures
        final(out)@ == old(out)@ + list_bytes(v@, signature_enc()),
{
    push_le(out, v.len() as u128, 8);
    let ghost start = out@;
    let mut i: usize = 0;
    while i < v.len()
        invariant
            0 <= i <= v@.len(),
            start == old(out)@ + le_bytes(v@.len(), 8),
            out@ == start + joined(v@.take(i as int), signature_enc()),
        decreases v@.len() - i,
    {
        push_signature(out, &v[i]);
        proof {
            lemma_joined_take(v@, signature_enc(), i as int);
            assert(signature_enc()(v@[i as int]) == signature_bytes(v@[i as int]));
            assert(out@ =~= start + joined(v@.take(i as int + 1), signature_enc()));
        }
        i = i + 1;
    }
    assert(v@.take(i as int) =~= v@);
    assert(out@ =~= old(out)@ + list_bytes(v@, signature_enc()));
}

pub fn push_properties(out: &mut Vec<u8>, p: &AssetTokenProperties)
    ensures
        final(out)@ == old(out)@ + properties_bytes(*p),
{
    push_bytes(out, &p.code.val);
    push_bytes(out, &p.issuer.key);
    push_str(out, &p.memo);
    push_str(out, &p.confidential_memo);
    push_bool(out, p.updatable);
    push_str(out, &p.asset_type);
    assert(out@ =~= old(out)@ + properties_bytes(*p));
}

pub fn push_issuance_body(out: &mut Vec<u8>, b: &AssetIssuanceBody)
    ensures
        final(out)@ == old(out)@ + issuance_body_bytes(*b),
{
    push_le(out, b.seq_num, 16);
    push_bytes(out, &b.code.val);
    push_outputs(out, &b.outputs);
    assert(out@ =~= old(out)@ + issuance_body_bytes(*b));
}

pub fn push_transfer_body(out: &mut Vec<u8>, b: &AssetTransferBody)
    ensures
        final(out)@ == old(out)@ + transfer_body_bytes(*b),
{
    push_utxo_addresses(out, &b.inputs);
    push_outputs(out, &b.input_records);
    push_outputs(out, &b.outputs);
    assert(out@ =~= old(out)@ + transfer_body_bytes(*b));
}

pub fn push_data(out: &mut Vec<u8>, d: &Data)
    ensures
        final(out)@ == old(out)@ + data_bytes(*d),
{
    push_str(out, &d.validator);
    match &d.validator_staking {
        None => {
            out.push(0u8);
        },
        Some(v) => {
            out.push(1u8);
            push_bytes(out, &v.td_addr);
            push_le(out, v.td_power as u128, 8);
            push_le(out, v.commission_rate[0] as u128, 8);
            push_le(out, v.commission_rate[1] as u128, 8);
            push_bytes(out, &v.id.key);
        },
    }
    push_le(out, d.nonce as u128, 8);
    assert(out@ =~= old(out)@ + data_bytes(*d));
}

pub fn push_operation(out: &mut Vec<u8>, op: &Operation)
    ensures
        final(out)@ == old(out)@ + operation_bytes(*op),
{
    match op {
        Operation::AssetCreation(c) => {
            out.push(0u8);
            push_properties(out, &c.body.properties);
            push_signature(out, &c.body_signature);
        },
        Operation::AssetIssuance(i) => {
            out.push(1u8);
            push_issuance_body(out, &i.body);
            push_signature(out, &i.body_signature);
        },
        Operation::AssetTransfer(t) => {
            out.push(2u8);
            push_transfer_body(out, &t.body);
            push_signatures(out, &t.body_signatures);
        },
        Operation::Delegation(d) => {
            out.push(3u8);
            push_data(out, &d.body);
            push_bytes(out, &d.pubkey.key);
            push_bytes(out, &d.signature);
        },
    }
    assert(out@ =~= old(out)@ + operation_bytes(*op));
}

pub fn push_transaction(out: &mut Vec<u8>, t: &Transaction)
    ensures
        final(out)@ == old(out)@ + transaction_bytes(*t),
{
    push_le(out, t.no_replay_token as u128, 8);
    push_le(out, t.operations.len() as u128, 8);
    let ghost start = out@;
    let mut i: usize = 0;
    while i < t.operations.len()
        invariant
            0 <= i <= t.operations@.len(),
            start == old(out)@ + le_bytes(t.no_replay_token as nat, 8) + le_bytes(
                t.operations@.len(),
                8,
            ),
            out@ == start + joined(t.operations@.take(i as int), operation_enc()),
        decreases t.operations@.len() - i,
    {
        push_operation(out, &t.operations[i]);
        proof {
            lemma_joined_take(t.operations@, operation_enc(), i as int);
            assert(operation_enc()(t.operations@[i as int]) == operation_bytes(
                t.operations@[i as int],
            ));
            assert(out@ =~= start + joined(t.operations@.take(i as int + 1), operation_enc()));
        }
        i = i + 1;
    }
    assert(t.operations@.take(i as int) =~= t.operations@);
    assert(out@ =~= old(out)@ + transaction_bytes(*t));
}

impl AssetCreationBody {
    /// The bytes an asset's creator signs.
    pub fn to_bytes(&self) -> (r: Vec<u8>)
        ensures
            r@ == creation_body_bytes(*self),
    {
        let mut out: Vec<u8> = Vec::new();
        push_properties(&mut out, &self.properties);
        assert(out@ =~= creation_body_bytes(*self));
        out
    }
}

impl AssetIssuanceBody {
    /// The bytes an asset's issuer signs.
    pub fn to_bytes(&self) -> (r: Vec<u8>)
        ensures
            r@ == issuance_body_bytes(*self),
    {
        let mut out: Vec<u8> = Vec::new();
        push_issuance_body(&mut out, self);
        assert(out@ =~= issuance_body_bytes(*self));
        out
    }
}

impl AssetTransferBody {
    /// The bytes the owners of a transfer's inputs sign.
    pub fn to_bytes(&self) -> (r: Vec<u8>)
        ensures
            r@ == transfer_body_bytes(*self),
    {
        let mut out: Vec<u8> = Vec::new();
        push_transfer_body(&mut out, self);
        assert(out@ =~= transfer_body_bytes(*self));
        out
    }
}

impl Transaction {
    pub fn to_bytes(&self) -> (r: Vec<u8>)
        ensures
            r@ == transaction_bytes(*self),
    {
        let mut out: Vec<u8> = Vec::new();
        push_transaction(&mut out, self);
        assert(out@ =~= transaction_bytes(*self));
        out
    }
}

} // verus!
