//! Properties that hold across calls: of every history of blocks, of every
//! stream of submissions, and of repeated computation.

use crate::data_model::{
    is_fra, is_principal, Address, AssetTokenCode, DelegationOps, Operation, Transaction, TxOutput,
    Utxo, UtxoAddress, XfrAssetType,
};
use crate::seqs::{
    last_match, keep_where, lemma_keep_where, lemma_keep_where_one_out, lemma_last_match,
    lemma_last_match_push, lemma_last_match_update,
};
use crate::staking::{
    delegate_result, delegation_at_fn, delegation_pos, register_result, stake_of, stake_result,
    sum_nat, StakingModel,
};
use crate::staking::{
    delegator_of, is_delegation_fn, paid_by, paid_by_fn, single_owner, stake_paid,
};
use crate::store::{
    keys_unique, utxos_wf, amount_of, apply_result, creation_result, effect_result, issuance_result, new_utxos, op_outputs,
    op_result, ops_result, produced_upto, transfer_result, StatusModel,
};
use crate::submission_server::{
    server_wf, end_result, abort_result, begin_result, cache_result, handle_bytes, handle_of, handle_result, ServerModel,
};
use vstd::prelude::*;

verus! {

/// Submitting each transaction of `txns` in turn.
pub open spec fn handle_all(s: ServerModel, txns: Seq<Transaction>) -> ServerModel
    decreases txns.len(),
{
    if txns.len() == 0 {
        s
    } else {
        handle_result(handle_all(s, txns.drop_last()), txns.last()).0
    }
}

/// Caching each transaction of `txns` in turn into the open block.
pub open spec fn cache_all(s: ServerModel, txns: Seq<Transaction>) -> ServerModel
    decreases txns.len(),
{
    if txns.len() == 0 {
        s
    } else {
        cache_result(cache_all(s, txns.drop_last()), txns.last()).0
    }
}

/// Transactions with the same bytes have the same handle.
pub proof fn lemma_handle_idempotent(t1: Transaction, t2: Transaction)
    requires
        handle_bytes(t1) == handle_bytes(t2),
    ensures
        handle_of(t1) == handle_of(t2),
{
}

/// Caching transactions into the open block never touches the committed ledger.
pub proof fn lemma_cache_keeps_ledger(s: ServerModel, txns: Seq<Transaction>)
    ensures
        cache_all(s, txns).ledger == s.ledger,
        cache_all(s, txns).block is Some <==> s.block is Some,
    decreases txns.len(),
{
    if txns.len() > 0 {
        lemma_cache_keeps_ledger(s, txns.drop_last());
    }
}

/// Opening a block, applying any transactions to it and aborting it leaves the
/// ledger's state, commitment and height as they were.
pub proof fn lemma_abort_purity(s: ServerModel, txns: Seq<Transaction>)
    requires
        s.block is None,
        !s.ledger.block_open,
    ensures
        abort_result(cache_all(begin_result(s).0, txns)).ledger == s.ledger,
{
    let s1 = begin_result(s).0;
    lemma_cache_keeps_ledger(s1, txns);
}

/// What a server's future ledger depends on.
pub open spec fn same_course(s1: ServerModel, s2: ServerModel) -> bool {
    &&& s1.policy == s2.policy
    &&& s1.statuses == s2.statuses
    &&& s1.ledger == s2.ledger
    &&& s1.block == s2.block
    &&& s1.pending == s2.pending
    &&& s1.capacity == s2.capacity
}

proof fn lemma_same_course_step(s1: ServerModel, s2: ServerModel, t: Transaction)
    requires
        same_course(s1, s2),
    ensures
        same_course(handle_result(s1, t).0, handle_result(s2, t).0),
        handle_result(s1, t).1 == handle_result(s2, t).1,
{
}

/// Two nodes that stand alike and receive the same stream of transactions
/// keep the same ledger, and so the same commitment at every height.
pub proof fn lemma_deterministic_commitment(
    s1: ServerModel,
    s2: ServerModel,
    txns: Seq<Transaction>,
)
    requires
        same_course(s1, s2),
    ensures
        handle_all(s1, txns).ledger == handle_all(s2, txns).ledger,
        handle_all(s1, txns).ledger.commitment == handle_all(s2, txns).ledger.commitment,
        handle_all(s1, txns).ledger.height == handle_all(s2, txns).ledger.height,
    decreases txns.len(),
{
    lemma_same_course_all(s1, s2, txns);
}

proof fn lemma_same_course_all(s1: ServerModel, s2: ServerModel, txns: Seq<Transaction>)
    requires
        same_course(s1, s2),
    ensures
        same_course(handle_all(s1, txns), handle_all(s2, txns)),
    decreases txns.len(),
{
    if txns.len() > 0 {
        lemma_same_course_all(s1, s2, txns.drop_last());
        lemma_same_course_step(
            handle_all(s1, txns.drop_last()),
            handle_all(s2, txns.drop_last()),
            txns.last(),
        );
    }
}

proof fn lemma_delegate_stake(m: StakingModel, d: crate::data_model::Address, addr: String, am: u64)
    requires
        delegate_result(m, d, addr, am) is Ok,
    ensures
        stake_of(delegate_result(m, d, addr, am)->Ok_0, d, addr@) == stake_of(m, d, addr@) + am,
{
    let m2 = delegate_result(m, d, addr, am)->Ok_0;
    let p = delegation_at_fn(d, addr@);
    let k = delegation_pos(m, d, addr@);
    lemma_last_match(m.delegations, p);
    if k >= 0 {
        let rec = crate::staking::DelegationRecord {
            delegator: d,
            validator: m.delegations[k].validator,
            amount: (m.delegations[k].amount + am) as u64,
        };
        lemma_last_match_update(m.delegations, p, rec);
    } else {
        let rec = crate::staking::DelegationRecord { delegator: d, validator: addr, amount: am };
        lemma_last_match_push(m.delegations, p, rec);
    }
}

/// Bonding a delegation of `am` raises the delegator's stake with its
/// validator by exactly `am`.
pub proof fn lemma_delegation_conservation(m: StakingModel, op: DelegationOps, am: u64)
    requires
        stake_result(m, op, am) is Ok,
    ensures
        stake_of(stake_result(m, op, am)->Ok_0, op.pubkey, op.body.validator@) == stake_of(
            m,
            op.pubkey,
            op.body.validator@,
        ) + am,
{
    match op.body.validator_staking {
        Some(v) => {
            let m1 = register_result(m, op.body.validator, v)->Ok_0;
            assert(m1.delegations == m.delegations);
            lemma_delegate_stake(m1, op.pubkey, op.body.validator, am);
        },
        None => {
            lemma_delegate_stake(m, op.pubkey, op.body.validator, am);
        },
    }
}

/// Address `a` comes before address `b`: by operation, then by output.
pub open spec fn addr_before(a: UtxoAddress, b: UtxoAddress) -> bool {
    a.operation_index < b.operation_index || (a.operation_index == b.operation_index
        && a.output_index < b.output_index)
}

/// The addresses one transaction produces all carry its sequence number and
/// come in strictly increasing order of operation and output.
pub proof fn lemma_produced_ordered(ops: Seq<Operation>, sid: u64, n: int)
    requires
        0 <= n <= ops.len(),
        n <= 65536,
        forall|j: int| 0 <= j < n ==> op_outputs(#[trigger] ops[j]).len() <= 65536,
    ensures
        forall|i: int|
            0 <= i < produced_upto(ops, sid, n).len() ==> (#[trigger] produced_upto(ops, sid, n)[i]).transaction_id.val
                == sid && (produced_upto(ops, sid, n)[i].operation_index as int) < n,
        forall|i: int, j: int|
            0 <= i < j < produced_upto(ops, sid, n).len() ==> addr_before(
                produced_upto(ops, sid, n)[i],
                produced_upto(ops, sid, n)[j],
            ),
    decreases n,
{
    if n > 0 {
        lemma_produced_ordered(ops, sid, n - 1);
        let prev = produced_upto(ops, sid, n - 1);
        let cur = produced_upto(ops, sid, n);
        assert(cur.len() == prev.len() + op_outputs(ops[n - 1]).len());
        assert forall|i: int| 0 <= i < cur.len() implies (#[trigger] cur[i]).transaction_id.val == sid
            && (cur[i].operation_index as int) < n by {
            if i < prev.len() {
                assert(cur[i] == prev[i]);
            }
        }
        assert forall|i: int, j: int| 0 <= i < j < cur.len() implies addr_before(cur[i], cur[j]) by {
            if j < prev.len() {
                assert(cur[i] == prev[i] && cur[j] == prev[j]);
            } else if i < prev.len() {
                assert(cur[i] == prev[i]);
                assert(cur[j].operation_index as int == n - 1);
            } else {
                assert(cur[i].operation_index == cur[j].operation_index);
                assert(cur[i].output_index as int == i - prev.len());
                assert(cur[j].output_index as int == j - prev.len());
            }
        }
    }
}


/// `a` is the address of some unspent output.
pub open spec fn holds(s: Seq<Utxo>, a: UtxoAddress) -> bool {
    exists|i: int| 0 <= i < s.len() && (#[trigger] s[i]).key == a
}

proof fn lemma_keep_where_ext<A>(s: Seq<A>, p: spec_fn(A) -> bool, q: spec_fn(A) -> bool)
    requires
        forall|x: A| #[trigger] p(x) == q(x),
    ensures
        keep_where(s, p) == keep_where(s, q),
    decreases s.len(),
{
    if s.len() > 0 {
        lemma_keep_where_ext(s.drop_last(), p, q);
    }
}

proof fn lemma_keep_where_compose<A>(s: Seq<A>, p: spec_fn(A) -> bool, q: spec_fn(A) -> bool)
    ensures
        keep_where(keep_where(s, p), q) == keep_where(s, |x: A| p(x) && q(x)),
    decreases s.len(),
{
    if s.len() > 0 {
        let t = s.drop_last();
        let x = s.last();
        lemma_keep_where_compose(t, p, q);
        let kt = keep_where(t, p);
        if p(x) {
            assert(kt.push(x).drop_last() =~= kt);
        }
    }
}

proof fn lemma_keep_where_unique(s: Seq<Utxo>, p: spec_fn(Utxo) -> bool)
    requires
        keys_unique(s),
    ensures
        keys_unique(keep_where(s, p)),
    decreases s.len(),
{
    if s.len() > 0 {
        let t = s.drop_last();
        let x = s.last();
        assert(keys_unique(t)) by {
            assert forall|i: int, j: int| 0 <= i < j < t.len() implies t[i].key != t[j].key by {
                assert(t[i] == s[i] && t[j] == s[j]);
            }
        }
        lemma_keep_where_unique(t, p);
        lemma_keep_where(t, p);
        let kt = keep_where(t, p);
        if p(x) {
            assert forall|i: int, j: int|
                0 <= i < j < kt.push(x).len() implies kt.push(x)[i].key != kt.push(x)[j].key by {
                if j == kt.len() {
                    let l = choose|l: int| 0 <= l < t.len() && t[l] == #[trigger] kt[i];
                    assert(s[l] == t[l]);
                    assert(s[s.len() - 1] == x);
                }
            }
        }
    }
}

pub open spec fn ne_key_fn(a: UtxoAddress) -> spec_fn(Utxo) -> bool {
    |u: Utxo| u.key != a
}

/// Dropping the outputs that `inputs` names, each held exactly once, removes
/// one output per input and keeps addresses unique.
pub proof fn lemma_remove_inputs(s: Seq<Utxo>, inputs: Seq<UtxoAddress>)
    requires
        keys_unique(s),
        crate::store::distinct(inputs),
        forall|i: int| 0 <= i < inputs.len() ==> holds(s, #[trigger] inputs[i]),
    ensures
        keep_where(s, crate::store::unspent_by_fn(inputs)).len() == s.len() - inputs.len(),
        keys_unique(keep_where(s, crate::store::unspent_by_fn(inputs))),
    decreases inputs.len(),
{
    let p = crate::store::unspent_by_fn(inputs);
    lemma_keep_where_unique(s, p);
    if inputs.len() == 0 {
        crate::seqs::lemma_keep_where_all(s, p);
    } else {
        let rest = inputs.drop_last();
        let a = inputs.last();
        let pr = crate::store::unspent_by_fn(rest);
        assert(crate::store::distinct(rest)) by {
            assert forall|i: int, j: int| 0 <= i < j < rest.len() implies rest[i] != rest[j] by {
                assert(rest[i] == inputs[i] && rest[j] == inputs[j]);
            }
        }
        assert forall|i: int| 0 <= i < rest.len() implies holds(s, #[trigger] rest[i]) by {
            assert(rest[i] == inputs[i]);
            assert(holds(s, inputs[i]));
        }
        lemma_remove_inputs(s, rest);
        let s1 = keep_where(s, pr);
        lemma_keep_where_compose(s, pr, ne_key_fn(a));
        assert forall|u: Utxo| #[trigger] p(u) == (pr(u) && ne_key_fn(a)(u)) by {
            if rest.contains(u.key) {
                let l = choose|l: int| 0 <= l < rest.len() && rest[l] == u.key;
                assert(inputs[l] == u.key);
            }
            if inputs.contains(u.key) && u.key != a {
                let l = choose|l: int| 0 <= l < inputs.len() && inputs[l] == u.key;
                assert(l != inputs.len() - 1);
                assert(rest[l] == u.key);
            }
            if u.key == a {
                assert(inputs[inputs.len() - 1] == a);
            }
        }
        lemma_keep_where_ext(s, p, |x: Utxo| pr(x) && ne_key_fn(a)(x));
        assert(holds(s, inputs[inputs.len() - 1]));
        let k0 = choose|i: int| 0 <= i < s.len() && (#[trigger] s[i]).key == a;
        assert(!rest.contains(a)) by {
            if rest.contains(a) {
                let l = choose|l: int| 0 <= l < rest.len() && rest[l] == a;
                assert(inputs[l] == a && inputs[inputs.len() - 1] == a);
            }
        }
        assert(pr(s[k0]));
        lemma_keep_where(s, pr);
        let j = choose|j: int| 0 <= j < s1.len() && s1[j] == s[k0];
        lemma_keep_where_unique(s, pr);
        assert forall|i: int| 0 <= i < s1.len() && i != j implies ne_key_fn(a)(#[trigger] s1[i]) by {
            if i < j {
                assert(s1[i].key != s1[j].key);
            } else {
                assert(s1[j].key != s1[i].key);
            }
        }
        lemma_keep_where_one_out(s1, ne_key_fn(a), j);
    }
}

/// Every address either belongs to an earlier transaction than `sid`, or to
/// `sid` and one of its first `i` operations.
pub open spec fn placed(s: Seq<Utxo>, sid: u64, i: int) -> bool {
    forall|k: int|
        0 <= k < s.len() ==> (#[trigger] s[k]).key.transaction_id.val < sid || (
        s[k].key.transaction_id.val == sid && (s[k].key.operation_index as int) < i)
}

/// The addresses an operation spends.
pub open spec fn op_spent(op: Operation) -> Seq<UtxoAddress> {
    match op {
        Operation::AssetTransfer(x) => x.body.inputs@,
        _ => Seq::empty(),
    }
}

proof fn lemma_append_new(s: Seq<Utxo>, sid: u64, i: int, outs: Seq<crate::data_model::TxOutput>)
    requires
        keys_unique(s),
        placed(s, sid, i),
        0 <= i < 65536,
        outs.len() <= 65536,
    ensures
        keys_unique(s + new_utxos(sid, i, outs)),
        placed(s + new_utxos(sid, i, outs), sid, i + 1),
        forall|a: UtxoAddress|
            holds(s + new_utxos(sid, i, outs), a) ==> holds(s, a) || (a.transaction_id.val == sid
                && a.operation_index as int == i),
{
    let n = new_utxos(sid, i, outs);
    let t = s + n;
    assert forall|k: int| 0 <= k < n.len() implies (#[trigger] n[k]).key.transaction_id.val == sid
        && n[k].key.operation_index as int == i && n[k].key.output_index as int == k by {}
    assert forall|x: int, y: int| 0 <= x < y < t.len() implies t[x].key != t[y].key by {
        if y < s.len() {
            assert(t[x] == s[x] && t[y] == s[y]);
        } else if x < s.len() {
            assert(t[x] == s[x]);
            assert(t[y] == n[y - s.len()]);
        } else {
            assert(t[x] == n[x - s.len()] && t[y] == n[y - s.len()]);
        }
    }
    assert forall|k: int| 0 <= k < t.len() implies (#[trigger] t[k]).key.transaction_id.val < sid || (
    t[k].key.transaction_id.val == sid && (t[k].key.operation_index as int) < i + 1) by {
        if k < s.len() {
            assert(t[k] == s[k]);
        } else {
            assert(t[k] == n[k - s.len()]);
        }
    }
    assert forall|a: UtxoAddress| holds(t, a) implies holds(s, a) || (a.transaction_id.val == sid
        && a.operation_index as int == i) by {
        let k = choose|k: int| 0 <= k < t.len() && (#[trigger] t[k]).key == a;
        if k < s.len() {
            assert(t[k] == s[k]);
        } else {
            assert(t[k] == n[k - s.len()]);
        }
    }
}

/// One operation keeps addresses unique, places its new outputs under
/// operation `i`, removes exactly what it spends, and adds exactly what it
/// outputs; what it spends was held before and is gone after.
pub proof fn lemma_op_utxos(m: StatusModel, op: Operation, sid: u64, i: int, am: u64)
    requires
        keys_unique(m.utxos),
        placed(m.utxos, sid, i),
        0 <= i < 65536,
        op_result(m, op, sid, i, am) is Ok,
    ensures
        keys_unique(op_result(m, op, sid, i, am)->Ok_0.utxos),
        placed(op_result(m, op, sid, i, am)->Ok_0.utxos, sid, i + 1),
        op_result(m, op, sid, i, am)->Ok_0.utxos.len() + op_spent(op).len() == m.utxos.len()
            + op_outputs(op).len(),
        forall|a: UtxoAddress|
            holds(op_result(m, op, sid, i, am)->Ok_0.utxos, a) ==> holds(m.utxos, a) || (
            a.transaction_id.val == sid && a.operation_index as int == i),
        forall|k: int|
            0 <= k < op_spent(op).len() ==> holds(m.utxos, #[trigger] op_spent(op)[k]) && !holds(
                op_result(m, op, sid, i, am)->Ok_0.utxos,
                op_spent(op)[k],
            ),
{
    reveal(creation_result);
    reveal(issuance_result);
    reveal(transfer_result);
    let m2 = op_result(m, op, sid, i, am)->Ok_0;
    assert(placed(m.utxos, sid, i + 1));
    match op {
        Operation::AssetIssuance(x) => {
            assert(m2.utxos == m.utxos + new_utxos(sid, i, x.body.outputs@));
            lemma_append_new(m.utxos, sid, i, x.body.outputs@);
        },
        Operation::AssetTransfer(x) => {
            let ins = x.body.inputs@;
            let p = crate::store::unspent_by_fn(ins);
            let kept = keep_where(m.utxos, p);
            assert forall|k: int| 0 <= k < ins.len() implies holds(m.utxos, #[trigger] ins[k]) by {
                let pos = crate::store::utxo_pos(m, ins[k]);
                lemma_last_match(m.utxos, crate::store::utxo_at_fn(ins[k]));
                assert(m.utxos[pos].key == ins[k]);
            }
            lemma_remove_inputs(m.utxos, ins);
            lemma_keep_where(m.utxos, p);
            assert(placed(kept, sid, i)) by {
                assert forall|k: int| 0 <= k < kept.len() implies (#[trigger] kept[k]).key.transaction_id.val
                    < sid || (kept[k].key.transaction_id.val == sid && (kept[k].key.operation_index as int)
                    < i) by {
                    let l = choose|l: int| 0 <= l < m.utxos.len() && m.utxos[l] == #[trigger] kept[k];
                }
            }
            lemma_append_new(kept, sid, i, x.body.outputs@);
            assert forall|a: UtxoAddress| holds(kept, a) implies holds(m.utxos, a) by {
                let k = choose|k: int| 0 <= k < kept.len() && (#[trigger] kept[k]).key == a;
                let l = choose|l: int| 0 <= l < m.utxos.len() && m.utxos[l] == #[trigger] kept[k];
            }
            assert forall|k: int| 0 <= k < ins.len() implies !holds(m2.utxos, #[trigger] ins[k]) by {
                if holds(m2.utxos, ins[k]) {
                    let a = ins[k];
                    if holds(kept, a) {
                        let j = choose|j: int| 0 <= j < kept.len() && (#[trigger] kept[j]).key == a;
                        assert(p(kept[j]));
                    } else {
                        let q = choose|q: int| 0 <= q < m.utxos.len() && (#[trigger] m.utxos[q]).key == a;
                        assert(placed(m.utxos, sid, i));
                    }
                }
            }
        },
        _ => {
            assert(m2.utxos == m.utxos);
        },
    }
}

pub open spec fn spent_len_fn() -> spec_fn(Operation) -> nat {
    |op: Operation| op_spent(op).len()
}

pub open spec fn made_len_fn() -> spec_fn(Operation) -> nat {
    |op: Operation| op_outputs(op).len()
}

/// How many outputs a transaction spends.
pub open spec fn spent_count(txn: Transaction) -> nat {
    sum_nat(txn.operations@, spent_len_fn())
}

/// How many outputs a transaction produces.
pub open spec fn made_count(txn: Transaction) -> nat {
    sum_nat(txn.operations@, made_len_fn())
}

proof fn lemma_ops_utxos(m: StatusModel, ops: Seq<Operation>, sid: u64, am: u64)
    requires
        keys_unique(m.utxos),
        placed(m.utxos, sid, 0),
        ops.len() <= 65536,
        ops_result(m, ops, sid, am) is Ok,
    ensures
        keys_unique(ops_result(m, ops, sid, am)->Ok_0.utxos),
        placed(ops_result(m, ops, sid, am)->Ok_0.utxos, sid, ops.len() as int),
        ops_result(m, ops, sid, am)->Ok_0.utxos.len() + sum_nat(ops, spent_len_fn()) == m.utxos.len()
            + sum_nat(ops, made_len_fn()),
        forall|a: UtxoAddress|
            holds(ops_result(m, ops, sid, am)->Ok_0.utxos, a) ==> holds(m.utxos, a)
                || a.transaction_id.val == sid,
        ops_result(m, ops, sid, am)->Ok_0.next_txn == m.next_txn,
    decreases ops.len(),
{
    if ops.len() > 0 {
        let rest = ops.drop_last();
        lemma_ops_utxos(m, rest, sid, am);
        let m1 = ops_result(m, rest, sid, am)->Ok_0;
        let op = ops.last();
        lemma_op_utxos(m1, op, sid, rest.len() as int, am);
        reveal(creation_result);
        reveal(issuance_result);
        reveal(transfer_result);
    }
}


/// Applying a transaction keeps the state well formed, and the number of
/// unspent outputs grows by what it produces less what it spends.
pub proof fn lemma_utxo_conservation(m: StatusModel, txn: Transaction)
    requires
        utxos_wf(m),
        apply_result(m, txn) is Ok,
    ensures
        utxos_wf(apply_result(m, txn)->Ok_0),
        apply_result(m, txn)->Ok_0.utxos.len() + spent_count(txn) == m.utxos.len() + made_count(txn),
{
    let am = effect_result(txn)->Ok_0;
    let sid = m.next_txn;
    lemma_ops_utxos(m, txn.operations@, sid, am);
}

/// Transactions applied in order; the first failure ends it.
pub open spec fn apply_all(m: StatusModel, txns: Seq<Transaction>) -> Result<
    StatusModel,
    crate::error::LedgerError,
>
    decreases txns.len(),
{
    if txns.len() == 0 {
        Ok(m)
    } else {
        match apply_all(m, txns.drop_last()) {
            Ok(m1) => apply_result(m1, txns.last()),
            Err(e) => Err(e),
        }
    }
}

pub open spec fn spent_count_fn() -> spec_fn(Transaction) -> nat {
    |t: Transaction| spent_count(t)
}

pub open spec fn made_count_fn() -> spec_fn(Transaction) -> nat {
    |t: Transaction| made_count(t)
}

/// Over any history of transactions, the unspent outputs number those there
/// were at the start plus all produced less all spent.
pub proof fn lemma_utxo_conservation_all(m: StatusModel, txns: Seq<Transaction>)
    requires
        utxos_wf(m),
        apply_all(m, txns) is Ok,
    ensures
        utxos_wf(apply_all(m, txns)->Ok_0),
        apply_all(m, txns)->Ok_0.utxos.len() + sum_nat(txns, spent_count_fn()) == m.utxos.len()
            + sum_nat(txns, made_count_fn()),
    decreases txns.len(),
{
    if txns.len() > 0 {
        lemma_utxo_conservation_all(m, txns.drop_last());
        lemma_utxo_conservation(apply_all(m, txns.drop_last())->Ok_0, txns.last());
    }
}

/// An address from an earlier transaction that is not unspent before a
/// transaction is not unspent after it. As a transfer spends only unspent
/// outputs, each of which is then gone, no address is spent twice.
pub proof fn lemma_no_double_spend(m: StatusModel, txn: Transaction, a: UtxoAddress)
    requires
        utxos_wf(m),
        apply_result(m, txn) is Ok,
        !holds(m.utxos, a),
        a.transaction_id.val < m.next_txn,
    ensures
        !holds(apply_result(m, txn)->Ok_0.utxos, a),
        a.transaction_id.val < apply_result(m, txn)->Ok_0.next_txn,
{
    let am = effect_result(txn)->Ok_0;
    lemma_ops_utxos(m, txn.operations@, m.next_txn, am);
}

/// Each applied transaction takes the next sequence number: over a history
/// the numbers run on without gaps.
pub proof fn lemma_sequencing(m: StatusModel, txns: Seq<Transaction>)
    requires
        apply_all(m, txns) is Ok,
    ensures
        apply_all(m, txns)->Ok_0.next_txn == m.next_txn + txns.len(),
    decreases txns.len(),
{
    if txns.len() > 0 {
        lemma_sequencing(m, txns.drop_last());
        let m1 = apply_all(m, txns.drop_last())->Ok_0;
        let am = effect_result(txns.last())->Ok_0;
        if txns.last().operations@.len() <= 65536 && m1.next_txn < u64::MAX {
            lemma_ops_next(m1, txns.last().operations@, m1.next_txn, am);
        }
    }
}

proof fn lemma_ops_next(m: StatusModel, ops: Seq<Operation>, sid: u64, am: u64)
    requires
        ops_result(m, ops, sid, am) is Ok,
    ensures
        ops_result(m, ops, sid, am)->Ok_0.next_txn == m.next_txn,
    decreases ops.len(),
{
    reveal(creation_result);
    reveal(issuance_result);
    reveal(transfer_result);
    if ops.len() > 0 {
        lemma_ops_next(m, ops.drop_last(), sid, am);
    }
}

/// A finished block numbers its transactions one after another from where it
/// started.
pub proof fn lemma_finished_gap_free(b: crate::store::BlockModel)
    requires
        b.base_txn + b.txns.len() <= u64::MAX,
    ensures
        forall|i: int|
            0 <= i < b.txns.len() ==> (#[trigger] crate::store::finished(b)[i]).0 == crate::data_model::TxnSID(
                (b.base_txn + i) as u64,
            ),
        forall|i: int|
            0 <= i && i + 1 < b.txns.len() ==> (#[trigger] crate::store::finished(b)[i + 1]).0.0 == crate::store::finished(b)[i].0.0 + 1,
{
}

proof fn lemma_sum_concat<A>(s: Seq<A>, t: Seq<A>, f: spec_fn(A) -> nat)
    ensures
        sum_nat(s + t, f) == sum_nat(s, f) + sum_nat(t, f),
    decreases t.len(),
{
    if t.len() > 0 {
        lemma_sum_concat(s, t.drop_last(), f);
        assert((s + t).drop_last() =~= s + t.drop_last());
    } else {
        assert(s + t =~= s);
    }
}

proof fn lemma_sum_split<A>(s: Seq<A>, f: spec_fn(A) -> nat, g: spec_fn(A) -> nat, h: spec_fn(A) -> nat)
    requires
        forall|x: A| #[trigger] f(x) == g(x) + h(x),
    ensures
        sum_nat(s, f) == sum_nat(s, g) + sum_nat(s, h),
    decreases s.len(),
{
    if s.len() > 0 {
        lemma_sum_split(s.drop_last(), f, g, h);
    }
}

/// A measure of records, taken of the record an unspent output holds.
pub open spec fn lift(g: spec_fn(crate::data_model::TxOutput) -> nat) -> spec_fn(Utxo) -> nat {
    |u: Utxo| g(u.output)
}

proof fn lemma_sum_new_utxos(
    sid: u64,
    i: int,
    outs: Seq<crate::data_model::TxOutput>,
    g: spec_fn(crate::data_model::TxOutput) -> nat,
)
    ensures
        sum_nat(new_utxos(sid, i, outs), lift(g)) == sum_nat(outs, g),
    decreases outs.len(),
{
    if outs.len() > 0 {
        assert(new_utxos(sid, i, outs).drop_last() =~= new_utxos(sid, i, outs.drop_last()));
        lemma_sum_new_utxos(sid, i, outs.drop_last(), g);
    }
}

proof fn lemma_keep_where_one_out_sum<A>(s: Seq<A>, p: spec_fn(A) -> bool, k: int, f: spec_fn(A) -> nat)
    requires
        0 <= k < s.len(),
        !p(s[k]),
        forall|i: int| 0 <= i < s.len() && i != k ==> p(#[trigger] s[i]),
    ensures
        sum_nat(keep_where(s, p), f) + f(s[k]) == sum_nat(s, f),
    decreases s.len(),
{
    let t = s.drop_last();
    if k == s.len() - 1 {
        assert forall|i: int| 0 <= i < t.len() implies p(#[trigger] t[i]) by {
            assert(t[i] == s[i]);
        }
        crate::seqs::lemma_keep_where_all(t, p);
        assert(s.last() == s[k]);
    } else {
        assert(t[k] == s[k]);
        assert forall|i: int| 0 <= i < t.len() && i != k implies p(#[trigger] t[i]) by {
            assert(t[i] == s[i]);
        }
        lemma_keep_where_one_out_sum(t, p, k, f);
        assert(p(s[s.len() - 1]));
        let kt = keep_where(t, p);
        assert(kt.push(s.last()).drop_last() =~= kt);
    }
}

/// Some unspent output at `a` holds the record `rec`.
pub open spec fn held_as(s: Seq<Utxo>, a: UtxoAddress, rec: crate::data_model::TxOutput) -> bool {
    exists|k: int| 0 <= k < s.len() && (#[trigger] s[k]).key == a && s[k].output == rec
}

/// Dropping the outputs that `inputs` names, whose records are `recs`, takes
/// from any sum over records exactly what the records carry.
#[verifier::rlimit(60)]
proof fn lemma_remove_inputs_sum(
    s: Seq<Utxo>,
    inputs: Seq<UtxoAddress>,
    recs: Seq<crate::data_model::TxOutput>,
    g: spec_fn(crate::data_model::TxOutput) -> nat,
)
    requires
        keys_unique(s),
        crate::store::distinct(inputs),
        inputs.len() == recs.len(),
        forall|i: int| 0 <= i < inputs.len() ==> held_as(s, #[trigger] inputs[i], recs[i]),
    ensures
        sum_nat(keep_where(s, crate::store::unspent_by_fn(inputs)), lift(g)) + sum_nat(recs, g)
            == sum_nat(s, lift(g)),
    decreases inputs.len(),
{
    let f = lift(g);
    let p = crate::store::unspent_by_fn(inputs);
    if inputs.len() == 0 {
        crate::seqs::lemma_keep_where_all(s, p);
    } else {
        let rest = inputs.drop_last();
        let rrest = recs.drop_last();
        let a = inputs.last();
        let pr = crate::store::unspent_by_fn(rest);
        assert(crate::store::distinct(rest)) by {
            assert forall|i: int, j: int| 0 <= i < j < rest.len() implies rest[i] != rest[j] by {
                assert(rest[i] == inputs[i] && rest[j] == inputs[j]);
            }
        }
        assert forall|i: int| 0 <= i < rest.len() implies held_as(s, #[trigger] rest[i], rrest[i]) by {
            assert(rest[i] == inputs[i] && rrest[i] == recs[i]);
        }
        lemma_remove_inputs_sum(s, rest, rrest, g);
        let s1 = keep_where(s, pr);
        lemma_keep_where_compose(s, pr, ne_key_fn(a));
        assert forall|u: Utxo| #[trigger] p(u) == (pr(u) && ne_key_fn(a)(u)) by {
            if rest.contains(u.key) {
                let l = choose|l: int| 0 <= l < rest.len() && rest[l] == u.key;
                assert(inputs[l] == u.key);
            }
            if inputs.contains(u.key) && u.key != a {
                let l = choose|l: int| 0 <= l < inputs.len() && inputs[l] == u.key;
                assert(l != inputs.len() - 1);
                assert(rest[l] == u.key);
            }
            if u.key == a {
                assert(inputs[inputs.len() - 1] == a);
            }
        }
        lemma_keep_where_ext(s, p, |x: Utxo| pr(x) && ne_key_fn(a)(x));
        let last = inputs.len() - 1;
        assert(held_as(s, inputs[last], recs[last]));
        let k0 = choose|k: int| 0 <= k < s.len() && (#[trigger] s[k]).key == inputs[last] && s[k].output == recs[last];
        assert(!rest.contains(a)) by {
            if rest.contains(a) {
                let l = choose|l: int| 0 <= l < rest.len() && rest[l] == a;
                assert(inputs[l] == a && inputs[last] == a);
            }
        }
        assert(pr(s[k0]));
        lemma_keep_where(s, pr);
        let j = choose|j: int| 0 <= j < s1.len() && s1[j] == s[k0];
        lemma_keep_where_unique(s, pr);
        assert forall|i: int| 0 <= i < s1.len() && i != j implies ne_key_fn(a)(#[trigger] s1[i]) by {
            if i < j {
                assert(s1[i].key != s1[j].key);
            } else {
                assert(s1[j].key != s1[i].key);
            }
        }
        lemma_keep_where_one_out_sum(s1, ne_key_fn(a), j, f);
        assert(recs.drop_last().push(recs.last()) =~= recs);
        assert(f(s1[j]) == g(recs[last]));
    }
}

proof fn lemma_sum_split_on<A>(s: Seq<A>, f: spec_fn(A) -> nat, g: spec_fn(A) -> nat, h: spec_fn(A) -> nat)
    requires
        forall|i: int| 0 <= i < s.len() ==> #[trigger] f(s[i]) == g(s[i]) + h(s[i]),
    ensures
        sum_nat(s, f) == sum_nat(s, g) + sum_nat(s, h),
    decreases s.len(),
{
    if s.len() > 0 {
        let t = s.drop_last();
        assert forall|i: int| 0 <= i < t.len() implies #[trigger] f(t[i]) == g(t[i]) + h(t[i]) by {
            assert(t[i] == s[i]);
        }
        lemma_sum_split_on(t, f, g, h);
        assert(f(s[s.len() - 1]) == g(s[s.len() - 1]) + h(s[s.len() - 1]));
    }
}

/// What `d` holds of asset `c` in a record.
pub open spec fn owned_amount(o: TxOutput, d: Address, c: AssetTokenCode) -> nat {
    if o.public_key == d {
        amount_of(o, c)
    } else {
        0
    }
}

pub open spec fn owned_fn(d: Address, c: AssetTokenCode) -> spec_fn(TxOutput) -> nat {
    |o: TxOutput| owned_amount(o, d, c)
}

/// What `d` holds of asset `c` among the unspent outputs.
pub open spec fn balance_of(s: Seq<Utxo>, d: Address, c: AssetTokenCode) -> nat {
    sum_nat(s, lift(owned_fn(d, c)))
}

/// Every output of the native asset goes to `d` or to the escrow key.
pub open spec fn pays_only_to(outs: Seq<TxOutput>, d: Address, fra: AssetTokenCode) -> bool {
    forall|i: int|
        0 <= i < outs.len() && (#[trigger] outs[i]).asset_type == XfrAssetType::NonConfidential(fra)
            ==> outs[i].public_key == d || is_principal(outs[i].public_key)
}

/// A transaction that only delegates for `d` and pays for it: each operation
/// is a delegation or a transfer of `d`'s own outputs whose native asset goes
/// only to `d` or to escrow.
pub open spec fn delegation_shaped(ops: Seq<Operation>, d: Address, fra: AssetTokenCode) -> bool {
    !is_principal(d) && forall|j: int|
        0 <= j < ops.len() ==> match #[trigger] ops[j] {
            Operation::Delegation(_) => true,
            Operation::AssetTransfer(x) => single_owner(x.body.input_records@, d) && pays_only_to(
                x.body.outputs@,
                d,
                fra,
            ),
            _ => false,
        }
}

proof fn lemma_transfer_balance(
    m: StatusModel,
    x: crate::data_model::AssetTransfer,
    sid: u64,
    i: int,
    d: Address,
    fra: AssetTokenCode,
)
    requires
        keys_unique(m.utxos),
        is_fra(fra),
        !is_principal(d),
        single_owner(x.body.input_records@, d),
        pays_only_to(x.body.outputs@, d, fra),
        transfer_result(m, x, sid, i) is Ok,
    ensures
        balance_of(transfer_result(m, x, sid, i)->Ok_0.utxos, d, fra) + paid_by(
            Operation::AssetTransfer(x),
            d,
        ) == balance_of(m.utxos, d, fra),
{
    reveal(transfer_result);
    let b = x.body;
    let ins = b.inputs@;
    let recs = b.input_records@;
    let outs = b.outputs@;
    let g = owned_fn(d, fra);
    let kept = keep_where(m.utxos, crate::store::unspent_by_fn(ins));
    assert forall|k: int| 0 <= k < ins.len() implies held_as(m.utxos, #[trigger] ins[k], recs[k]) by {
        let pos = crate::store::utxo_pos(m, ins[k]);
        lemma_last_match(m.utxos, crate::store::utxo_at_fn(ins[k]));
        assert(m.utxos[pos].key == ins[k] && m.utxos[pos].output == recs[k]);
    }
    lemma_remove_inputs_sum(m.utxos, ins, recs, g);
    lemma_sum_new_utxos(sid, i, outs, g);
    lemma_sum_concat(kept, new_utxos(sid, i, outs), lift(g));
    let zero = |o: TxOutput| 0nat;
    lemma_sum_split_on(recs, amount_of_fn_at(fra), g, zero);
    assert(sum_nat(recs, zero) == 0) by {
        lemma_sum_split_on(recs, zero, zero, zero);
    }
    assert forall|k: int| 0 <= k < outs.len() implies #[trigger] amount_of_fn_at(fra)(outs[k]) == g(
        outs[k],
    ) + crate::staking::principal_amount_fn()(outs[k]) by {
        let o = outs[k];
        match o.asset_type {
            XfrAssetType::NonConfidential(ty) => {
                if is_fra(ty) {
                    vstd::array::axiom_array_ext_equal(ty.val, fra.val);
                }
                if is_principal(o.public_key) && o.public_key == d {
                    assert(is_principal(d));
                }
            },
            _ => {},
        }
    }
    lemma_sum_split_on(outs, amount_of_fn_at(fra), g, crate::staking::principal_amount_fn());
    assert(crate::store::balanced(recs, outs));
    assert(sum_nat(recs, crate::store::amount_of_fn(fra)) == sum_nat(outs, crate::store::amount_of_fn(fra)));
    lemma_sum_ext(recs, crate::store::amount_of_fn(fra), amount_of_fn_at(fra));
    lemma_sum_ext(outs, crate::store::amount_of_fn(fra), amount_of_fn_at(fra));
}

pub open spec fn amount_of_fn_at(c: AssetTokenCode) -> spec_fn(TxOutput) -> nat {
    |o: TxOutput| amount_of(o, c)
}

proof fn lemma_sum_ext<A>(s: Seq<A>, f: spec_fn(A) -> nat, g: spec_fn(A) -> nat)
    requires
        forall|x: A| #[trigger] f(x) == g(x),
    ensures
        sum_nat(s, f) == sum_nat(s, g),
    decreases s.len(),
{
    if s.len() > 0 {
        lemma_sum_ext(s.drop_last(), f, g);
    }
}

proof fn lemma_ops_balance(
    m: StatusModel,
    ops: Seq<Operation>,
    sid: u64,
    am: u64,
    d: Address,
    fra: AssetTokenCode,
)
    requires
        keys_unique(m.utxos),
        placed(m.utxos, sid, 0),
        ops.len() <= 65536,
        is_fra(fra),
        delegation_shaped(ops, d, fra),
        ops_result(m, ops, sid, am) is Ok,
    ensures
        balance_of(ops_result(m, ops, sid, am)->Ok_0.utxos, d, fra) + sum_nat(ops, paid_by_fn(d))
            == balance_of(m.utxos, d, fra),
    decreases ops.len(),
{
    if ops.len() > 0 {
        let rest = ops.drop_last();
        assert(delegation_shaped(rest, d, fra)) by {
            assert forall|j: int| 0 <= j < rest.len() implies match #[trigger] rest[j] {
                Operation::Delegation(_) => true,
                Operation::AssetTransfer(x) => single_owner(x.body.input_records@, d) && pays_only_to(
                    x.body.outputs@,
                    d,
                    fra,
                ),
                _ => false,
            } by {
                assert(rest[j] == ops[j]);
            }
        }
        lemma_ops_balance(m, rest, sid, am, d, fra);
        lemma_ops_utxos(m, rest, sid, am);
        let m1 = ops_result(m, rest, sid, am)->Ok_0;
        let op = ops.last();
        assert(op == ops[ops.len() - 1]);
        match op {
            Operation::AssetTransfer(x) => {
                lemma_transfer_balance(m1, x, sid, rest.len() as int, d, fra);
            },
            _ => {},
        }
    }
}

/// A delegation transaction of `d` that pays only into escrow and back to
/// `d` lowers `d`'s plain holding of the native asset by exactly the stake it
/// bonds; `lemma_delegation_conservation` shows the stake rising by as much.
pub proof fn lemma_delegation_balance(m: StatusModel, txn: Transaction, fra: AssetTokenCode)
    requires
        utxos_wf(m),
        is_fra(fra),
        last_match(txn.operations@, is_delegation_fn()) >= 0,
        delegation_shaped(txn.operations@, delegator_of(txn.operations@), fra),
        apply_result(m, txn) is Ok,
    ensures
        balance_of(apply_result(m, txn)->Ok_0.utxos, delegator_of(txn.operations@), fra)
            + effect_result(txn)->Ok_0 == balance_of(m.utxos, delegator_of(txn.operations@), fra),
{
    let ops = txn.operations@;
    let d = delegator_of(ops);
    let am = effect_result(txn)->Ok_0;
    let k = last_match(ops, is_delegation_fn());
    lemma_last_match(ops, is_delegation_fn());
    assert(is_delegation_fn()(ops[k]));
    assert(am as nat == stake_paid(txn, d));
    lemma_ops_balance(m, ops, m.next_txn, am, d, fra);
}

/// Applying a transaction keeps the state well formed and uses up exactly one
/// sequence number.
pub proof fn lemma_apply_wf(m: StatusModel, txn: Transaction)
    requires
        crate::store::status_wf(m),
        apply_result(m, txn) is Ok,
    ensures
        crate::store::status_wf(apply_result(m, txn)->Ok_0),
        apply_result(m, txn)->Ok_0.next_txn == m.next_txn + 1,
{
    lemma_utxo_conservation(m, txn);
    let am = effect_result(txn)->Ok_0;
    lemma_ops_next(m, txn.operations@, m.next_txn, am);
    lemma_ops_staking(m, txn.operations@, m.next_txn, am);
}

proof fn lemma_ops_staking(m: StatusModel, ops: Seq<Operation>, sid: u64, am: u64)
    requires
        crate::staking::staking_wf(m.staking),
        ops_result(m, ops, sid, am) is Ok,
    ensures
        crate::staking::staking_wf(ops_result(m, ops, sid, am)->Ok_0.staking),
    decreases ops.len(),
{
    reveal(creation_result);
    reveal(issuance_result);
    reveal(transfer_result);
    if ops.len() > 0 {
        lemma_ops_staking(m, ops.drop_last(), sid, am);
        let m1 = ops_result(m, ops.drop_last(), sid, am)->Ok_0;
        if let Operation::Delegation(d) = ops.last() {
            crate::staking::lemma_stake_wf(m1.staking, d, am);
        }
    }
}

pub proof fn lemma_begin_wf(s: ServerModel)
    requires
        server_wf(s),
    ensures
        server_wf(begin_result(s).0),
{
}

pub proof fn lemma_cache_wf(s: ServerModel, t: Transaction)
    requires
        server_wf(s),
    ensures
        server_wf(cache_result(s, t).0),
{
    if let Some(b) = s.block {
        if apply_result(b.working, t) is Ok {
            lemma_apply_wf(b.working, t);
            let s2 = cache_result(s, t).0;
            if s2.block != s.block {
                let b2 = s2.block->Some_0;
                lemma_utxo_conservation(b.working, t);
                assert(b2.txns.drop_last() =~= b.txns);
                assert forall|i: int| 0 <= i < b2.txns.len() implies crate::store::fits_addresses(
                    #[trigger] b2.txns[i],
                ) by {
                    if i < b.txns.len() {
                        assert(b2.txns[i] == b.txns[i]);
                    }
                }
                assert forall|i: int| 0 <= i < s2.pending.len() implies (#[trigger] s2.pending[i]).0
                    == crate::data_model::TxnTempSID(i as u64) by {
                    if i < s.pending.len() {
                        assert(s2.pending[i] == s.pending[i]);
                    }
                }
            }
        }
    }
}

pub proof fn lemma_end_wf(s: ServerModel)
    requires
        server_wf(s),
    ensures
        server_wf(end_result(s).0),
{
}

pub proof fn lemma_abort_wf(s: ServerModel)
    requires
        server_wf(s),
    ensures
        server_wf(abort_result(s)),
{
}

pub proof fn lemma_handle_wf(s: ServerModel, t: Transaction)
    requires
        server_wf(s),
    ensures
        server_wf(handle_result(s, t).0),
{
    lemma_begin_wf(s);
    let s1 = if s.block is None {
        begin_result(s).0
    } else {
        s
    };
    lemma_cache_wf(s1, t);
    lemma_end_wf(cache_result(s1, t).0);
}

/// On a well-formed server holding a block, ending the block succeeds unless
/// the height is exhausted. The pending transactions, in order, are marked
/// committed under the canonical identifiers that follow on from the ledger's
/// with the addresses each produced, the ledger takes the block's state, and
/// nothing is left pending or open. The unspent outputs number those before
/// plus all the block produced less all it spent.
pub proof fn lemma_end_block_commits(s: ServerModel)
    requires
        server_wf(s),
        s.block is Some,
        s.ledger.height < u64::MAX,
    ensures
        end_result(s).1 is Ok,
        ({
            let b = s.block->Some_0;
            let s2 = end_result(s).0;
            &&& s2.statuses == crate::submission_server::commit_statuses(
                s.statuses,
                s.pending,
                crate::store::finished(b),
            )
            &&& forall|i: int|
                0 <= i < s.pending.len() ==> (#[trigger] s.pending[i]).0.0 == i
                    && crate::store::finished(b)[i].0 == crate::data_model::TxnSID(
                    (s.ledger.status.next_txn + i) as u64,
                ) && crate::store::finished(b)[i].1 == crate::store::produced(
                    b.txns[i],
                    (s.ledger.status.next_txn + i) as u64,
                )
            &&& s2.ledger.status == b.working
            &&& s2.ledger.status.utxos.len() + sum_nat(b.txns, spent_count_fn()) == s.ledger.status.utxos.len()
                + sum_nat(b.txns, made_count_fn())
            &&& s2.ledger.status.next_txn == s.ledger.status.next_txn + s.pending.len()
            &&& s2.ledger.height == s.ledger.height + 1
            &&& s2.pending.len() == 0
            &&& s2.block is None
            &&& !s2.ledger.block_open
        }),
{
}

} // verus!
