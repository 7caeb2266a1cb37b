//! The submission server: it holds the open block, applies incoming
//! transactions to it, commits it when it is full, and tracks each
//! transaction's status under its content handle.

use crate::codec::{le_bytes, push_le, push_transaction, transaction_bytes};
use crate::crypto::{compute_sha256_hash, hex_lower, sha256_of, to_hex};
use crate::data_model::{Transaction, TxnSID, TxnTempSID, UtxoAddress};
use crate::error::LedgerError;
use crate::seqs::{last_match, lemma_last_match, lemma_last_match_take};
use crate::store::{
    block_wf, ledger_wf, at_height, apply_result, committed, finish_ok, finished, fits_addresses, BlockContext, BlockModel,
    LedgerModel, LedgerState, LedgerUpdate, TxnEffect,
};
use vstd::prelude::*;

verus! {

/// The bytes a handle is the digest of: the transaction encoded with the
/// not-yet-assigned sequence number zero in front.
pub open spec fn handle_bytes(t: Transaction) -> Seq<u8> {
    le_bytes(0, 8) + transaction_bytes(t)
}

/// A transaction's handle: lower-case hexadecimal of the SHA-256 digest of its bytes.
pub open spec fn handle_of(t: Transaction) -> Seq<char> {
    hex_lower(sha256_of(handle_bytes(t))@)
}

/// The client-facing name of a transaction, derived from its content.
#[derive(Clone, Debug, PartialEq, Eq, Hash)]
pub struct TxnHandle(pub String);

impl TxnHandle {
    pub fn new(txn: &Transaction) -> (r: TxnHandle)
        ensures
            r.0@ == handle_of(*txn),
    {
        let mut bytes: Vec<u8> = Vec::new();
        push_le(&mut bytes, 0, 8);
        push_transaction(&mut bytes, txn);
        assert(bytes@ =~= handle_bytes(*txn));
        let digest = compute_sha256_hash(bytes.as_slice());
        TxnHandle(to_hex(&digest))
    }

    pub fn duplicate(&self) -> (r: TxnHandle)
        ensures
            r == *self,
    {
        TxnHandle(self.0.clone())
    }

    /// The handle as text.
    pub fn to_string(&self) -> (r: String)
        ensures
            r@ == self.0@,
    {
        self.0.clone()
    }
}

/// Whether a transaction is committed, with where, or still pending.
#[derive(Debug, PartialEq, Eq)]
pub enum TxnStatus {
    Committed((TxnSID, Vec<UtxoAddress>)),
    Pending,
}

/// A `TxnStatus` with its addresses as a sequence.
pub enum StatusModel {
    Committed(TxnSID, Seq<UtxoAddress>),
    Pending,
}

impl View for TxnStatus {
    type V = StatusModel;

    open spec fn view(&self) -> StatusModel {
        match self {
            TxnStatus::Committed((s, v)) => StatusModel::Committed(*s, v@),
            TxnStatus::Pending => StatusModel::Pending,
        }
    }
}

fn copy_addresses(v: &Vec<UtxoAddress>) -> (r: Vec<UtxoAddress>)
    ensures
        r@ == v@,
{
    let mut r: Vec<UtxoAddress> = Vec::new();
    let mut i: usize = 0;
    while i < v.len()
        invariant
            0 <= i <= v@.len(),
            r@ == v@.take(i as int),
        decreases v@.len() - i,
    {
        r.push(v[i]);
        assert(v@.take(i + 1) =~= v@.take(i as int).push(v@[i as int]));
        i = i + 1;
    }
    assert(v@.take(i as int) =~= v@);
    r
}

impl TxnStatus {
    pub fn duplicate(&self) -> (r: TxnStatus)
        ensures
            r@ == self@,
    {
        match self {
            TxnStatus::Committed((s, v)) => TxnStatus::Committed((*s, copy_addresses(v))),
            TxnStatus::Pending => TxnStatus::Pending,
        }
    }
}

pub open spec fn handle_at_fn(h: Seq<char>) -> spec_fn((Seq<char>, StatusModel)) -> bool {
    |e: (Seq<char>, StatusModel)| e.0 == h
}

/// The status recorded for `h`, if any.
pub open spec fn status_of(st: Seq<(Seq<char>, StatusModel)>, h: Seq<char>) -> Option<StatusModel> {
    let k = last_match(st, handle_at_fn(h));
    if k >= 0 {
        Some(st[k].1)
    } else {
        None
    }
}

/// Records `v` as the status of `h`, over any earlier one.
pub open spec fn set_status(st: Seq<(Seq<char>, StatusModel)>, h: Seq<char>, v: StatusModel) -> Seq<
    (Seq<char>, StatusModel),
> {
    let k = last_match(st, handle_at_fn(h));
    if k >= 0 {
        st.update(k, (h, v))
    } else {
        st.push((h, v))
    }
}

/// Marks each pending transaction committed, in order, with what the block
/// reported under its temporary identifier.
pub open spec fn commit_statuses(
    st: Seq<(Seq<char>, StatusModel)>,
    pending: Seq<(TxnTempSID, Seq<char>)>,
    fin: Seq<(TxnSID, Seq<UtxoAddress>)>,
) -> Seq<(Seq<char>, StatusModel)>
    decreases pending.len(),
{
    if pending.len() == 0 {
        st
    } else {
        let prev = commit_statuses(st, pending.drop_last(), fin);
        let (t, h) = pending.last();
        if t.0 < fin.len() {
            set_status(prev, h, StatusModel::Committed(fin[t.0 as int].0, fin[t.0 as int].1))
        } else {
            prev
        }
    }
}

/// What a server does with a transaction whose handle it has seen before.
#[derive(Clone, Copy, Debug, PartialEq, Eq, Structural)]
pub enum DuplicatePolicy {
    /// Accept it; its status replaces the earlier one.
    Overwrite,
    /// Refuse it as a replay.
    Reject,
}

/// What a `SubmissionServer` holds: the duplicate policy, the ledger, the
/// open block, the pending transactions by temporary identifier and handle,
/// the status of each handle, and the block capacity.
pub struct ServerModel {
    pub policy: DuplicatePolicy,
    pub ledger: LedgerModel,
    pub block: Option<BlockModel>,
    pub pending: Seq<(TxnTempSID, Seq<char>)>,
    pub statuses: Seq<(Seq<char>, StatusModel)>,
    pub capacity: usize,
}

/// The invariant of a server: its ledger is well formed; it holds a block
/// exactly when the ledger has one open; that block is well formed, starts
/// where the ledger stands, and its transactions are pending under the
/// temporary identifiers 0, 1, ... in order; with no block, nothing is pending.
pub open spec fn server_wf(s: ServerModel) -> bool {
    &&& ledger_wf(s.ledger)
    &&& (s.block is Some <==> s.ledger.block_open)
    &&& match s.block {
        Some(b) => {
            &&& block_wf(b)
            &&& b.base_txn == s.ledger.status.next_txn
            &&& b.base_utxos == s.ledger.status.utxos.len()
            &&& s.pending.len() == b.txns.len()
            &&& forall|i: int| 0 <= i < s.pending.len() ==> (#[trigger] s.pending[i]).0 == TxnTempSID(i as u64)
        },
        None => s.pending.len() == 0,
    }
}

/// Opening a block when none is held.
pub open spec fn begin_result(s: ServerModel) -> (ServerModel, Result<(), LedgerError>) {
    if s.block is Some || s.ledger.block_open {
        (s, Err(LedgerError::CapacityError))
    } else {
        (
            ServerModel {
                ledger: LedgerModel { block_open: true, ..s.ledger },
                block: Some(
                    BlockModel {
                        working: s.ledger.status,
                        base_txn: s.ledger.status.next_txn,
                        txns: Seq::empty(),
                        base_utxos: s.ledger.status.utxos.len(),
                    },
                ),
                ..s
            },
            Ok(()),
        )
    }
}

/// Applying a transaction to the open block and recording it as pending.
pub open spec fn cache_result(s: ServerModel, txn: Transaction) -> (
    ServerModel,
    Result<Seq<char>, LedgerError>,
) {
    match s.block {
        None => (s, Err(LedgerError::CapacityError)),
        Some(b) => if s.policy == DuplicatePolicy::Reject && status_of(s.statuses, handle_of(txn))
            is Some {
            (s, Err(LedgerError::ReplayError))
        } else {
            match apply_result(b.working, txn) {
            Err(e) => (s, Err(e)),
            Ok(m) => if !fits_addresses(txn) {
                (s, Err(LedgerError::Overflow))
            } else {
                let h = handle_of(txn);
                (
                    ServerModel {
                        block: Some(BlockModel { working: m, txns: b.txns.push(txn), ..b }),
                        pending: s.pending.push((TxnTempSID(b.txns.len() as u64), h)),
                        statuses: set_status(s.statuses, h, StatusModel::Pending),
                        ..s
                    },
                    Ok(h),
                )
            },
        }
        },
    }
}

/// Committing the open block and marking its transactions committed. A block
/// that cannot be committed is dropped, and its transactions stay pending.
pub open spec fn end_result(s: ServerModel) -> (ServerModel, Result<(), LedgerError>) {
    match s.block {
        None => (s, Err(LedgerError::CapacityError)),
        Some(b) => if finish_ok(s.ledger, b) {
            (
                ServerModel {
                    ledger: committed(s.ledger, b),
                    block: None,
                    pending: Seq::empty(),
                    statuses: commit_statuses(s.statuses, s.pending, finished(b)),
                    ..s
                },
                Ok(()),
            )
        } else if !s.ledger.block_open {
            (
                ServerModel { block: None, pending: Seq::empty(), ..s },
                Err(LedgerError::CapacityError),
            )
        } else {
            (
                ServerModel {
                    ledger: LedgerModel { block_open: false, ..s.ledger },
                    block: None,
                    pending: Seq::empty(),
                    ..s
                },
                Err(LedgerError::InvariantViolation),
            )
        },
    }
}

/// Dropping the open block: the ledger is as before it, nothing is pending,
/// and statuses stay as they are.
pub open spec fn abort_result(s: ServerModel) -> ServerModel {
    match s.block {
        Some(_) => ServerModel {
            ledger: LedgerModel { block_open: false, ..s.ledger },
            block: None,
            pending: Seq::empty(),
            ..s
        },
        None => ServerModel { pending: Seq::empty(), ..s },
    }
}

/// The whole path of one submission: open a block if none is held, apply the
/// transaction to it, and commit the block once it holds `capacity` of them.
pub open spec fn handle_result(s: ServerModel, txn: Transaction) -> (
    ServerModel,
    Result<Seq<char>, LedgerError>,
) {
    let (s1, rb) = if s.block is None {
        begin_result(s)
    } else {
        (s, Ok(()))
    };
    match rb {
        Err(e) => (s1, Err(e)),
        Ok(_) => {
            let (s2, rc) = cache_result(s1, txn);
            if rc is Ok && s2.pending.len() == s2.capacity {
                (end_result(s2).0, rc)
            } else {
                (s2, rc)
            }
        },
    }
}

pub open spec fn pending_fn() -> spec_fn((TxnTempSID, TxnHandle)) -> (TxnTempSID, Seq<char>) {
    |p: (TxnTempSID, TxnHandle)| (p.0, p.1.0@)
}

pub open spec fn status_fn() -> spec_fn((TxnHandle, TxnStatus)) -> (Seq<char>, StatusModel) {
    |e: (TxnHandle, TxnStatus)| (e.0.0@, e.1@)
}

/// Per-node ingress: the committed ledger, at most one open block, the
/// transactions pending in it by temporary identifier, the status of every
/// handle seen, the block capacity, and a random source for its users.
pub struct SubmissionServer<RNG> {
    committed_state: LedgerState,
    block: Option<BlockContext>,
    pending_txns: Vec<(TxnTempSID, TxnHandle)>,
    txn_status: Vec<(TxnHandle, TxnStatus)>,
    block_capacity: usize,
    duplicate_policy: DuplicatePolicy,
    prng: RNG,
}

impl<RNG> View for SubmissionServer<RNG> {
    type V = ServerModel;

    closed spec fn view(&self) -> ServerModel {
        ServerModel {
            policy: self.duplicate_policy,
            ledger: self.committed_state@,
            block: match self.block {
                Some(b) => Some(b@),
                None => None,
            },
            pending: self.pending_txns@.map_values(pending_fn()),
            statuses: self.txn_status@.map_values(status_fn()),
            capacity: self.block_capacity,
        }
    }
}

impl<RNG> SubmissionServer<RNG> {
    pub closed spec fn spec_prng(&self) -> RNG {
        self.prng
    }

    pub fn new(prng: RNG, ledger_state: LedgerState, block_capacity: usize) -> (r: Result<
        SubmissionServer<RNG>,
        LedgerError,
    >)
        ensures
            r matches Ok(s) && s@ == (ServerModel {
                policy: DuplicatePolicy::Overwrite,
                ledger: ledger_state@,
                block: None,
                pending: Seq::empty(),
                statuses: Seq::empty(),
                capacity: block_capacity,
            }) && s.spec_prng() == prng,
            ledger_wf(ledger_state@) && !ledger_state@.block_open ==> (r matches Ok(s) && server_wf(
                s@,
            )),
    {
        let s = SubmissionServer {
            committed_state: ledger_state,
            block: None,
            pending_txns: Vec::new(),
            txn_status: Vec::new(),
            block_capacity,
            duplicate_policy: DuplicatePolicy::Overwrite,
            prng,
        };
        assert(s@.pending =~= Seq::empty());
        assert(s@.statuses =~= Seq::empty());
        Ok(s)
    }

    /// Chooses what happens to a transaction whose handle was seen before.
    pub fn set_duplicate_policy(&mut self, policy: DuplicatePolicy)
        ensures
            final(self)@ == (ServerModel { policy, ..old(self)@ }),
            final(self).spec_prng() == old(self).spec_prng(),
            server_wf(old(self)@) ==> server_wf(final(self)@),
    {
        self.duplicate_policy = policy;
    }

    /// Records the consensus height of a commit in the ledger.
    pub fn set_tendermint_height(&mut self, h: u64)
        ensures
            final(self)@ == (ServerModel {
                ledger: LedgerModel { tendermint_height: h, ..old(self)@.ledger },
                ..old(self)@
            }),
            final(self).spec_prng() == old(self).spec_prng(),
            server_wf(old(self)@) ==> server_wf(final(self)@),
    {
        self.committed_state.set_tendermint_height(h);
    }

    /// Sets the staking height of the ledger and of the open block, if any.
    pub fn set_custom_block_height(&mut self, h: u64)
        ensures
            final(self)@ == (ServerModel {
                ledger: LedgerModel { status: at_height(old(self)@.ledger.status, h), ..old(self)@.ledger },
                block: match old(self)@.block {
                    Some(b) => Some(BlockModel { working: at_height(b.working, h), ..b }),
                    None => None,
                },
                ..old(self)@
            }),
            final(self).spec_prng() == old(self).spec_prng(),
            server_wf(old(self)@) ==> server_wf(final(self)@),
    {
        self.committed_state.set_custom_block_height(h);
        if let Some(mut b) = self.block.take() {
            b.set_custom_block_height(h);
            self.block = Some(b);
        }
    }

    /// The status recorded for a handle, if it was ever seen.
    pub fn get_txn_status(&self, txn_handle: &TxnHandle) -> (r: Option<TxnStatus>)
        ensures
            match status_of(self@.statuses, txn_handle.0@) {
                Some(v) => r matches Some(x) && x@ == v,
                None => r is None,
            },
    {
        let ghost st = self@.statuses;
        let ghost p = handle_at_fn(txn_handle.0@);
        let mut found: Option<usize> = None;
        let mut i: usize = 0;
        while i < self.txn_status.len()
            invariant
                0 <= i <= self.txn_status@.len(),
                st == self.txn_status@.map_values(status_fn()),
                p == handle_at_fn(txn_handle.0@),
                match found {
                    Some(j) => j as int == last_match(st.take(i as int), p),
                    None => last_match(st.take(i as int), p) == -1,
                },
            decreases self.txn_status@.len() - i,
        {
            proof {
                lemma_last_match_take(st, p, i as int);
            }
            if self.txn_status[i].0.0 == txn_handle.0 {
                found = Some(i);
            }
            i = i + 1;
        }
        assert(st.take(i as int) =~= st);
        proof {
            lemma_last_match(st, p);
        }
        match found {
            Some(k) => Some(self.txn_status[k].1.duplicate()),
            None => None,
        }
    }

    /// Records `v` as the status of `h`, over any earlier one.
    fn set_txn_status(&mut self, h: TxnHandle, v: TxnStatus)
        ensures
            final(self)@ == (ServerModel {
                statuses: set_status(old(self)@.statuses, h.0@, v@),
                ..old(self)@
            }),
            final(self).spec_prng() == old(self).spec_prng(),
    {
        let ghost st = self@.statuses;
        let ghost p = handle_at_fn(h.0@);
        let mut found: Option<usize> = None;
        let mut i: usize = 0;
        while i < self.txn_status.len()
            invariant
                0 <= i <= self.txn_status@.len(),
                st == self.txn_status@.map_values(status_fn()),
                p == handle_at_fn(h.0@),
                match found {
                    Some(j) => j as int == last_match(st.take(i as int), p),
                    None => last_match(st.take(i as int), p) == -1,
                },
            decreases self.txn_status@.len() - i,
        {
            proof {
                lemma_last_match_take(st, p, i as int);
            }
            if self.txn_status[i].0.0 == h.0 {
                found = Some(i);
            }
            i = i + 1;
        }
        assert(st.take(i as int) =~= st);
        proof {
            lemma_last_match(st, p);
        }
        let ghost hv = h.0@;
        let ghost vv = v@;
        match found {
            Some(k) => {
                self.txn_status.set(k, (h, v));
            },
            None => {
                self.txn_status.push((h, v));
            },
        }
        assert(self.txn_status@.map_values(status_fn()) =~= set_status(st, hv, vv));
    }

    /// The temporary identifiers of the pending transactions, in order.
    pub fn pending_temp_sids(&self) -> (r: Vec<TxnTempSID>)
        ensures
            r@.len() == self@.pending.len(),
            forall|i: int| 0 <= i < r@.len() ==> #[trigger] r@[i] == self@.pending[i].0,
    {
        let mut r: Vec<TxnTempSID> = Vec::new();
        let mut i: usize = 0;
        while i < self.pending_txns.len()
            invariant
                0 <= i <= self.pending_txns@.len(),
                r@.len() == i,
                forall|k: int| 0 <= k < i ==> #[trigger] r@[k] == self.pending_txns@[k].0,
            decreases self.pending_txns@.len() - i,
        {
            r.push(self.pending_txns[i].0);
            i = i + 1;
        }
        r
    }

    /// Whether no transaction is pending.
    pub fn all_commited(&self) -> (r: bool)
        ensures
            r == (self@.pending.len() == 0),
    {
        self.pending_txns.len() == 0
    }

    /// Whether the open block holds as many transactions as it may.
    pub fn eligible_to_commit(&self) -> (r: bool)
        ensures
            r == (self@.pending.len() == self@.capacity),
    {
        self.pending_txns.len() == self.block_capacity
    }

    pub fn get_committed_state(&self) -> (r: &LedgerState)
        ensures
            r@ == self@.ledger,
    {
        &self.committed_state
    }

    /// A hook before a commit; it does nothing.
    pub fn begin_commit(&mut self)
        ensures
            final(self)@ == old(self)@,
            final(self).spec_prng() == old(self).spec_prng(),
    {
    }

    /// A hook after a commit; it does nothing.
    pub fn end_commit(&mut self)
        ensures
            final(self)@ == old(self)@,
            final(self).spec_prng() == old(self).spec_prng(),
    {
    }

    /// The random source.
    pub fn get_prng(&mut self) -> (r: &mut RNG)
        ensures
            *r == old(self).spec_prng(),
            final(self)@ == old(self)@,
            final(self).spec_prng() == *final(r),
    {
        &mut self.prng
    }

    /// Applies a transaction to the open block and records it as pending
    /// under its handle; fails, changing nothing, when no block is held or the
    /// transaction is rejected.
    pub fn cache_transaction(&mut self, txn: Transaction) -> (r: Result<TxnHandle, LedgerError>)
        ensures
            final(self)@ == cache_result(old(self)@, txn).0,
            match r {
                Ok(h) => cache_result(old(self)@, txn).1 == Ok::<Seq<char>, LedgerError>(h.0@),
                Err(e) => cache_result(old(self)@, txn).1 == Err::<Seq<char>, LedgerError>(e),
            },
            final(self).spec_prng() == old(self).spec_prng(),
            server_wf(old(self)@) ==> server_wf(final(self)@),
    {
        proof {
            if server_wf(old(self)@) {
                crate::laws::lemma_cache_wf(old(self)@, txn);
            }
        }
        let mut block = match self.block.take() {
            Some(b) => b,
            None => {
                return Err(LedgerError::CapacityError);
            },
        };
        let handle = TxnHandle::new(&txn);
        if self.duplicate_policy == DuplicatePolicy::Reject && self.get_txn_status(&handle).is_some() {
            self.block = Some(block);
            return Err(LedgerError::ReplayError);
        }
        let effect = match TxnEffect::compute(txn) {
            Ok(e) => e,
            Err(e) => {
                self.block = Some(block);
                return Err(e);
            },
        };
        match self.committed_state.apply_transaction(&mut block, effect) {
            Ok(temp) => {
                self.block = Some(block);
                let ghost before = self.pending_txns@;
                self.pending_txns.push((temp, handle.duplicate()));
                assert(self.pending_txns@.map_values(pending_fn()) =~= before.map_values(
                    pending_fn(),
                ).push((temp, handle.0@)));
                self.set_txn_status(handle.duplicate(), TxnStatus::Pending);
                Ok(handle)
            },
            Err(e) => {
                self.block = Some(block);
                Err(e)
            },
        }
    }

    /// Commits the open block and marks its transactions committed under
    /// their canonical identifiers.
    pub fn end_block(&mut self) -> (r: Result<(), LedgerError>)
        ensures
            (final(self)@, r) == end_result(old(self)@),
            final(self).spec_prng() == old(self).spec_prng(),
            server_wf(old(self)@) ==> server_wf(final(self)@),
    {
        proof {
            if server_wf(old(self)@) {
                crate::laws::lemma_end_wf(old(self)@);
            }
        }
        let block = match self.block.take() {
            Some(b) => b,
            None => {
                return Err(LedgerError::CapacityError);
            },
        };
        let ghost b = block@;
        let ghost fin = finished(b);
        let ghost pend = self@.pending;
        let ghost st0 = self@.statuses;
        match self.committed_state.finish_block(block) {
            Ok(v) => {
                let mut i: usize = 0;
                while i < self.pending_txns.len()
                    invariant
                        0 <= i <= self.pending_txns@.len(),
                        pend == self.pending_txns@.map_values(pending_fn()),
                        pend.len() == self.pending_txns@.len(),
                        v@.len() == fin.len(),
                        forall|k: int|
                            0 <= k < v@.len() ==> (#[trigger] v@[k]).0 == fin[k].0 && v@[k].1@
                                == fin[k].1,
                        self@.statuses == commit_statuses(st0, pend.take(i as int), fin),
                        self@.ledger == committed(old(self)@.ledger, b),
                        self.block is None,
                        self.block_capacity == old(self)@.capacity,
                        self.duplicate_policy == old(self)@.policy,
                        self.spec_prng() == old(self).spec_prng(),
                    decreases self.pending_txns@.len() - i,
                {
                    proof {
                        assert(pend.take(i + 1).drop_last() =~= pend.take(i as int));
                    }
                    let t = self.pending_txns[i].0.0;
                    let h = self.pending_txns[i].1.duplicate();
                    if t < v.len() as u64 {
                        let entry = &v[t as usize];
                        let st = TxnStatus::Committed((entry.0, copy_addresses(&entry.1)));
                        self.set_txn_status(h, st);
                        assert(self.pending_txns@.map_values(pending_fn()).len()
                            == self.pending_txns@.len());
                    }
                    i = i + 1;
                }
                assert(pend.take(i as int) =~= pend);
                self.pending_txns = Vec::new();
                assert(self@.pending =~= Seq::empty());
                Ok(())
            },
            Err(e) => {
                self.pending_txns = Vec::new();
                assert(self@.pending =~= Seq::empty());
                Err(e)
            },
        }
    }

    /// Drops the open block; its transactions stay pending in the status table.
    pub fn abort_block(&mut self)
        ensures
            final(self)@ == abort_result(old(self)@),
            final(self).spec_prng() == old(self).spec_prng(),
            server_wf(old(self)@) ==> server_wf(final(self)@),
    {
        proof {
            if server_wf(old(self)@) {
                crate::laws::lemma_abort_wf(old(self)@);
            }
        }
        if let Some(block) = self.block.take() {
            self.committed_state.abort_block(block);
        }
        self.pending_txns = Vec::new();
        assert(self@.pending =~= Seq::empty());
    }

    /// Handles a new transaction: opens a block if none is held, applies the
    /// transaction, and commits the block once it is full.
    pub fn handle_transaction(&mut self, txn: Transaction) -> (r: Result<TxnHandle, LedgerError>)
        ensures
            final(self)@ == handle_result(old(self)@, txn).0,
            match r {
                Ok(h) => handle_result(old(self)@, txn).1 == Ok::<Seq<char>, LedgerError>(h.0@),
                Err(e) => handle_result(old(self)@, txn).1 == Err::<Seq<char>, LedgerError>(e),
            },
            final(self).spec_prng() == old(self).spec_prng(),
            server_wf(old(self)@) ==> server_wf(final(self)@),
    {
        proof {
            if server_wf(old(self)@) {
                crate::laws::lemma_handle_wf(old(self)@, txn);
            }
        }
        if self.block.is_none() {
            self.begin_block()?;
        }
        let handle = self.cache_transaction(txn)?;
        if self.eligible_to_commit() {
            let _ = self.end_block();
        }
        Ok(handle)
    }

    /// Opens a block; fails while one is held or the ledger has one open.
    pub fn begin_block(&mut self) -> (r: Result<(), LedgerError>)
        ensures
            (final(self)@, r) == begin_result(old(self)@),
            final(self).spec_prng() == old(self).spec_prng(),
            server_wf(old(self)@) ==> server_wf(final(self)@),
    {
        proof {
            if server_wf(old(self)@) {
                crate::laws::lemma_begin_wf(old(self)@);
            }
        }
        if self.block.is_some() {
            return Err(LedgerError::CapacityError);
        }
        let b = self.committed_state.start_block()?;
        assert(b@.txns =~= Seq::empty());
        self.block = Some(b);
        Ok(())
    }
}

} // verus!
