//! What the consensus-facing layer computes from ledger values.

use crate::codec::push_bytes;
use crate::crypto::{compute_sha256_hash, sha256_of};
use crate::data_model::Transaction;
use crate::error::LedgerError;
use crate::seqs::{last_match, lemma_last_match_take};
use crate::submission_server::{
    begin_result, cache_result, end_result, handle_of, server_wf, ServerModel, SubmissionServer, TxnHandle,
};
use vstd::prelude::*;
use vstd::utf8::encode_utf8;

verus! {

/// The application hash: the ledger's hash alone while the side chain's hash
/// is empty, else the SHA-256 digest of the two joined.
pub open spec fn app_hash_of(la_hash: Seq<u8>, cs_hash: Seq<u8>) -> Seq<u8> {
    if cs_hash.len() == 0 {
        la_hash
    } else {
        sha256_of(la_hash + cs_hash)@
    }
}

/// Combines the ledger's state hash with the side chain's; `when` and
/// `height` name the moment for whoever logs it.
pub fn app_hash(when: &str, height: i64, la_hash: Vec<u8>, cs_hash: Vec<u8>) -> (r: Vec<u8>)
    ensures
        r@ == app_hash_of(la_hash@, cs_hash@),
{
    if cs_hash.len() == 0 {
        return la_hash;
    }
    let mut joined: Vec<u8> = Vec::new();
    push_bytes(&mut joined, la_hash.as_slice());
    push_bytes(&mut joined, cs_hash.as_slice());
    let d = compute_sha256_hash(joined.as_slice());
    let mut out: Vec<u8> = Vec::new();
    push_bytes(&mut out, &d);
    out
}

/// Why a callback turned a transaction away.
#[derive(Clone, Copy, Debug, PartialEq, Eq, Structural)]
pub enum Rejection {
    /// The bytes are not a transaction.
    InvalidFormat,
    /// The transaction was delivered before.
    Historical,
    /// The ledger or the submission server refused it.
    Ledger(LedgerError),
}

/// What a callback answers: code zero for success, else why not; and data.
#[derive(Clone, Debug, PartialEq, Eq)]
pub struct Response {
    pub code: u32,
    pub rejection: Option<Rejection>,
    pub data: Vec<u8>,
}

/// The consensus-facing node: the submission server, the handles of every
/// transaction delivered so far, and the height the consensus engine gave.
pub struct AbciServer<RNG> {
    pub la: SubmissionServer<RNG>,
    pub history: Vec<String>,
    pub height: u64,
}

pub open spec fn handle_is_fn(h: Seq<char>) -> spec_fn(String) -> bool {
    |s: String| s@ == h
}

/// Whether `h` was delivered before.
pub open spec fn seen(history: Seq<String>, h: Seq<char>) -> bool {
    last_match(history, handle_is_fn(h)) >= 0
}

fn rejected(why: Rejection) -> (r: Response)
    ensures
        r.code == 1,
        r.rejection == Some(why),
        r.data@.len() == 0,
{
    Response { code: 1, rejection: Some(why), data: Vec::new() }
}

fn accepted(data: Vec<u8>) -> (r: Response)
    ensures
        r.code == 0,
        r.rejection is None,
        r.data@ == data@,
{
    Response { code: 0, rejection: None, data }
}

impl<RNG> AbciServer<RNG> {
    pub fn new(la: SubmissionServer<RNG>) -> (r: AbciServer<RNG>)
        ensures
            r.la@ == la@,
            r.history@.len() == 0,
            r.height == 0,
    {
        AbciServer { la, history: Vec::new(), height: 0 }
    }

    fn has_seen(&self, h: &TxnHandle) -> (r: bool)
        ensures
            r == seen(self.history@, h.0@),
    {
        let ghost p = handle_is_fn(h.0@);
        let mut found = false;
        let mut i: usize = 0;
        while i < self.history.len()
            invariant
                0 <= i <= self.history@.len(),
                p == handle_is_fn(h.0@),
                found == (last_match(self.history@.take(i as int), p) >= 0),
            decreases self.history@.len() - i,
        {
            proof {
                lemma_last_match_take(self.history@, p, i as int);
            }
            if self.history[i] == h.0 {
                found = true;
            }
            i = i + 1;
        }
        assert(self.history@.take(i as int) =~= self.history@);
        found
    }
}

/// The consensus height of the last commit and the application hash at it;
/// opens a block when nothing is pending.
pub fn info<RNG>(s: &mut AbciServer<RNG>) -> (r: (u64, Vec<u8>))
    ensures
        r.0 == old(s).la@.ledger.tendermint_height,
        final(s).height == old(s).la@.ledger.tendermint_height,
        r.1@ == old(s).la@.ledger.commitment@,
        final(s).la@ == if old(s).la@.pending.len() == 0 {
            begin_result(old(s).la@).0
        } else {
            old(s).la@
        },
        final(s).history == old(s).history,
        server_wf(old(s).la@) ==> server_wf(final(s).la@),
{
    proof {
        if server_wf(old(s).la@) {
            crate::laws::lemma_begin_wf(old(s).la@);
        }
    }
    let (hash, _) = s.la.get_committed_state().get_state_commitment();
    let height = s.la.get_committed_state().get_tendermint_height();
    if s.la.all_commited() {
        let _ = s.la.begin_block();
    }
    s.height = height;
    let mut out: Vec<u8> = Vec::new();
    push_bytes(&mut out, &hash);
    let out = app_hash("info", height as i64, out, Vec::new());
    (height, out)
}

/// Screens a transaction before it enters the pool: the bytes must parse
/// (`tx` is `None` when they do not) and the transaction must be new.
pub fn check_tx<RNG>(s: &AbciServer<RNG>, tx: Option<Transaction>) -> (r: Response)
    ensures
        match tx {
            None => r.code == 1 && r.rejection == Some(Rejection::InvalidFormat),
            Some(t) => if seen(s.history@, handle_of(t)) {
                r.code == 1 && r.rejection == Some(Rejection::Historical)
            } else {
                r.code == 0 && r.rejection is None
            },
        },
{
    match tx {
        None => rejected(Rejection::InvalidFormat),
        Some(t) => {
            let h = TxnHandle::new(&t);
            if s.has_seen(&h) {
                rejected(Rejection::Historical)
            } else {
                accepted(Vec::new())
            }
        },
    }
}

/// Starts a block at `height`: the height becomes the staking height, and a
/// block opens when nothing is pending.
pub fn begin_block<RNG>(s: &mut AbciServer<RNG>, height: u64)
    ensures
        final(s).height == height,
        final(s).history == old(s).history,
        ({
            let m = ServerModel {
                ledger: crate::store::LedgerModel {
                    status: crate::store::at_height(old(s).la@.ledger.status, height),
                    ..old(s).la@.ledger
                },
                block: match old(s).la@.block {
                    Some(b) => Some(
                        crate::store::BlockModel {
                            working: crate::store::at_height(b.working, height),
                            ..b
                        },
                    ),
                    None => None,
                },
                ..old(s).la@
            };
            final(s).la@ == if m.pending.len() == 0 {
                begin_result(m).0
            } else {
                m
            }
        }),
        server_wf(old(s).la@) ==> server_wf(final(s).la@),
{
    s.height = height;
    s.la.set_custom_block_height(height);
    proof {
        if server_wf(old(s).la@) {
            crate::laws::lemma_begin_wf(s.la@);
        }
    }
    if s.la.all_commited() {
        let _ = s.la.begin_block();
    }
}

/// Delivers a transaction: it joins the history, then the open block.
pub fn deliver_tx<RNG>(s: &mut AbciServer<RNG>, tx: Option<Transaction>) -> (r: Response)
    ensures
        match tx {
            None => r.code == 1 && r.rejection == Some(Rejection::InvalidFormat) && final(s).la@
                == old(s).la@ && final(s).history == old(s).history,
            Some(t) => {
                &&& seen(final(s).history@, handle_of(t))
                &&& final(s).la@ == cache_result(old(s).la@, t).0
                &&& match cache_result(old(s).la@, t).1 {
                    Ok(h) => r.code == 0 && r.rejection is None && r.data@ == encode_utf8(h),
                    Err(e) => r.code == 1 && r.rejection == Some(Rejection::Ledger(e)),
                }
            },
        },
        server_wf(old(s).la@) ==> server_wf(final(s).la@),
{
    match tx {
        None => rejected(Rejection::InvalidFormat),
        Some(t) => {
            let h = TxnHandle::new(&t);
            if !s.has_seen(&h) {
                let ghost before = s.history@;
                s.history.push(h.to_string());
                proof {
                    crate::seqs::lemma_last_match_push(before, handle_is_fn(h.0@), s.history@.last());
                    assert(before.push(s.history@.last()) =~= s.history@);
                }
            }
            proof {
                if server_wf(old(s).la@) {
                    crate::laws::lemma_cache_wf(s.la@, t);
                }
            }
            match s.la.cache_transaction(t) {
                Ok(handle) => {
                    let mut data: Vec<u8> = Vec::new();
                    push_bytes(&mut data, handle.0.as_str().as_bytes());
                    accepted(data)
                },
                Err(e) => rejected(Rejection::Ledger(e)),
            }
        },
    }
}

/// Ends a block: commits it when anything is pending.
pub fn end_block<RNG>(s: &mut AbciServer<RNG>) -> (r: Response)
    ensures
        old(s).la@.pending.len() == 0 ==> final(s).la@ == old(s).la@ && r.code == 0,
        old(s).la@.pending.len() > 0 ==> final(s).la@ == end_result(old(s).la@).0 && match end_result(
            old(s).la@,
        ).1 {
            Ok(_) => r.code == 0,
            Err(e) => r.code == 1 && r.rejection == Some(Rejection::Ledger(e)),
        },
        final(s).history == old(s).history,
        server_wf(old(s).la@) ==> server_wf(final(s).la@),
{
    proof {
        if server_wf(old(s).la@) {
            crate::laws::lemma_end_wf(old(s).la@);
        }
    }
    if !s.la.all_commited() {
        if let Err(e) = s.la.end_block() {
            return rejected(Rejection::Ledger(e));
        }
    }
    accepted(Vec::new())
}

/// Commits at the current consensus height: the ledger records it as the
/// height of its last commit, and the answer is the application hash.
pub fn commit<RNG>(s: &mut AbciServer<RNG>) -> (r: Response)
    ensures
        r.code == 0,
        r.data@ == old(s).la@.ledger.commitment@,
        final(s).la@ == (ServerModel {
            ledger: crate::store::LedgerModel { tendermint_height: old(s).height, ..old(s).la@.ledger },
            ..old(s).la@
        }),
        final(s).height == old(s).height,
        final(s).history == old(s).history,
        server_wf(old(s).la@) ==> server_wf(final(s).la@),
{
    let h = s.height;
    s.la.set_tendermint_height(h);
    let (hash, _) = s.la.get_committed_state().get_state_commitment();
    let mut out: Vec<u8> = Vec::new();
    push_bytes(&mut out, &hash);
    accepted(app_hash("commit", s.height as i64, out, Vec::new()))
}

} // verus!
