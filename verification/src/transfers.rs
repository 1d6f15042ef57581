//! Running transfers: each upload or download gets an id and a cancel
//! handle while it runs; progress reports are throttled, and the outcome is
//! reported once at the end.

use std::collections::HashMap;

use vstd::prelude::*;

use crate::error::{FpError, FpErrorView, error_message};
use crate::text::has_prefix;
use crate::transfer::{TransferResult, TransferResultView};

verus! {

broadcast use vstd::std_specs::hash::group_hash_axioms;

#[derive(Debug, Clone, Copy, PartialEq, Eq, Structural)]
pub enum Direction {
    Download,
    Upload,
}

/// The running transfers by id, each with its cancel handle `T`.
pub struct Transfers<T> {
    active: HashMap<u32, T>,
    next_id: u32,
}

pub struct TransfersView<T> {
    pub active: Map<u32, T>,
    /// The id of the transfer started last (0 before the first).
    pub last_id: u32,
}

impl<T> View for Transfers<T> {
    type V = TransfersView<T>;

    closed spec fn view(&self) -> TransfersView<T> {
        TransfersView { active: self.active@, last_id: self.next_id }
    }
}

pub open spec fn transfers_start<T>(t: TransfersView<T>, token: T) -> TransfersView<T>
    recommends
        t.last_id < u32::MAX,
{
    TransfersView { active: t.active.insert((t.last_id + 1) as u32, token), last_id: (t.last_id + 1) as u32 }
}

pub open spec fn transfers_finish<T>(t: TransfersView<T>, id: u32) -> TransfersView<T> {
    TransfersView { active: t.active.remove(id), ..t }
}

impl<T> Transfers<T> {
    pub fn new() -> (r: Transfers<T>)
        ensures
            r@.active == Map::<u32, T>::empty(),
            r@.last_id == 0,
    {
        let r = Transfers { active: HashMap::new(), next_id: 0 };
        assert(r@.active =~= Map::<u32, T>::empty());
        r
    }

    /// Registers a new transfer and returns its id (ids start at 1).
    pub fn start(&mut self, token: T) -> (id: u32)
        requires
            old(self)@.last_id < u32::MAX,
        ensures
            id == old(self)@.last_id + 1,
            final(self)@ == transfers_start(old(self)@, token),
    {
        let id = self.next_id + 1;
        self.next_id = id;
        self.active.insert(id, token);
        id
    }

    /// The id of the transfer started last (0 before the first); a new one
    /// can start while it is below `u32::MAX`.
    pub fn last_id(&self) -> (r: u32)
        ensures
            r == self@.last_id,
    {
        self.next_id
    }

    /// The cancel handle of a running transfer.
    pub fn get(&self, id: u32) -> (r: Option<&T>)
        ensures
            match r {
                Some(t) => self@.active.contains_key(id) && self@.active[id] == *t,
                None => !self@.active.contains_key(id),
            },
    {
        self.active.get(&id)
    }

    /// A finished transfer leaves the table.
    pub fn finish(&mut self, id: u32)
        ensures
            final(self)@ == transfers_finish(old(self)@, id),
    {
        self.active.remove(&id);
    }
}

/// Whether a progress report goes out: the final one always, others at
/// most every 80 ms.
pub open spec fn progress_due_spec(done: u64, total: Option<u64>, elapsed_ms: u128) -> bool {
    (total matches Some(t) && done >= t) || elapsed_ms >= 80
}

pub fn progress_due(done: u64, total: Option<u64>, elapsed_ms: u128) -> (r: bool)
    ensures
        r == progress_due_spec(done, total, elapsed_ms),
{
    let is_final = match total {
        Some(t) => done >= t,
        None => false,
    };
    is_final || elapsed_ms >= 80
}

/// Whether a report is the final one: everything known to be there is done.
pub open spec fn is_final_report(done: u64, total: Option<u64>) -> bool {
    total matches Some(t) && done >= t
}

/// Time between two readings of a clock that never goes back (0 if it did).
pub open spec fn since(now_ms: u128, last_ms: u128) -> u128 {
    if now_ms >= last_ms {
        (now_ms - last_ms) as u128
    } else {
        0
    }
}

/// Whether a progress event at `now_ms` is sent, given when the previous
/// sent event was (`None` before the first, which is always sent).
pub open spec fn gate_emits(last: Option<u128>, done: u64, total: Option<u64>, now_ms: u128) -> bool {
    match last {
        None => true,
        Some(l) => progress_due_spec(done, total, since(now_ms, l)),
    }
}

/// The time of the last report after one more call.
pub open spec fn gate_next(last: Option<u128>, done: u64, total: Option<u64>, now_ms: u128) -> Option<u128> {
    if gate_emits(last, done, total, now_ms) {
        Some(now_ms)
    } else {
        last
    }
}

/// Throttles the progress reports of one transfer: it remembers when the
/// last report went out (times in milliseconds on a clock of the caller's
/// that does not go back).
pub struct ProgressGate {
    last: Option<u128>,
}

impl View for ProgressGate {
    type V = Option<u128>;

    closed spec fn view(&self) -> Option<u128> {
        self.last
    }
}

impl ProgressGate {
    /// A gate through which no report has gone yet.
    pub fn new() -> (r: ProgressGate)
        ensures
            r@ is None,
    {
        ProgressGate { last: None }
    }

    /// Whether the report of `done` out of `total` bytes at `now_ms` goes
    /// out: the first and the final ones always, others once 80 ms have
    /// passed since the last one that went out.
    pub fn report(&mut self, done: u64, total: Option<u64>, now_ms: u128) -> (emit: bool)
        ensures
            emit == gate_emits(old(self)@, done, total, now_ms),
            final(self)@ == gate_next(old(self)@, done, total, now_ms),
    {
        let emit = match self.last {
            None => true,
            Some(l) => {
                let elapsed = if now_ms >= l {
                    now_ms - l
                } else {
                    0
                };
                progress_due(done, total, elapsed)
            },
        };
        if emit {
            self.last = Some(now_ms);
        }
        emit
    }
}

/// One call of [`ProgressGate::report`]: bytes done, total, time.
pub type GateCall = (u64, Option<u64>, u128);

/// The time of the last report after the first `k` calls, from a fresh gate.
pub open spec fn gate_last(calls: Seq<GateCall>, k: nat) -> Option<u128>
    decreases k,
{
    if k == 0 || k > calls.len() {
        None
    } else {
        let c = calls[k - 1];
        gate_next(gate_last(calls, (k - 1) as nat), c.0, c.1, c.2)
    }
}

/// Whether call `k` goes out, from a fresh gate.
pub open spec fn gate_emits_at(calls: Seq<GateCall>, k: nat) -> bool {
    gate_emits(gate_last(calls, k), calls[k as int].0, calls[k as int].1, calls[k as int].2)
}

pub open spec fn clock_monotone(calls: Seq<GateCall>) -> bool {
    forall|i: int, j: int| 0 <= i <= j < calls.len() ==> calls[i].2 <= calls[j].2
}

proof fn lemma_gate_last(calls: Seq<GateCall>, i: nat, k: nat)
    requires
        clock_monotone(calls),
        1 <= k <= calls.len(),
        i < k,
        gate_emits_at(calls, i),
    ensures
        gate_last(calls, k) matches Some(l) && calls[i as int].2 <= l <= calls[k - 1].2,
    decreases k,
{
    let c = calls[k - 1];
    if k - 1 == i {
    } else {
        lemma_gate_last(calls, i, (k - 1) as nat);
    }
}

/// The throttle over a whole transfer: the first report and every final
/// one go out, and of two reports that go out the later one, unless final,
/// comes at least 80 ms after the earlier one — so at most one non-final
/// report per 80 ms, and the final one is never dropped.
pub proof fn law_progress_throttle(calls: Seq<GateCall>)
    requires
        clock_monotone(calls),
    ensures
        calls.len() > 0 ==> gate_emits_at(calls, 0),
        forall|k: nat| k < calls.len() && is_final_report(calls[k as int].0, calls[k as int].1) ==> #[trigger] gate_emits_at(calls, k),
        forall|i: nat, j: nat|
            i < j < calls.len() && #[trigger] gate_emits_at(calls, i) && #[trigger] gate_emits_at(calls, j)
                && !is_final_report(calls[j as int].0, calls[j as int].1) ==> calls[j as int].2 - calls[i as int].2 >= 80,
{
    assert forall|k: nat| k < calls.len() && is_final_report(calls[k as int].0, calls[k as int].1) implies #[trigger] gate_emits_at(calls, k) by {}
    assert forall|i: nat, j: nat|
        i < j < calls.len() && #[trigger] gate_emits_at(calls, i) && #[trigger] gate_emits_at(calls, j)
            && !is_final_report(calls[j as int].0, calls[j as int].1) implies calls[j as int].2 - calls[i as int].2 >= 80 by {
        lemma_gate_last(calls, i, j);
    }
}

/// A progress report.
pub struct ProgressEvent {
    pub id: u32,
    pub done: u64,
    pub total: Option<u64>,
}

/// The report at the end of a transfer.
pub struct DoneEvent {
    pub id: u32,
    pub ok: bool,
    pub error: Option<String>,
    pub bytes: u64,
    pub blake3: Option<String>,
    pub cancelled: bool,
}

/// The end report of transfer `id` for its outcome: bytes and checksum on
/// success; the error message otherwise, with the cancellation flagged.
pub fn done_event(id: u32, result: Result<TransferResult, FpError>) -> (r: DoneEvent)
    ensures
        r.id == id,
        match result {
            Ok(t) => r.ok && r.error is None && r.bytes == t.bytes && (r.blake3 matches Some(h) && h@
                == t.blake3@) && !r.cancelled,
            Err(e) => !r.ok && (r.error matches Some(m) && (!(e is Io) ==> m@ == error_message(e@)) && (e is Io
                ==> has_prefix(m@, "E/A-Fehler: "@)))
                && r.bytes == 0 && r.blake3 is None && r.cancelled == (e is Cancelled),
        },
{
    match result {
        Ok(t) => DoneEvent { id, ok: true, error: None, bytes: t.bytes, blake3: Some(t.blake3), cancelled: false },
        Err(e) => {
            let cancelled = e.is_cancelled();
            let msg = e.message();
            DoneEvent { id, ok: false, error: Some(msg), bytes: 0, blake3: None, cancelled }
        },
    }
}

/// A failed or cancelled download leaves no half file behind.
pub fn discard_partial(direction: Direction, ok: bool) -> (r: bool)
    ensures
        r == (!ok && direction == Direction::Download),
{
    !ok && direction == Direction::Download
}

// ---------------------------------------------------------------------
// Laws
// ---------------------------------------------------------------------

/// Each started transfer gets an id no earlier transfer had, and its cancel
/// handle is found under it until it finishes.
pub proof fn law_fresh_ids<T>(t: TransfersView<T>, token: T)
    requires
        t.last_id < u32::MAX,
        forall|id: u32| t.active.contains_key(id) ==> 1 <= id <= t.last_id,
    ensures
        !t.active.contains_key((t.last_id + 1) as u32),
        transfers_start(t, token).active[(t.last_id + 1) as u32] == token,
        forall|id: u32| transfers_start(t, token).active.contains_key(id) ==> 1 <= id <= transfers_start(t, token).last_id,
{
}

/// A finished transfer can no longer be cancelled; the others still can.
pub proof fn law_finished_gone<T>(t: TransfersView<T>, id: u32, other: u32)
    requires
        other != id,
    ensures
        !transfers_finish(t, id).active.contains_key(id),
        transfers_finish(t, id).active.contains_key(other) == t.active.contains_key(other),
{
}

} // verus!
