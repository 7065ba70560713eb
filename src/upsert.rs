//! The upsert coalescing queue: documents wait in a shared queue and leave
//! it in batches, one call per index, when the queue reaches its batch size,
//! when the flush timer fires, and once more at shutdown.
use crate::group::{group_by_key, groups_view, is_grouping};
use crate::queue::{drain_queue, new_queue, push_entry, queue_len, queued, take_queue, Entry};
use crossbeam::queue::SegQueue;
use vstd::arithmetic::div_mod::lemma_fundamental_div_mod_converse;
use vstd::prelude::*;

verus! {

/// Seconds the supervisor waits before it restarts a failed flush loop.
pub const RETRY_DELAY_SECS: u64 = 5;

/// The entries that `upsert_documents` adds: each document tagged with the index.
pub open spec fn tagged(idx: String, docs: Seq<String>) -> Seq<(String, String)> {
    docs.map_values(|d: String| (idx, d))
}

/// Whether a queue holding `len` entries, with batch size `t`, asks for a flush.
pub open spec fn should_trigger(len: nat, t: nat) -> bool {
    len >= t
}

/// Triggers sent while `x` documents are queued one at a time onto a queue
/// holding `held`, with batch size `t`, when the flush that each trigger
/// starts empties the queue before the next document arrives.
pub open spec fn triggers_for(held: nat, x: nat, t: nat) -> nat
    decreases x,
{
    if x == 0 {
        0
    } else if should_trigger(held + 1, t) {
        1 + triggers_for(0, (x - 1) as nat, t)
    } else {
        triggers_for(held + 1, (x - 1) as nat, t)
    }
}

/// The documents left queued after the same run, for the timer or the
/// shutdown flush.
pub open spec fn left_for(held: nat, x: nat, t: nat) -> nat
    decreases x,
{
    if x == 0 {
        held
    } else if should_trigger(held + 1, t) {
        left_for(0, (x - 1) as nat, t)
    } else {
        left_for(held + 1, (x - 1) as nat, t)
    }
}

/// The same run, from a queue that holds less than a batch.
proof fn lemma_triggers_from(held: nat, x: nat, t: nat)
    requires
        held < t,
    ensures
        triggers_for(held, x, t) == (held + x) as int / (t as int),
        left_for(held, x, t) == (held + x) as int % (t as int),
    decreases x,
{
    if x == 0 {
        lemma_fundamental_div_mod_converse(held as int, t as int, 0, held as int);
    } else if should_trigger(held + 1, t) {
        let m = (x - 1) as nat;
        lemma_triggers_from(0, m, t);
        let q = m as int / t as int;
        let r = m as int % t as int;
        vstd::arithmetic::div_mod::lemma_fundamental_div_mod(m as int, t as int);
        assert(m as int == q * t + r) by (nonlinear_arith)
            requires m as int == t * q + r;
        assert((held + x) as int == (q + 1) * t + r) by (nonlinear_arith)
            requires held + 1 == t, m as int == q * t + r, m == x - 1;
        vstd::arithmetic::div_mod::lemma_mod_bound(m as int, t as int);
        lemma_fundamental_div_mod_converse((held + x) as int, t as int, q + 1, r);
    } else {
        lemma_triggers_from(held + 1, (x - 1) as nat, t);
    }
}

/// Queuing `x` documents one at a time with batch size `t`, each trigger's
/// flush done before the next document arrives: `x / t` flushes are
/// trigger-driven, `x % t` documents wait for the timer or shutdown flush,
/// and the documents leave in `ceil(x / t)` flushes in all; when `t`
/// divides `x`, all `ceil(x / t)` of them are trigger-driven.
pub proof fn lemma_trigger_flushes(x: nat, t: nat)
    requires
        t > 0,
    ensures
        triggers_for(0, x, t) == x as int / (t as int),
        left_for(0, x, t) == x as int % (t as int),
        triggers_for(0, x, t) + (if left_for(0, x, t) > 0 {
            1int
        } else {
            0int
        }) == (x + t - 1) as int / (t as int),
        x as int % (t as int) == 0 ==> triggers_for(0, x, t) >= (x + t - 1) as int / (t as int),
{
    lemma_triggers_from(0, x, t);
    let q = x as int / t as int;
    let r = x as int % t as int;
    vstd::arithmetic::div_mod::lemma_fundamental_div_mod(x as int, t as int);
    vstd::arithmetic::div_mod::lemma_mod_bound(x as int, t as int);
    assert(x as int == q * t + r) by (nonlinear_arith)
        requires x as int == t * q + r;
    if r == 0 {
        lemma_fundamental_div_mod_converse((x + t - 1) as int, t as int, q, t - 1);
    } else {
        assert((x + t - 1) as int == (q + 1) * t + (r - 1)) by (nonlinear_arith)
            requires x as int == q * t + r;
        lemma_fundamental_div_mod_converse((x + t - 1) as int, t as int, q + 1, r - 1);
    }
}

/// The state of the background flush task.
#[derive(Clone, Copy, PartialEq, Eq, Structural, Debug)]
pub enum Phase {
    /// Waiting on the trigger channel, the timer and the shutdown signal.
    Running,
    /// Shutdown was seen: the last flush is under way.
    Draining,
    /// A flush failed: the loop restarts after the delay.
    Retrying { delay_secs: u64 },
    /// The task has exited.
    Stopped,
}

/// What woke the flush task.
#[derive(Clone, Copy, PartialEq, Eq, Structural, Debug)]
pub enum Event {
    /// A producer filled the queue to its batch size.
    Trigger,
    /// The flush timer fired.
    Tick,
    /// The shutdown signal arrived.
    Stop,
    /// Every trigger sender is gone.
    TriggerClosed,
    /// The shutdown channel broke before a signal was read.
    StopLost,
}

/// Whether the flush loop goes on after `e`.
pub open spec fn keeps_running(e: Event) -> bool {
    e == Event::Trigger || e == Event::Tick
}

/// One flush: a batched call per index, and whether it is the last before exit.
pub struct Flush {
    pub batches: Vec<(String, Vec<String>)>,
    pub last: bool,
}

/// The upsert queue together with the state of its flush task.
pub struct Client {
    upsert_batch: usize,
    upsert_queue: SegQueue<Entry>,
    phase: Phase,
}

impl Client {
    /// The entries waiting for a flush, oldest first.
    pub closed spec fn pending(&self) -> Seq<Entry> {
        queued(self.upsert_queue)
    }

    /// The number of queued entries at which a producer triggers a flush.
    pub closed spec fn batch_size(&self) -> nat {
        self.upsert_batch as nat
    }

    /// The state of the flush task.
    pub closed spec fn phase_of(&self) -> Phase {
        self.phase
    }

    /// An empty queue with a running flush task.
    pub fn new(upsert_batch: usize) -> (r: Client)
        ensures
            r.pending() == Seq::<Entry>::empty(),
            r.batch_size() == upsert_batch as nat,
            r.phase_of() == Phase::Running,
    {
        Client { upsert_batch, upsert_queue: new_queue(), phase: Phase::Running }
    }

    /// The batch size the queue was made with.
    pub fn upsert_batch(&self) -> (r: usize)
        ensures
            r as nat == self.batch_size(),
    {
        self.upsert_batch
    }

    /// The state of the flush task.
    pub fn phase(&self) -> (r: Phase)
        ensures
            r == self.phase_of(),
    {
        self.phase
    }

    /// The number of entries waiting.
    pub fn pending_len(&self) -> (r: usize)
        ensures
            r as int == self.pending().len(),
    {
        queue_len(&self.upsert_queue)
    }

    /// Queues each of `docs` for index `idx`, in order. The result says
    /// whether the queue now holds at least a batch, so that the caller must
    /// signal the flush task.
    pub fn upsert_documents(&mut self, idx: String, docs: Vec<String>) -> (trigger: bool)
        ensures
            final(self).pending() == old(self).pending() + tagged(idx, docs@),
            final(self).batch_size() == old(self).batch_size(),
            final(self).phase_of() == old(self).phase_of(),
            trigger == should_trigger(final(self).pending().len(), final(self).batch_size()),
    {
        let ghost start = self.pending();
        let mut i: usize = 0;
        while i < docs.len()
            invariant
                i <= docs.len(),
                self.pending() == start + tagged(idx, docs@.subrange(0, i as int)),
                self.batch_size() == old(self).batch_size(),
                self.phase_of() == old(self).phase_of(),
            decreases docs.len() - i,
        {
            push_entry(&mut self.upsert_queue, (idx.clone(), docs[i].clone()));
            assert(tagged(idx, docs@.subrange(0, i as int + 1)) =~= tagged(
                idx,
                docs@.subrange(0, i as int),
            ).push((idx, docs@[i as int])));
            assert(self.pending() =~= start + tagged(idx, docs@.subrange(0, i as int + 1)));
            i = i + 1;
        }
        assert(docs@.subrange(0, docs@.len() as int) =~= docs@);
        queue_len(&self.upsert_queue) >= self.upsert_batch
    }

    /// Handles one wake-up of the flush task. A trigger or a tick flushes
    /// what is queued, if anything; a shutdown or a broken channel flushes
    /// what is queued, even nothing, for the last time. A flush takes every
    /// queued entry at once and groups it by index.
    pub fn on_event(&mut self, evt: Event) -> (r: Option<Flush>)
        requires
            old(self).phase_of() == Phase::Running,
        ensures
            final(self).batch_size() == old(self).batch_size(),
            keeps_running(evt) && old(self).pending().len() == 0 ==> r.is_none()
                && final(self).pending() == old(self).pending() && final(self).phase_of()
                == Phase::Running,
            !keeps_running(evt) || old(self).pending().len() > 0 ==> r.is_some() && is_grouping(
                old(self).pending(),
                groups_view(r->Some_0.batches@),
            ) && r->Some_0.last == !keeps_running(evt) && final(self).pending()
                == Seq::<Entry>::empty(),
            keeps_running(evt) ==> final(self).phase_of() == Phase::Running,
            !keeps_running(evt) ==> final(self).phase_of() == Phase::Draining,
    {
        let go = match evt {
            Event::Trigger | Event::Tick => true,
            Event::Stop | Event::TriggerClosed | Event::StopLost => false,
        };
        if go && queue_len(&self.upsert_queue) == 0 {
            return None;
        }
        let taken = take_queue(&mut self.upsert_queue);
        let entries = drain_queue(taken);
        let batches = group_by_key(entries);
        if !go {
            self.phase = Phase::Draining;
        }
        Some(Flush { batches, last: !go })
    }

    /// Records how the batched calls of a flush went. After a failure the
    /// flushed entries are not queued again, and the loop waits to restart.
    pub fn on_flush_done(&mut self, ok: bool)
        requires
            old(self).phase_of() == Phase::Running || old(self).phase_of() == Phase::Draining,
        ensures
            final(self).pending() == old(self).pending(),
            final(self).batch_size() == old(self).batch_size(),
            !ok ==> final(self).phase_of() == (Phase::Retrying { delay_secs: RETRY_DELAY_SECS }),
            ok && old(self).phase_of() == Phase::Running ==> final(self).phase_of()
                == Phase::Running,
            ok && old(self).phase_of() == Phase::Draining ==> final(self).phase_of()
                == Phase::Stopped,
    {
        if !ok {
            self.phase = Phase::Retrying { delay_secs: RETRY_DELAY_SECS };
        } else if self.phase == Phase::Draining {
            self.phase = Phase::Stopped;
        }
    }

    /// The retry delay has passed: the flush loop runs again, with the queue
    /// as it stands.
    pub fn on_retry_elapsed(&mut self)
        requires
            old(self).phase_of() is Retrying,
        ensures
            final(self).pending() == old(self).pending(),
            final(self).batch_size() == old(self).batch_size(),
            final(self).phase_of() == Phase::Running,
    {
        self.phase = Phase::Running;
    }
}

} // verus!
