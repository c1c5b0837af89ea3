//! The relay: one claim, publish and resolve cycle, and the delivery policy
//! that decides whether a claimed batch stays claimed.

use vstd::prelude::*;
use crate::outbox::{
    claim_len, query_outbox_entry_batch, OutboxEntry, OutboxStore,
};
use crate::publish::{
    message_for, retryable, to_message, Delivery, Message, PublishError, PublishOutcome,
};

verus! {

/// When a claimed entry counts as handled relative to its removal.
#[derive(Debug, PartialEq, Eq, Structural, Clone, Copy)]
pub enum DeliveryPolicy {
    /// The claim commits before publishing: a failed or interrupted batch is
    /// lost from the failing entry on.
    AtMostOnce,
    /// The claim and the publishes share one transaction, committed only if
    /// no publish failed: nothing is dropped, duplicates are possible.
    AtLeastOnce,
}

/// What becomes of a cycle's claim.
#[derive(Debug, PartialEq, Eq, Structural, Clone, Copy)]
pub enum Resolution {
    /// The claimed entries stay removed.
    Commit,
    /// The claimed entries return to the store.
    Rollback,
}

/// The resolution a policy gives a batch, `aborted` when a retryable
/// publish failure stopped it.
pub open spec fn resolution_of(policy: DeliveryPolicy, aborted: bool) -> Resolution {
    match policy {
        DeliveryPolicy::AtMostOnce => Resolution::Commit,
        DeliveryPolicy::AtLeastOnce => if aborted {
            Resolution::Rollback
        } else {
            Resolution::Commit
        },
    }
}

impl Default for DeliveryPolicy {
    /// At-least-once: the policy that never silently drops an entry.
    fn default() -> (r: DeliveryPolicy)
        ensures
            r == DeliveryPolicy::AtLeastOnce,
    {
        DeliveryPolicy::AtLeastOnce
    }
}

impl DeliveryPolicy {
    /// Decides the fate of a batch's claim.
    pub fn resolve(&self, aborted: bool) -> (r: Resolution)
        ensures
            r == resolution_of(*self, aborted),
    {
        match self {
            DeliveryPolicy::AtMostOnce => Resolution::Commit,
            DeliveryPolicy::AtLeastOnce => if aborted {
                Resolution::Rollback
            } else {
                Resolution::Commit
            },
        }
    }
}

/// The broker's answer to the `i`-th publish of a batch; a missing answer is
/// a timeout.
pub open spec fn outcome_at(o: Seq<PublishOutcome>, i: int) -> PublishOutcome {
    if 0 <= i < o.len() {
        o[i]
    } else {
        Err(PublishError::Timeout)
    }
}

/// The `i`-th publish failed in a way that a later attempt may overcome.
pub open spec fn stops_at(o: Seq<PublishOutcome>, i: int) -> bool {
    match outcome_at(o, i) {
        Ok(_) => false,
        Err(e) => retryable(e),
    }
}

/// Index of the first publish among the first `n` that stops the batch, or
/// `n` when none does.
pub open spec fn stop_index(o: Seq<PublishOutcome>, n: nat) -> nat
    decreases n,
{
    if n == 0 {
        0
    } else {
        let p = stop_index(o, (n - 1) as nat);
        if p < n - 1 {
            p
        } else if stops_at(o, n - 1) {
            (n - 1) as nat
        } else {
            n
        }
    }
}

/// The entries among the first `n` of `b` whose publish the broker acknowledged.
pub open spec fn delivered(b: Seq<OutboxEntry>, o: Seq<PublishOutcome>, n: nat) -> Seq<OutboxEntry>
    decreases n,
{
    if n == 0 {
        Seq::empty()
    } else {
        let d = delivered(b, o, (n - 1) as nat);
        match outcome_at(o, n - 1) {
            Ok(_) => d.push(b[n - 1]),
            Err(_) => d,
        }
    }
}

/// The messages in `m` are those of the entries in `d`, one for one.
pub open spec fn messages_for(m: Seq<Message>, d: Seq<OutboxEntry>) -> bool {
    &&& m.len() == d.len()
    &&& forall|i: int| 0 <= i < m.len() ==> message_for(#[trigger] m[i], d[i])
}

/// The store after a cycle on `s`: the claimed prefix of length `k` stays
/// removed unless the policy keeps it, or the transaction never committed.
pub open spec fn store_after(
    s: Seq<OutboxEntry>,
    k: nat,
    policy: DeliveryPolicy,
    aborted: bool,
    reaches_commit: bool,
) -> Seq<OutboxEntry> {
    if policy == DeliveryPolicy::AtLeastOnce && (aborted || !reaches_commit) {
        s
    } else {
        s.skip(k as int)
    }
}

/// The stop index lies within the first `n` publishes, nothing before it
/// stops the batch, and if it is not `n` the publish there does.
pub proof fn lemma_stop_index_bound(o: Seq<PublishOutcome>, n: nat)
    ensures
        stop_index(o, n) <= n,
        stop_index(o, n) < n ==> stops_at(o, stop_index(o, n) as int),
        forall|j: int| 0 <= j < stop_index(o, n) ==> !stops_at(o, j),
    decreases n,
{
    if n > 0 {
        lemma_stop_index_bound(o, (n - 1) as nat);
    }
}

/// Once a stop is found, looking further does not move it.
pub proof fn lemma_stop_index_stable(o: Seq<PublishOutcome>, n: nat, m: nat)
    requires
        n <= m,
        stop_index(o, n) < n,
    ensures
        stop_index(o, m) == stop_index(o, n),
    decreases m - n,
{
    if n < m {
        lemma_stop_index_stable(o, n, (m - 1) as nat);
        lemma_stop_index_bound(o, (m - 1) as nat);
    }
}

/// What one cycle did.
#[derive(Debug)]
pub struct CycleReport {
    /// Number of entries claimed.
    pub claimed: usize,
    /// Number of publishes attempted.
    pub attempted: usize,
    /// Messages the broker acknowledged, in publish order.
    pub sent: Vec<Message>,
    /// Whether a retryable publish failure stopped the batch.
    pub aborted: bool,
    /// What the policy made of the claim.
    pub resolution: Resolution,
}

/// Runs one relay cycle on `store`: claims up to `batch_size` of the oldest
/// entries, publishes them in order, and resolves the claim by `policy`.
///
/// `outcomes[i]` is the broker's answer to the `i`-th publish (a missing one
/// is a timeout). A retryable failure stops the batch; an entry that cannot
/// be encoded is dropped and the batch goes on. `reaches_commit` is false
/// when the worker dies after publishing and before its transaction commits.
pub fn run_cycle(
    store: &mut OutboxStore,
    batch_size: u64,
    policy: DeliveryPolicy,
    outcomes: &Vec<PublishOutcome>,
    reaches_commit: bool,
) -> (r: CycleReport)
    requires
        old(store).wf(),
    ensures
        final(store).wf(),
        final(store).next_id() == old(store).next_id(),
        final(store).last_created() == old(store).last_created(),
        ({
            let s = old(store)@;
            let k = claim_len(s, batch_size as nat);
            let b = s.take(k as int);
            let f = stop_index(outcomes@, k);
            &&& r.claimed == k
            &&& r.aborted == (f < k)
            &&& r.attempted == (if f < k {
                (f + 1) as int
            } else {
                k as int
            })
            &&& messages_for(r.sent@, delivered(b, outcomes@, f))
            &&& r.resolution == resolution_of(policy, f < k)
            &&& final(store)@ == store_after(s, k, policy, f < k, reaches_commit)
        }),
{
    let ghost s = store@;
    let ghost k = claim_len(s, batch_size as nat);
    let batch = query_outbox_entry_batch(store, batch_size);
    let ghost b = batch@;
    let mut sent: Vec<Message> = Vec::new();
    let mut i: usize = 0;
    let mut aborted = false;
    while i < batch.len() && !aborted
        invariant
            batch@ == b,
            b.len() == k,
            i <= k,
            !aborted ==> stop_index(outcomes@, i as nat) == i,
            aborted ==> i < k && stop_index(outcomes@, (i + 1) as nat) == i,
            messages_for(sent@, delivered(b, outcomes@, i as nat)),
        decreases k - i + (if aborted {
            0int
        } else {
            1int
        }),
    {
        let outcome = if i < outcomes.len() {
            outcomes[i]
        } else {
            Err(PublishError::Timeout)
        };
        match outcome {
            Ok(_) => {
                let m = to_message(&batch[i]);
                sent.push(m);
                i = i + 1;
            },
            Err(e) => {
                if e.is_retryable() {
                    aborted = true;
                } else {
                    i = i + 1;
                }
            },
        }
    }
    proof {
        if aborted {
            lemma_stop_index_stable(outcomes@, (i + 1) as nat, k);
        }
    }
    let attempted = if aborted {
        i + 1
    } else {
        i
    };
    let resolution = policy.resolve(aborted);
    let claimed = batch.len();
    let keep = match policy {
        DeliveryPolicy::AtLeastOnce => aborted || !reaches_commit,
        DeliveryPolicy::AtMostOnce => false,
    };
    if keep {
        store.restore_batch(batch);
        assert(store@ =~= s);
    }
    CycleReport { claimed, attempted, sent, aborted, resolution }
}

/// Where a relay worker stands in its cycle.
#[derive(Debug, PartialEq, Eq, Structural, Clone, Copy)]
pub enum Phase {
    /// Waiting for a wake-up.
    Idle,
    /// A claim is in flight.
    Claiming,
    /// The claimed batch is being published, one entry at a time.
    Publishing,
    /// The claim's commit or rollback is in flight.
    Resolving,
    /// The worker has ended.
    Stopped,
}

/// What the worker asks its driver to do next.
#[derive(Debug)]
pub enum Action {
    /// Nothing until the next event.
    Wait,
    /// Claim up to this many of the oldest entries.
    Claim(u64),
    /// Publish this message and report the broker's answer.
    Publish(Message),
    /// Commit or roll back the cycle's claim.
    Resolve(Resolution),
    /// End the worker.
    Exit,
}

/// The state of a relay worker.
pub struct WorkerView {
    pub policy: DeliveryPolicy,
    pub batch_size: u64,
    pub phase: Phase,
    /// The batch of the current cycle.
    pub batch: Seq<OutboxEntry>,
    /// Index in `batch` of the entry being published.
    pub next: nat,
    /// A wake-up arrived while a cycle was running.
    pub wake_pending: bool,
    /// Shutdown was asked for while a cycle was running.
    pub stopping: bool,
}

/// The state after a cycle ends: a stop asked for wins, then a wake-up that
/// came during the cycle starts the next claim, else the worker idles.
pub open spec fn after_cycle(v: WorkerView) -> WorkerView {
    WorkerView {
        phase: if v.stopping {
            Phase::Stopped
        } else if v.wake_pending {
            Phase::Claiming
        } else {
            Phase::Idle
        },
        batch: Seq::empty(),
        next: 0,
        wake_pending: false,
        ..v
    }
}

/// The action that goes with `after_cycle(v)`.
pub open spec fn after_cycle_action(v: WorkerView, a: Action) -> bool {
    if v.stopping {
        a is Exit
    } else if v.wake_pending {
        a == Action::Claim(v.batch_size)
    } else {
        a is Wait
    }
}

/// A relay worker: one claim, publish and resolve cycle at a time, woken by
/// timer ticks and work-available signals alike.
pub struct RelayWorker {
    policy: DeliveryPolicy,
    batch_size: u64,
    phase: Phase,
    batch: Vec<OutboxEntry>,
    next: usize,
    wake_pending: bool,
    stopping: bool,
}

impl View for RelayWorker {
    type V = WorkerView;

    closed spec fn view(&self) -> WorkerView {
        WorkerView {
            policy: self.policy,
            batch_size: self.batch_size,
            phase: self.phase,
            batch: self.batch@,
            next: self.next as nat,
            wake_pending: self.wake_pending,
            stopping: self.stopping,
        }
    }
}

impl RelayWorker {
    /// While publishing, the index points into a non-empty batch.
    pub open spec fn wf(&self) -> bool {
        self@.phase == Phase::Publishing ==> self@.next < self@.batch.len()
    }

    /// An idle worker.
    pub fn new(policy: DeliveryPolicy, batch_size: u64) -> (r: RelayWorker)
        ensures
            r.wf(),
            r@ == (WorkerView {
                policy,
                batch_size,
                phase: Phase::Idle,
                batch: Seq::empty(),
                next: 0,
                wake_pending: false,
                stopping: false,
            }),
    {
        RelayWorker {
            policy,
            batch_size,
            phase: Phase::Idle,
            batch: Vec::new(),
            next: 0,
            wake_pending: false,
            stopping: false,
        }
    }

    /// The current phase.
    pub fn phase(&self) -> (r: Phase)
        ensures
            r == self@.phase,
    {
        self.phase
    }

    fn finish_cycle(&mut self) -> (r: Action)
        ensures
            final(self)@ == after_cycle(old(self)@),
            after_cycle_action(old(self)@, r),
    {
        self.batch = Vec::new();
        self.next = 0;
        if self.stopping {
            self.wake_pending = false;
            self.phase = Phase::Stopped;
            Action::Exit
        } else if self.wake_pending {
            self.wake_pending = false;
            self.phase = Phase::Claiming;
            Action::Claim(self.batch_size)
        } else {
            self.phase = Phase::Idle;
            Action::Wait
        }
    }

    /// A timer tick or a work-available signal. An idle worker starts a
    /// claim; a busy one remembers the wake-up, so that any number of them
    /// during a cycle collapse into one claim after it.
    pub fn on_wake(&mut self) -> (r: Action)
        requires
            old(self).wf(),
        ensures
            final(self).wf(),
            old(self)@.phase == Phase::Idle ==> final(self)@ == (WorkerView {
                phase: Phase::Claiming,
                ..old(self)@
            }) && r == Action::Claim(old(self)@.batch_size),
            old(self)@.phase == Phase::Stopped ==> final(self)@ == old(self)@ && r is Exit,
            old(self)@.phase != Phase::Idle && old(self)@.phase != Phase::Stopped ==> final(self)@
                == (WorkerView { wake_pending: true, ..old(self)@ }) && r is Wait,
    {
        match self.phase {
            Phase::Idle => {
                self.phase = Phase::Claiming;
                Action::Claim(self.batch_size)
            },
            Phase::Stopped => Action::Exit,
            _ => {
                self.wake_pending = true;
                Action::Wait
            },
        }
    }

    /// The claim came back with `batch`, oldest first. An empty batch ends
    /// the cycle; otherwise publishing starts with its first entry.
    pub fn on_claimed(&mut self, batch: Vec<OutboxEntry>) -> (r: Action)
        requires
            old(self).wf(),
        ensures
            final(self).wf(),
            old(self)@.phase != Phase::Claiming ==> final(self)@ == old(self)@ && r is Wait,
            old(self)@.phase == Phase::Claiming && batch@.len() == 0 ==> final(self)@
                == after_cycle(old(self)@) && after_cycle_action(old(self)@, r),
            old(self)@.phase == Phase::Claiming && batch@.len() > 0 ==> {
                &&& final(self)@ == (WorkerView {
                    phase: Phase::Publishing,
                    batch: batch@,
                    next: 0,
                    ..old(self)@
                })
                &&& r is Publish
                &&& message_for(r->Publish_0, batch@[0])
            },
    {
        if self.phase != Phase::Claiming {
            return Action::Wait;
        }
        if batch.len() == 0 {
            return self.finish_cycle();
        }
        let m = to_message(&batch[0]);
        self.batch = batch;
        self.next = 0;
        self.phase = Phase::Publishing;
        Action::Publish(m)
    }

    /// The broker answered the publish of the current entry. A retryable
    /// failure ends publishing and hands the claim to the policy as aborted;
    /// otherwise the next entry goes out, and after the last one the policy
    /// resolves the claim as complete. An entry that cannot be encoded is
    /// dropped.
    pub fn on_published(&mut self, outcome: PublishOutcome) -> (r: Action)
        requires
            old(self).wf(),
        ensures
            final(self).wf(),
            old(self)@.phase != Phase::Publishing ==> final(self)@ == old(self)@ && r is Wait,
            old(self)@.phase == Phase::Publishing ==> {
                let v = old(self)@;
                let stop = match outcome {
                    Ok(_) => false,
                    Err(e) => retryable(e),
                };
                if stop {
                    &&& final(self)@ == (WorkerView { phase: Phase::Resolving, ..v })
                    &&& r == Action::Resolve(resolution_of(v.policy, true))
                } else if v.next + 1 < v.batch.len() {
                    &&& final(self)@ == (WorkerView { next: v.next + 1, ..v })
                    &&& r is Publish
                    &&& message_for(r->Publish_0, v.batch[v.next + 1int])
                } else {
                    &&& final(self)@ == (WorkerView { phase: Phase::Resolving, next: v.next + 1, ..v })
                    &&& r == Action::Resolve(resolution_of(v.policy, false))
                }
            },
    {
        if self.phase != Phase::Publishing {
            return Action::Wait;
        }
        let stop = match outcome {
            Ok(_) => false,
            Err(e) => e.is_retryable(),
        };
        if stop {
            self.phase = Phase::Resolving;
            return Action::Resolve(self.policy.resolve(true));
        }
        if self.next < self.batch.len() - 1 {
            self.next = self.next + 1;
            Action::Publish(to_message(&self.batch[self.next]))
        } else {
            self.next = self.next + 1;
            self.phase = Phase::Resolving;
            Action::Resolve(self.policy.resolve(false))
        }
    }

    /// The claim's commit or rollback went through; the cycle ends.
    pub fn on_resolved(&mut self) -> (r: Action)
        requires
            old(self).wf(),
        ensures
            final(self).wf(),
            old(self)@.phase != Phase::Resolving ==> final(self)@ == old(self)@ && r is Wait,
            old(self)@.phase == Phase::Resolving ==> final(self)@ == after_cycle(old(self)@)
                && after_cycle_action(old(self)@, r),
    {
        if self.phase != Phase::Resolving {
            return Action::Wait;
        }
        self.finish_cycle()
    }

    /// The store could not be reached while claiming or resolving: fatal to
    /// the worker, which its supervisor restarts.
    pub fn on_store_failed(&mut self) -> (r: Action)
        requires
            old(self).wf(),
        ensures
            final(self).wf(),
            final(self)@ == (WorkerView {
                phase: Phase::Stopped,
                batch: Seq::empty(),
                next: 0,
                ..old(self)@
            }),
            r is Exit,
    {
        self.batch = Vec::new();
        self.next = 0;
        self.phase = Phase::Stopped;
        Action::Exit
    }

    /// Graceful shutdown: an idle worker ends at once, a busy one finishes
    /// its cycle first.
    pub fn on_shutdown(&mut self) -> (r: Action)
        requires
            old(self).wf(),
        ensures
            final(self).wf(),
            old(self)@.phase == Phase::Idle || old(self)@.phase == Phase::Stopped ==> final(self)@
                == (WorkerView { phase: Phase::Stopped, ..old(self)@ }) && r is Exit,
            old(self)@.phase != Phase::Idle && old(self)@.phase != Phase::Stopped ==> final(self)@
                == (WorkerView { stopping: true, ..old(self)@ }) && r is Wait,
    {
        match self.phase {
            Phase::Idle | Phase::Stopped => {
                self.phase = Phase::Stopped;
                Action::Exit
            },
            _ => {
                self.stopping = true;
                Action::Wait
            },
        }
    }
}

/// Every acknowledged publish among the first `n` is in `delivered`.
pub proof fn lemma_delivered_contains(b: Seq<OutboxEntry>, o: Seq<PublishOutcome>, n: nat, i: int)
    requires
        0 <= i < n,
        n <= b.len(),
        outcome_at(o, i) is Ok,
    ensures
        delivered(b, o, n).contains(b[i]),
    decreases n,
{
    let d = delivered(b, o, (n - 1) as nat);
    if i < n - 1 {
        lemma_delivered_contains(b, o, (n - 1) as nat, i);
        let w = choose|w: int| 0 <= w < d.len() && d[w] == b[i];
        match outcome_at(o, n - 1) {
            Ok(_) => assert(d.push(b[n - 1])[w] == b[i]),
            Err(_) => {},
        }
    } else {
        assert(d.push(b[n - 1])[d.len() as int] == b[i]);
    }
}

/// Everything in `delivered` is one of the first `n` entries of `b`.
pub proof fn lemma_delivered_within(b: Seq<OutboxEntry>, o: Seq<PublishOutcome>, n: nat, x: int) -> (i: int)
    requires
        n <= b.len(),
        0 <= x < delivered(b, o, n).len(),
    ensures
        0 <= i < n,
        delivered(b, o, n)[x] == b[i],
        outcome_at(o, i) is Ok,
    decreases n,
{
    let d = delivered(b, o, (n - 1) as nat);
    match outcome_at(o, n - 1) {
        Ok(_) => {
            if x < d.len() {
                lemma_delivered_within(b, o, (n - 1) as nat, x)
            } else {
                n - 1
            }
        },
        Err(_) => lemma_delivered_within(b, o, (n - 1) as nat, x),
    }
}

/// When every publish among the first `n` is acknowledged, nothing stops the
/// batch and all of its first `n` entries are delivered, in order.
pub proof fn lemma_all_acknowledged(b: Seq<OutboxEntry>, o: Seq<PublishOutcome>, n: nat)
    requires
        n <= b.len(),
        forall|i: int| 0 <= i < n ==> #[trigger] outcome_at(o, i) is Ok,
    ensures
        stop_index(o, n) == n,
        delivered(b, o, n) == b.take(n as int),
    decreases n,
{
    if n > 0 {
        lemma_all_acknowledged(b, o, (n - 1) as nat);
        assert(outcome_at(o, n - 1) is Ok);
        assert(b.take(n - 1).push(b[n - 1]) =~= b.take(n as int));
    }
}

/// At-least-once: under `AtLeastOnce`, after a cycle on a store holding `s`
/// every entry is either still in the store or was acknowledged by the
/// broker; in particular, a worker that dies after the broker acknowledged
/// but before its transaction committed leaves every entry in the store.
/// Entries whose payload cannot be encoded are dropped on purpose, so the
/// broker's answers here hold no such failure.
pub proof fn lemma_at_least_once(
    s: Seq<OutboxEntry>,
    n: nat,
    o: Seq<PublishOutcome>,
    reaches_commit: bool,
    e: int,
)
    requires
        0 <= e < s.len(),
        forall|i: int| #[trigger] outcome_at(o, i) != Err::<Delivery, PublishError>(PublishError::SerializationFailed),
    ensures
        ({
            let k = claim_len(s, n);
            let f = stop_index(o, k);
            let after = store_after(s, k, DeliveryPolicy::AtLeastOnce, f < k, reaches_commit);
            &&& after.contains(s[e]) || delivered(s.take(k as int), o, f).contains(s[e])
            &&& !reaches_commit ==> after == s
        }),
{
    let k = claim_len(s, n);
    let f = stop_index(o, k);
    let b = s.take(k as int);
    let after = store_after(s, k, DeliveryPolicy::AtLeastOnce, f < k, reaches_commit);
    lemma_stop_index_bound(o, k);
    if f < k || !reaches_commit {
        assert(after[e] == s[e]);
    } else if e >= k {
        assert(after[e - k] == s[e]);
    } else {
        assert(!stops_at(o, e));
        assert(outcome_at(o, e) is Ok) by {
            match outcome_at(o, e) {
                Ok(_) => {},
                Err(x) => {
                    assert(x != PublishError::SerializationFailed);
                },
            }
        }
        lemma_delivered_contains(b, o, f, e);
        assert(b[e] == s[e]);
    }
}

/// Rollback on partial failure: under `AtLeastOnce`, when a retryable
/// failure stops a batch, the store keeps every entry, and a later cycle in
/// which the broker acknowledges everything delivers the whole batch again.
pub proof fn lemma_rollback_on_failure(
    s: Seq<OutboxEntry>,
    n: nat,
    o: Seq<PublishOutcome>,
    reaches_commit: bool,
    retry: Seq<PublishOutcome>,
)
    requires
        stop_index(o, claim_len(s, n)) < claim_len(s, n),
        forall|i: int| 0 <= i < claim_len(s, n) ==> #[trigger] outcome_at(retry, i) is Ok,
    ensures
        ({
            let k = claim_len(s, n);
            let after = store_after(s, k, DeliveryPolicy::AtLeastOnce, true, reaches_commit);
            &&& after == s
            &&& stop_index(retry, claim_len(after, n)) == claim_len(after, n)
            &&& delivered(after.take(k as int), retry, k) == s.take(k as int)
            &&& store_after(after, k, DeliveryPolicy::AtLeastOnce, false, true) == s.skip(k as int)
        }),
{
    let k = claim_len(s, n);
    lemma_all_acknowledged(s.take(k as int), retry, k);
}

/// Loss on partial failure: under `AtMostOnce`, the claimed batch leaves the
/// store whatever happens, and only entries before the failing one reached
/// the broker.
pub proof fn lemma_loss_on_failure(
    s: Seq<OutboxEntry>,
    n: nat,
    o: Seq<PublishOutcome>,
    reaches_commit: bool,
    x: int,
)
    requires
        stop_index(o, claim_len(s, n)) < claim_len(s, n),
        0 <= x < delivered(s.take(claim_len(s, n) as int), o, stop_index(o, claim_len(s, n))).len(),
    ensures
        ({
            let k = claim_len(s, n);
            let f = stop_index(o, k);
            &&& store_after(s, k, DeliveryPolicy::AtMostOnce, true, reaches_commit) == s.skip(k as int)
            &&& exists|i: int|
                0 <= i < f && #[trigger] s[i] == delivered(s.take(k as int), o, f)[x]
        }),
{
    let k = claim_len(s, n);
    let f = stop_index(o, k);
    let i = lemma_delivered_within(s.take(k as int), o, f, x);
    assert(s[i] == s.take(k as int)[i]);
}

} // verus!
