use crate::fragment::{fragment_count, window};
use crate::message::RealMessage;
use itertools::Itertools;
use vstd::prelude::*;

verus! {

/// Number of messages above which a submission is split into gated batches.
pub const DEFAULT_BURST_THRESHOLD: usize = 10;

/// Free queue capacity that must be exceeded before a gated batch is pushed.
pub const DEFAULT_LOW_WATER_MARK: usize = 2;

/// Pause between two looks at the queue's capacity, in milliseconds.
pub const DEFAULT_BACKOFF_MS: u64 = 50;

/// `items` cut into consecutive windows of `size`, in order.
pub open spec fn windows<T>(items: Seq<T>, size: nat) -> Seq<Seq<T>> {
    Seq::new(fragment_count(items.len(), size), |i: int| window(items, size, i))
}

pub open spec fn batch_views(batches: Seq<Vec<RealMessage>>) -> Seq<Seq<RealMessage>> {
    batches.map_values(|b: Vec<RealMessage>| b@)
}

/// Relies on `itertools::Itertools::chunks`: it yields the items in order in
/// groups of `size`, the last group holding what is left (1 to `size`
/// items); it panics when `size` is zero.
#[verifier::external_body]
fn group_in_batches(items: Vec<RealMessage>, size: usize) -> (batches: Vec<Vec<RealMessage>>)
    requires
        size > 0,
    ensures
        batch_views(batches@) == windows(items@, size as nat),
{
    let grouped = items.into_iter().chunks(size);
    let batches: Vec<Vec<RealMessage>> = grouped.into_iter().map(|c| c.collect()).collect();
    batches
}

/// How a submission is shaped: batches of at most `burst_threshold`
/// messages, and, for a submission larger than that, a batch is pushed only
/// while the queue has more than `low_water_mark` free slots, looking again
/// after `backoff_ms` otherwise.
#[derive(Clone, Copy, Debug)]
pub struct EgressPolicy {
    burst_threshold: usize,
    low_water_mark: usize,
    backoff_ms: u64,
}

impl EgressPolicy {
    #[verifier::type_invariant]
    spec fn inv(&self) -> bool {
        self.burst_threshold > 0
    }

    pub closed spec fn threshold(&self) -> usize {
        self.burst_threshold
    }

    pub closed spec fn low_water(&self) -> usize {
        self.low_water_mark
    }

    pub closed spec fn backoff(&self) -> u64 {
        self.backoff_ms
    }

    pub fn burst_threshold(&self) -> (n: usize)
        ensures
            n == self.threshold(),
            n > 0,
    {
        proof {
            use_type_invariant(self);
        }
        self.burst_threshold
    }

    pub fn low_water_mark(&self) -> (n: usize)
        ensures
            n == self.low_water(),
    {
        self.low_water_mark
    }

    pub fn backoff_ms(&self) -> (ms: u64)
        ensures
            ms == self.backoff(),
    {
        self.backoff_ms
    }

    /// A policy; `None` when `burst_threshold` is zero.
    pub fn new(burst_threshold: usize, low_water_mark: usize, backoff_ms: u64) -> (policy: Option<
        Self,
    >)
        ensures
            policy is Some <==> burst_threshold > 0,
            policy matches Some(p) ==> p.threshold() == burst_threshold && p.low_water()
                == low_water_mark && p.backoff() == backoff_ms,
    {
        if burst_threshold == 0 {
            None
        } else {
            Some(EgressPolicy { burst_threshold, low_water_mark, backoff_ms })
        }
    }

    /// Batches of 10, pushed while more than 2 slots are free, looking again
    /// every 50 ms.
    pub fn default_policy() -> (policy: Self)
        ensures
            policy.threshold() == DEFAULT_BURST_THRESHOLD,
            policy.low_water() == DEFAULT_LOW_WATER_MARK,
            policy.backoff() == DEFAULT_BACKOFF_MS,
    {
        EgressPolicy {
            burst_threshold: DEFAULT_BURST_THRESHOLD,
            low_water_mark: DEFAULT_LOW_WATER_MARK,
            backoff_ms: DEFAULT_BACKOFF_MS,
        }
    }
}

/// What the sender does next with a submission.
#[derive(Debug)]
pub enum EgressStep {
    /// Push this batch onto the queue.
    Push(Vec<RealMessage>),
    /// Sleep this many milliseconds, then look at the capacity again.
    Wait(u64),
    /// Everything has been pushed.
    Done,
}

/// Whether a look at the queue that found `capacity` free slots lets the
/// next batch go.
pub open spec fn admits(gated: bool, low_water_mark: usize, capacity: usize) -> bool {
    !gated || capacity > low_water_mark
}

/// Batches left after one look at the queue.
pub open spec fn after_poll(left: nat, gated: bool, low_water_mark: usize, capacity: usize) -> nat {
    if left > 0 && admits(gated, low_water_mark, capacity) {
        (left - 1) as nat
    } else {
        left
    }
}

/// Batches left after looking at the queue once for each of `capacities`.
pub open spec fn batches_left(
    left: nat,
    gated: bool,
    low_water_mark: usize,
    capacities: Seq<usize>,
) -> nat
    decreases capacities.len(),
{
    if capacities.len() == 0 {
        left
    } else {
        batches_left(
            after_poll(left, gated, low_water_mark, capacities[0]),
            gated,
            low_water_mark,
            capacities.drop_first(),
        )
    }
}

/// Batches pushed while looking at the queue once for each of
/// `capacities`.
pub open spec fn pushes_made(
    left: nat,
    gated: bool,
    low_water_mark: usize,
    capacities: Seq<usize>,
) -> nat
    decreases capacities.len(),
{
    if capacities.len() == 0 {
        0
    } else {
        (if left > 0 && admits(gated, low_water_mark, capacities[0]) {
            1nat
        } else {
            0nat
        }) + pushes_made(
            after_poll(left, gated, low_water_mark, capacities[0]),
            gated,
            low_water_mark,
            capacities.drop_first(),
        )
    }
}

/// How many of `capacities` let a batch go.
pub open spec fn admitting(gated: bool, low_water_mark: usize, capacities: Seq<usize>) -> nat
    decreases capacities.len(),
{
    if capacities.len() == 0 {
        0
    } else {
        (if admits(gated, low_water_mark, capacities[0]) {
            1nat
        } else {
            0nat
        }) + admitting(gated, low_water_mark, capacities.drop_first())
    }
}

/// A batch of prepared messages on its way to the egress queue.
pub struct BatchSubmission {
    batches: Vec<Vec<RealMessage>>,
    gated: bool,
    policy: EgressPolicy,
}

impl BatchSubmission {
    /// The batches not yet pushed, in order.
    pub closed spec fn remaining(&self) -> Seq<Seq<RealMessage>> {
        batch_views(self.batches@)
    }

    /// Whether pushes wait for the low-water mark.
    pub closed spec fn is_gated(&self) -> bool {
        self.gated
    }

    pub closed spec fn policy_of(&self) -> EgressPolicy {
        self.policy
    }

    /// Every remaining batch holds between one message and the burst
    /// threshold.
    #[verifier::type_invariant]
    spec fn wf(&self) -> bool {
        forall|i: int|
            0 <= i < self.batches@.len() ==> 1 <= (#[trigger] self.batches@[i])@.len()
                <= self.policy.threshold()
    }

    /// Cuts `messages` into consecutive batches of at most the burst
    /// threshold, in order; only a submission larger than the threshold is
    /// gated by the low-water mark.
    pub fn new(messages: Vec<RealMessage>, policy: EgressPolicy) -> (submission: Self)
        ensures
            submission.policy_of() == policy,
            submission.is_gated() == (messages@.len() > policy.threshold()),
            submission.remaining() == windows(messages@, policy.threshold() as nat),
    {
        let n = messages.len();
        let ghost items = messages@;
        let threshold = policy.burst_threshold();
        let batches = if n > threshold {
            group_in_batches(messages, threshold)
        } else if n == 0 {
            let empty: Vec<Vec<RealMessage>> = Vec::new();
            assert(batch_views(empty@) =~= windows(items, threshold as nat));
            empty
        } else {
            let mut single: Vec<Vec<RealMessage>> = Vec::new();
            single.push(messages);
            assert(items.subrange(0, items.len() as int) =~= items);
            assert((n as nat - 1) as nat / (threshold as nat) == 0) by (nonlinear_arith)
                requires
                    0 < n <= threshold,
            ;
            assert(fragment_count(items.len(), threshold as nat) == 1);
            assert(0 * (threshold as nat) == 0) by (nonlinear_arith);
            assert(window(items, threshold as nat, 0) =~= items);
            assert(batch_views(single@) =~= windows(items, threshold as nat));
            single
        };
        assert(batch_views(batches@) == windows(items, threshold as nat));
        assert forall|i: int| 0 <= i < batches@.len() implies 1 <= (
        #[trigger] batches@[i])@.len() <= threshold by {
            assert(batch_views(batches@)[i] == batches@[i]@);
            lemma_window_size(items, threshold as nat, i);
        }
        let submission = BatchSubmission { batches, gated: n > threshold, policy };
        submission
    }

    /// Number of batches not yet pushed.
    pub fn batches_remaining(&self) -> (n: usize)
        ensures
            n == self.remaining().len(),
    {
        self.batches.len()
    }

    /// One look at the queue, which has `capacity` free slots. With nothing
    /// left: `Done`. When the submission is gated and `capacity` does not
    /// exceed the low-water mark: `Wait` for the backoff, nothing changes.
    /// Otherwise the first remaining batch is handed out to be pushed.
    pub fn poll(&mut self, capacity: usize) -> (step: EgressStep)
        ensures
            final(self).policy_of() == old(self).policy_of(),
            final(self).is_gated() == old(self).is_gated(),
            final(self).remaining().len() == after_poll(
                old(self).remaining().len(),
                old(self).is_gated(),
                old(self).policy_of().low_water(),
                capacity,
            ),
            old(self).remaining().len() == 0 ==> step is Done,
            step is Done ==> old(self).remaining().len() == 0,
            step matches EgressStep::Wait(ms) ==> ms == old(self).policy_of().backoff()
                && final(self).remaining() == old(self).remaining() && !admits(
                old(self).is_gated(),
                old(self).policy_of().low_water(),
                capacity,
            ),
            step matches EgressStep::Push(batch) ==> {
                &&& admits(old(self).is_gated(), old(self).policy_of().low_water(), capacity)
                &&& batch@ == old(self).remaining()[0]
                &&& 1 <= batch@.len() <= old(self).policy_of().threshold()
                &&& final(self).remaining() == old(self).remaining().drop_first()
            },
    {
        proof {
            use_type_invariant(&*self);
        }
        if self.batches.len() == 0 {
            return EgressStep::Done;
        }
        if self.gated && capacity <= self.policy.low_water_mark() {
            return EgressStep::Wait(self.policy.backoff_ms());
        }
        let ghost before = self.batches@;
        let mut batches: Vec<Vec<RealMessage>> = Vec::new();
        std::mem::swap(&mut batches, &mut self.batches);
        let batch = batches.remove(0);
        self.batches = batches;
        assert(self.remaining() =~= batch_views(before).drop_first());
        assert(before[0] == batch);
        EgressStep::Push(batch)
    }
}

proof fn lemma_window_size<T>(items: Seq<T>, size: nat, i: int)
    requires
        size > 0,
        0 <= i < fragment_count(items.len(), size),
    ensures
        1 <= window(items, size, i).len() <= size,
{
    let q = (items.len() - 1) as nat / size;
    vstd::arithmetic::div_mod::lemma_fundamental_div_mod((items.len() - 1) as int, size as int);
    assert(i * size <= q * size) by (nonlinear_arith)
        requires
            i <= q,
            size > 0,
    ;
    assert(q * size == size * q) by (nonlinear_arith);
}

/// A submission is never stuck: however the queue's free capacity varies,
/// once it has been seen above the low-water mark as many times as batches
/// remain, everything has been pushed, in exactly as many pushes as there
/// were batches.
pub proof fn lemma_submission_completes(
    left: nat,
    gated: bool,
    low_water_mark: usize,
    capacities: Seq<usize>,
)
    requires
        admitting(gated, low_water_mark, capacities) >= left,
    ensures
        batches_left(left, gated, low_water_mark, capacities) == 0,
        pushes_made(left, gated, low_water_mark, capacities) == left,
    decreases capacities.len(),
{
    if capacities.len() > 0 {
        lemma_submission_completes(
            after_poll(left, gated, low_water_mark, capacities[0]),
            gated,
            low_water_mark,
            capacities.drop_first(),
        );
    }
}

} // verus!
