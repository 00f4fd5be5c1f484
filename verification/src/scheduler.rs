use vstd::prelude::*;
use crate::abi::{ReconcileError, ReconcileOutcome};

verus! {

/// Host-configured policy for retrying application errors.
pub struct RetryPolicy {
    /// Total attempts an item is given before a persistent error is
    /// surfaced to the external caller; at least 1.
    pub max_attempts: u32,
    /// Backoff delay after the first failed attempt.
    pub base_delay: u64,
    /// Upper bound on any backoff delay.
    pub max_delay: u64,
}

impl RetryPolicy {
    pub open spec fn wf(self) -> bool {
        self.max_attempts >= 1
    }
}

/// Scheduler-tracked unit of reconciliation state for one object.
pub struct WorkItem {
    /// The serialized object handed to the guest on the next attempt.
    pub object: String,
    /// The item is eligible to run once the clock reaches this value.
    pub next_attempt_time: u64,
    /// Consecutive failed attempts so far.
    pub attempt_count: u32,
}

/// What the scheduler reports to the external caller when an item leaves
/// the system.
pub enum Completion {
    /// The guest finished without asking for a requeue; carries the final
    /// object.
    Succeeded(String),
    /// The guest failed on its last permitted attempt; code and message of
    /// that attempt, verbatim.
    Failed(ReconcileError),
}

/// An item is due once the clock has reached its recorded time.
pub open spec fn spec_is_due(it: WorkItem, now: u64) -> bool {
    it.next_attempt_time <= now
}

/// Addition on the wall clock, saturating at the largest representable
/// instant.
pub open spec fn spec_sat_add(a: u64, b: u64) -> u64 {
    if a + b > u64::MAX {
        u64::MAX
    } else {
        (a + b) as u64
    }
}

/// Addition on the attempt counter, saturating.
pub open spec fn spec_sat_add_u32(a: u32, b: u32) -> u32 {
    if a + b > u32::MAX {
        u32::MAX
    } else {
        (a + b) as u32
    }
}

/// The backoff delay before attempt `failures + 1`, after `failures`
/// consecutive errors: the base delay doubled per further failure, capped
/// at the policy's maximum.
pub open spec fn spec_backoff(p: RetryPolicy, failures: u32) -> u64
    recommends
        failures >= 1,
    decreases failures,
{
    if failures <= 1 {
        if p.base_delay <= p.max_delay {
            p.base_delay
        } else {
            p.max_delay
        }
    } else {
        let prev = spec_backoff(p, (failures - 1) as u32);
        if 2 * prev >= p.max_delay {
            p.max_delay
        } else {
            (2 * prev) as u64
        }
    }
}

/// Computes the capped exponential backoff delay.
pub fn backoff(p: &RetryPolicy, failures: u32) -> (d: u64)
    requires
        failures >= 1,
    ensures
        d == spec_backoff(*p, failures),
{
    let mut d: u64 = if p.base_delay <= p.max_delay {
        p.base_delay
    } else {
        p.max_delay
    };
    let mut k: u32 = 1;
    while k < failures
        invariant
            1 <= k <= failures,
            d == spec_backoff(*p, k),
            d <= p.max_delay,
        decreases failures - k,
    {
        if d > p.max_delay / 2 {
            proof {
                assert(2 * d >= p.max_delay);
            }
            d = p.max_delay;
        } else {
            let doubled = 2 * d;
            if doubled >= p.max_delay {
                d = p.max_delay;
            } else {
                d = doubled;
            }
        }
        k = k + 1;
    }
    d
}

/// No two items in the sequence are for the same object.
pub open spec fn objects_distinct(s: Seq<WorkItem>) -> bool {
    forall|i: int, j: int|
        0 <= i < j < s.len() ==> (#[trigger] s[i].object@) != (#[trigger] s[j].object@)
}

/// No item of `a` is for the same object as an item of `b`.
pub open spec fn objects_disjoint(a: Seq<WorkItem>, b: Seq<WorkItem>) -> bool {
    forall|i: int, j: int|
        0 <= i < a.len() && 0 <= j < b.len() ==> (#[trigger] a[i].object@) != (
        #[trigger] b[j].object@)
}

/// The sequence after removing index `i` by swapping in the last element.
pub open spec fn swap_removed(s: Seq<WorkItem>, i: int) -> Seq<WorkItem> {
    s.update(i, s.last()).drop_last()
}

/// Every element of a swap-removed sequence is an element of the original
/// at an index other than the removed one, and distinctness survives.
proof fn lemma_swap_removed(s: Seq<WorkItem>, i: int)
    requires
        0 <= i < s.len(),
    ensures
        swap_removed(s, i).len() == s.len() - 1,
        forall|x: int|
            0 <= x < s.len() - 1 ==> exists|k: int|
                0 <= k < s.len() && k != i && #[trigger] swap_removed(s, i)[x] == s[k],
        objects_distinct(s) ==> objects_distinct(swap_removed(s, i)),
{
    let t = swap_removed(s, i);
    assert forall|x: int| 0 <= x < s.len() - 1 implies exists|k: int|
        0 <= k < s.len() && k != i && #[trigger] t[x] == s[k] by {
        if x == i {
            assert(t[x] == s[s.len() - 1]);
        } else {
            assert(t[x] == s[x]);
        }
    }
    if objects_distinct(s) {
        assert forall|x: int, y: int| 0 <= x < y < t.len() implies (#[trigger] t[x].object@) != (
        #[trigger] t[y].object@) by {
            let kx: int = if x == i {
                s.len() - 1
            } else {
                x
            };
            let ky: int = if y == i {
                s.len() - 1
            } else {
                y
            };
            assert(t[x] == s[kx]);
            assert(t[y] == s[ky]);
            if kx < ky {
                assert(s[kx].object@ != s[ky].object@);
            } else {
                assert(s[ky].object@ != s[kx].object@);
            }
        }
    }
}

/// Host-side control loop state: the items waiting for their next attempt
/// and the items whose invocation is in flight. The scheduler serializes
/// invocations per object — at most one in-flight invocation for an object
/// at any time — while distinct objects may run concurrently, up to
/// whatever bound the host's execution contexts impose.
pub struct Scheduler {
    pending: Vec<WorkItem>,
    running: Vec<WorkItem>,
    policy: RetryPolicy,
}

impl Scheduler {
    pub closed spec fn pending_items(self) -> Seq<WorkItem> {
        self.pending@
    }

    pub closed spec fn running_items(self) -> Seq<WorkItem> {
        self.running@
    }

    pub closed spec fn policy_spec(self) -> RetryPolicy {
        self.policy
    }

    /// Some tracked item (waiting or in flight) is for this object.
    pub open spec fn has_object(self, o: Seq<char>) -> bool {
        ||| exists|i: int|
            0 <= i < self.pending_items().len() && (#[trigger] self.pending_items()[i].object@)
                == o
        ||| exists|i: int|
            0 <= i < self.running_items().len() && (#[trigger] self.running_items()[i].object@)
                == o
    }

    /// An invocation for this object is in flight.
    pub open spec fn is_running(self, o: Seq<char>) -> bool {
        exists|i: int|
            0 <= i < self.running_items().len() && (#[trigger] self.running_items()[i].object@)
                == o
    }

    /// Well-formedness: the policy is sane and no two tracked items are for
    /// the same object — each object has at most one WorkItem, and at most
    /// one invocation in flight.
    pub open spec fn wf(self) -> bool {
        &&& self.policy_spec().wf()
        &&& objects_distinct(self.pending_items())
        &&& objects_distinct(self.running_items())
        &&& objects_disjoint(self.pending_items(), self.running_items())
    }

    pub fn new(policy: RetryPolicy) -> (s: Self)
        requires
            policy.wf(),
        ensures
            s.wf(),
            s.pending_items().len() == 0,
            s.running_items().len() == 0,
            s.policy_spec() == policy,
    {
        Scheduler { pending: Vec::new(), running: Vec::new(), policy }
    }

    /// True when some tracked item is for `object`; lets the host keep
    /// items per object unique before enqueueing.
    pub fn tracks_object(&self, object: &String) -> (b: bool)
        ensures
            b == self.has_object(object@),
    {
        let mut i: usize = 0;
        while i < self.pending.len()
            invariant
                i <= self.pending@.len(),
                forall|j: int| 0 <= j < i ==> (#[trigger] self.pending@[j].object@) != object@,
            decreases self.pending@.len() - i,
        {
            if self.pending[i].object == *object {
                proof {
                    assert(self.pending_items()[i as int].object@ == object@);
                }
                return true;
            }
            i = i + 1;
        }
        let mut j: usize = 0;
        while j < self.running.len()
            invariant
                j <= self.running@.len(),
                forall|k: int| 0 <= k < j ==> (#[trigger] self.running@[k].object@) != object@,
                forall|k: int|
                    0 <= k < self.pending@.len() ==> (#[trigger] self.pending@[k].object@)
                        != object@,
            decreases self.running@.len() - j,
        {
            if self.running[j].object == *object {
                proof {
                    assert(self.running_items()[j as int].object@ == object@);
                }
                return true;
            }
            j = j + 1;
        }
        false
    }

    /// A new object enters the system: it becomes a WorkItem eligible
    /// immediately.
    pub fn enqueue(&mut self, object: String, now: u64)
        requires
            old(self).wf(),
            !old(self).has_object(object@),
        ensures
            final(self).wf(),
            final(self).pending_items().len() == old(self).pending_items().len() + 1,
            final(self).pending_items().take(old(self).pending_items().len() as int) == old(
                self,
            ).pending_items(),
            ({
                let it = final(self).pending_items().last();
                &&& it.object@ == object@
                &&& it.next_attempt_time == now
                &&& it.attempt_count == 0
            }),
            final(self).running_items() == old(self).running_items(),
            final(self).policy_spec() == old(self).policy_spec(),
    {
        let ghost op = self.pending@;
        self.pending.push(WorkItem { object, next_attempt_time: now, attempt_count: 0 });
        proof {
            assert(self.pending@.take(op.len() as int) =~= op);
            assert forall|x: int, y: int| 0 <= x < y < self.pending@.len() implies (
            #[trigger] self.pending@[x].object@) != (#[trigger] self.pending@[y].object@) by {
                if y == op.len() {
                    assert(self.pending@[x] == op[x]);
                } else {
                    assert(self.pending@[x] == op[x] && self.pending@[y] == op[y]);
                }
            }
            assert forall|x: int, y: int|
                0 <= x < self.pending@.len() && 0 <= y < self.running@.len() implies (
            #[trigger] self.pending@[x].object@) != (#[trigger] self.running@[y].object@) by {
                if x < op.len() {
                    assert(self.pending@[x] == op[x]);
                }
            }
        }
    }

    /// Removes a pending item before its deadline (external cancellation).
    /// An in-flight invocation is never interrupted — the guest sandbox has
    /// no safe preemption — so only pending items can be cancelled.
    pub fn cancel(&mut self, i: usize)
        requires
            old(self).wf(),
            i < old(self).pending_items().len(),
        ensures
            final(self).wf(),
            final(self).pending_items() == swap_removed(old(self).pending_items(), i as int),
            final(self).running_items() == old(self).running_items(),
            final(self).policy_spec() == old(self).policy_spec(),
    {
        let _ = self.pending.swap_remove(i);
        proof {
            lemma_swap_removed(old(self).pending@, i as int);
            assert forall|x: int, y: int|
                0 <= x < self.pending@.len() && 0 <= y < self.running@.len() implies (
            #[trigger] self.pending@[x].object@) != (#[trigger] self.running@[y].object@) by {
                let k = choose|k: int|
                    0 <= k < old(self).pending@.len() && k != i && self.pending@[x] == old(
                        self,
                    ).pending@[k];
                assert(old(self).pending@[k].object@ != self.running@[y].object@);
            }
        }
    }

    /// The index of the pending item with the earliest recorded time, if
    /// that time has been reached: the scheduler never hands out an item
    /// before its `next_attempt_time`.
    pub fn next_due(&self, now: u64) -> (r: Option<usize>)
        ensures
            r matches Some(i) ==> {
                &&& i < self.pending_items().len()
                &&& spec_is_due(self.pending_items()[i as int], now)
                &&& forall|j: int|
                    0 <= j < self.pending_items().len()
                        ==> self.pending_items()[i as int].next_attempt_time <= (
                    #[trigger] self.pending_items()[j].next_attempt_time)
            },
            r is None ==> forall|j: int|
                0 <= j < self.pending_items().len() ==> !spec_is_due(
                    #[trigger] self.pending_items()[j],
                    now,
                ),
    {
        if self.pending.len() == 0 {
            return None;
        }
        let mut best: usize = 0;
        let mut i: usize = 1;
        while i < self.pending.len()
            invariant
                self.pending@.len() > 0,
                best < i <= self.pending@.len(),
                forall|j: int|
                    0 <= j < i ==> self.pending@[best as int].next_attempt_time <= (
                    #[trigger] self.pending@[j].next_attempt_time),
            decreases self.pending@.len() - i,
        {
            if self.pending[i].next_attempt_time < self.pending[best].next_attempt_time {
                best = i;
            }
            i = i + 1;
        }
        if self.pending[best].next_attempt_time <= now {
            Some(best)
        } else {
            None
        }
    }

    /// The earliest recorded time among pending items: the host suspends
    /// until then (or until a new item is enqueued) instead of busy-polling.
    pub fn earliest_deadline(&self) -> (r: Option<u64>)
        ensures
            r matches Some(t) ==> {
                &&& exists|j: int|
                    0 <= j < self.pending_items().len() && (
                    #[trigger] self.pending_items()[j].next_attempt_time) == t
                &&& forall|j: int|
                    0 <= j < self.pending_items().len() ==> t <= (
                    #[trigger] self.pending_items()[j].next_attempt_time)
            },
            r is None <==> self.pending_items().len() == 0,
    {
        if self.pending.len() == 0 {
            return None;
        }
        let mut best: usize = 0;
        let mut i: usize = 1;
        while i < self.pending.len()
            invariant
                self.pending@.len() > 0,
                best < i <= self.pending@.len(),
                forall|j: int|
                    0 <= j < i ==> self.pending@[best as int].next_attempt_time <= (
                    #[trigger] self.pending@[j].next_attempt_time),
            decreases self.pending@.len() - i,
        {
            if self.pending[i].next_attempt_time < self.pending[best].next_attempt_time {
                best = i;
            }
            i = i + 1;
        }
        let t = self.pending[best].next_attempt_time;
        proof {
            assert(self.pending_items()[best as int].next_attempt_time == t);
        }
        Some(t)
    }

    /// Transitions a pending item to Running and hands back the object to
    /// invoke the guest with. The item leaves the pending set, so it cannot
    /// be started twice, and per-object mutual exclusion is preserved;
    /// every other pending item stays in place, so distinct objects run
    /// independently.
    pub fn begin(&mut self, i: usize) -> (object: String)
        requires
            old(self).wf(),
            i < old(self).pending_items().len(),
        ensures
            final(self).wf(),
            object@ == old(self).pending_items()[i as int].object@,
            final(self).pending_items() == swap_removed(old(self).pending_items(), i as int),
            final(self).running_items() == old(self).running_items().push(
                old(self).pending_items()[i as int],
            ),
            final(self).is_running(object@),
            final(self).policy_spec() == old(self).policy_spec(),
    {
        let it = self.pending.swap_remove(i);
        let object = it.object.clone();
        self.running.push(it);
        proof {
            let op = old(self).pending@;
            let or = old(self).running@;
            lemma_swap_removed(op, i as int);
            assert(self.running_items()[self.running_items().len() - 1].object@ == object@);
            assert forall|x: int, y: int| 0 <= x < y < self.running@.len() implies (
            #[trigger] self.running@[x].object@) != (#[trigger] self.running@[y].object@) by {
                if y < or.len() {
                    assert(self.running@[x] == or[x] && self.running@[y] == or[y]);
                } else {
                    assert(self.running@[x] == or[x] && self.running@[y] == op[i as int]);
                }
            }
            assert forall|x: int, y: int|
                0 <= x < self.pending@.len() && 0 <= y < self.running@.len() implies (
            #[trigger] self.pending@[x].object@) != (#[trigger] self.running@[y].object@) by {
                let k = choose|k: int|
                    0 <= k < op.len() && k != i && self.pending@[x] == op[k];
                if y < or.len() {
                    assert(op[k].object@ != or[y].object@);
                } else {
                    assert(self.running@[y] == op[i as int]);
                    if k < i {
                        assert(op[k].object@ != op[i as int].object@);
                    } else {
                        assert(op[i as int].object@ != op[k].object@);
                    }
                }
            }
        }
        object
    }

    /// Completes the in-flight invocation at `r_idx` in the running set
    /// with the outcome the guest returned, at wall-clock time `now`.
    ///
    /// On success with a requeue directive the item re-enters the queue —
    /// even with delay 0 it is queued rather than re-invoked synchronously —
    /// with the returned object stored verbatim and its attempt count
    /// cleared. On success without requeue the item is removed and a
    /// `Succeeded` completion carries the final object out. On an error the
    /// item is retried with capped exponential backoff until the policy's
    /// attempt limit; at the limit the item is removed and `Failed` carries
    /// that error verbatim — the scheduler never inspects `code`. A requeue
    /// that renames the object must not collide with another tracked
    /// object; the unchanged object never collides.
    pub fn finish(&mut self, r_idx: usize, outcome: ReconcileOutcome, now: u64) -> (c: Option<
        Completion,
    >)
        requires
            old(self).wf(),
            r_idx < old(self).running_items().len(),
            match outcome {
                Ok(res) => res.requeue ==> (res.object@ == old(self).running_items()[
                    r_idx as int
                ].object@ || !old(self).has_object(res.object@)),
                Err(_) => true,
            },
        ensures
            final(self).wf(),
            final(self).running_items() == swap_removed(old(self).running_items(), r_idx as int),
            final(self).policy_spec() == old(self).policy_spec(),
            ({
                let it = old(self).running_items()[r_idx as int];
                let p = old(self).policy_spec();
                match outcome {
                    Ok(res) => {
                        if res.requeue {
                            &&& c is None
                            &&& final(self).pending_items().len() == old(
                                self,
                            ).pending_items().len() + 1
                            &&& final(self).pending_items().take(
                                old(self).pending_items().len() as int,
                            ) == old(self).pending_items()
                            &&& final(self).pending_items().last().object@ == res.object@
                            &&& final(self).pending_items().last().next_attempt_time
                                == spec_sat_add(now, res.requeue_after as u64)
                            &&& final(self).pending_items().last().attempt_count == 0
                        } else {
                            &&& c matches Some(Completion::Succeeded(s)) && s@ == res.object@
                            &&& final(self).pending_items() == old(self).pending_items()
                        }
                    },
                    Err(e) => {
                        let failures = spec_sat_add_u32(it.attempt_count, 1);
                        if failures >= p.max_attempts {
                            &&& c matches Some(Completion::Failed(e2)) && e2 == e
                            &&& final(self).pending_items() == old(self).pending_items()
                        } else {
                            &&& c is None
                            &&& final(self).pending_items().len() == old(
                                self,
                            ).pending_items().len() + 1
                            &&& final(self).pending_items().take(
                                old(self).pending_items().len() as int,
                            ) == old(self).pending_items()
                            &&& final(self).pending_items().last().object@ == it.object@
                            &&& final(self).pending_items().last().next_attempt_time
                                == spec_sat_add(now, spec_backoff(p, failures))
                            &&& final(self).pending_items().last().attempt_count == failures
                        }
                    },
                }
            }),
    {
        proof {
            lemma_swap_removed(old(self).running@, r_idx as int);
        }
        let it = self.running.swap_remove(r_idx);
        proof {
            assert(self.running@ =~= swap_removed(old(self).running@, r_idx as int));
            assert forall|x: int, y: int|
                0 <= x < self.pending@.len() && 0 <= y < self.running@.len() implies (
            #[trigger] self.pending@[x].object@) != (#[trigger] self.running@[y].object@) by {
                let m = choose|m: int|
                    0 <= m < old(self).running@.len() && m != r_idx && self.running@[y] == old(
                        self,
                    ).running@[m];
                assert(old(self).pending@[x].object@ != old(self).running@[m].object@);
            }
        }
        let result = match outcome {
            Ok(res) => {
                if res.requeue {
                    let next = sat_add(now, res.requeue_after as u64);
                    proof {
                        lemma_finish_requeue_safe(*old(self), r_idx as int, res.object@);
                    }
                    self.push_pending(WorkItem {
                        object: res.object,
                        next_attempt_time: next,
                        attempt_count: 0,
                    });
                    None
                } else {
                    Some(Completion::Succeeded(res.object))
                }
            },
            Err(e) => {
                let failures = sat_add_u32(it.attempt_count, 1);
                if failures >= self.policy.max_attempts {
                    Some(Completion::Failed(e))
                } else {
                    let delay = backoff(&self.policy, failures);
                    let next = sat_add(now, delay);
                    proof {
                        lemma_finish_requeue_safe(*old(self), r_idx as int, it.object@);
                    }
                    self.push_pending(WorkItem {
                        object: it.object,
                        next_attempt_time: next,
                        attempt_count: failures,
                    });
                    None
                }
            },
        };
        result
    }

    /// Appends a work item whose object no other tracked item carries.
    fn push_pending(&mut self, it: WorkItem)
        requires
            old(self).policy_spec().wf(),
            objects_distinct(old(self).pending_items()),
            objects_distinct(old(self).running_items()),
            objects_disjoint(old(self).pending_items(), old(self).running_items()),
            forall|k: int|
                0 <= k < old(self).pending_items().len() ==> (
                #[trigger] old(self).pending_items()[k].object@) != it.object@,
            forall|k: int|
                0 <= k < old(self).running_items().len() ==> (
                #[trigger] old(self).running_items()[k].object@) != it.object@,
        ensures
            final(self).wf(),
            final(self).pending_items() == old(self).pending_items().push(it),
            final(self).pending_items().take(old(self).pending_items().len() as int) == old(
                self,
            ).pending_items(),
            final(self).running_items() == old(self).running_items(),
            final(self).policy_spec() == old(self).policy_spec(),
    {
        let ghost op = self.pending@;
        self.pending.push(it);
        proof {
            assert(self.pending@.take(op.len() as int) =~= op);
            assert forall|x: int, y: int| 0 <= x < y < self.pending@.len() implies (
            #[trigger] self.pending@[x].object@) != (#[trigger] self.pending@[y].object@) by {
                assert(self.pending@[x] == op[x]);
                if y < op.len() {
                    assert(self.pending@[y] == op[y]);
                }
            }
            assert forall|x: int, y: int|
                0 <= x < self.pending@.len() && 0 <= y < self.running@.len() implies (
            #[trigger] self.pending@[x].object@) != (#[trigger] self.running@[y].object@) by {
                if x < op.len() {
                    assert(self.pending@[x] == op[x]);
                }
            }
        }
    }
}

/// After removing the running item at `r_idx`, an object that either equals
/// the removed item's or is tracked nowhere collides with nothing that is
/// still tracked.
proof fn lemma_finish_requeue_safe(s: Scheduler, r_idx: int, o: Seq<char>)
    requires
        s.wf(),
        0 <= r_idx < s.running_items().len(),
        o == s.running_items()[r_idx].object@ || !s.has_object(o),
    ensures
        forall|k: int|
            0 <= k < s.pending_items().len() ==> (#[trigger] s.pending_items()[k].object@) != o,
        forall|k: int|
            0 <= k < swap_removed(s.running_items(), r_idx).len() ==> (#[trigger] swap_removed(
                s.running_items(),
                r_idx,
            )[k].object@) != o,
{
    let sr = s.running_items();
    lemma_swap_removed(sr, r_idx);
    assert forall|k: int| 0 <= k < s.pending_items().len() implies (
    #[trigger] s.pending_items()[k].object@) != o by {
        if o == sr[r_idx].object@ {
            assert(s.pending_items()[k].object@ != sr[r_idx].object@);
        }
    }
    assert forall|k: int| 0 <= k < swap_removed(sr, r_idx).len() implies (#[trigger] swap_removed(
        sr,
        r_idx,
    )[k].object@) != o by {
        let m = choose|m: int|
            0 <= m < sr.len() && m != r_idx && swap_removed(sr, r_idx)[k] == sr[m];
        if o == sr[r_idx].object@ {
            if m < r_idx {
                assert(sr[m].object@ != sr[r_idx].object@);
            } else {
                assert(sr[r_idx].object@ != sr[m].object@);
            }
        } else {
            assert(sr[m].object@ != o);
        }
    }
}

fn sat_add(a: u64, b: u64) -> (r: u64)
    ensures
        r == spec_sat_add(a, b),
{
    if b > u64::MAX - a {
        u64::MAX
    } else {
        a + b
    }
}

fn sat_add_u32(a: u32, b: u32) -> (r: u32)
    ensures
        r == spec_sat_add_u32(a, b),
{
    if b > u32::MAX - a {
        u32::MAX
    } else {
        a + b
    }
}

/// Law: a requeue delay is respected. After a success at time `now` that
/// asked to requeue after `d`, the item's recorded time is `now + d` (see
/// `finish`), and an item whose recorded time has not been reached is not
/// due — `next_due` only ever returns due items, so the scheduler cannot
/// re-invoke the object at any earlier instant.
pub proof fn lemma_requeue_delay_respected(it: WorkItem, now: u64, d: u64, t: u64)
    requires
        it.next_attempt_time == spec_sat_add(now, d),
        t < spec_sat_add(now, d),
    ensures
        !spec_is_due(it, t),
{
}

/// The attempt counter after `k` consecutive errors starting from `a`, as
/// `finish` advances it while the limit is not yet reached.
pub open spec fn spec_error_attempts(a: u32, k: nat) -> u32
    decreases k,
{
    if k == 0 {
        a
    } else {
        spec_sat_add_u32(spec_error_attempts(a, (k - 1) as nat), 1)
    }
}

/// Law: attempt counting for a persistently failing item. Each error adds
/// one failure; starting from `a` recorded failures under limit `m`, the
/// item returns to the queue on each of the first `m - a - 1` errors and is
/// removed — surfacing `Failed` with the last error verbatim (see
/// `finish`) — on error number `m - a`.
pub proof fn lemma_persistent_error_surfaces(a: u32, m: u32, k: u32)
    requires
        a < m,
        1 <= k <= m - a,
    ensures
        spec_error_attempts(a, k as nat) == a + k,
        k < m - a ==> spec_error_attempts(a, k as nat) < m,
        k == m - a ==> spec_error_attempts(a, k as nat) >= m,
    decreases k,
{
    if k == 1 {
        assert(spec_error_attempts(a, 0) == a);
    } else {
        lemma_persistent_error_surfaces(a, m, (k - 1) as u32);
    }
}

/// Law: per-object mutual exclusion. A well-formed scheduler never holds
/// two in-flight invocations for the same object, so no invocation for an
/// object can interleave with another invocation for that same object;
/// items for distinct objects are independent (`begin` leaves every other
/// pending item in place), so both can run.
pub proof fn lemma_no_reentrant_invocation(s: Scheduler, i: int, j: int)
    requires
        s.wf(),
        0 <= i < j < s.running_items().len(),
    ensures
        s.running_items()[i].object@ != s.running_items()[j].object@,
{
}

} // verus!
