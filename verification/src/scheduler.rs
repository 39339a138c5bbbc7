//! The collector registry and its scheduling model.
//!
//! Collectors register under unique ids with a collection frequency.
//! Collectors sharing an interval form a group driven by one timer;
//! a group's clock advances independently of every other group, so a
//! slow collector delays only its own group. On-demand collectors sit
//! behind a bounded trigger channel that drops on saturation. After a
//! shutdown no further collection begins.

use vstd::prelude::*;

use crate::collectors::CollectionFrequency;
use crate::dictionary::str_eq;
use crate::errors::AgentError;

verus! {

/// One registered collector: its id, schedule, and channel state.
pub struct CollectorEntry {
    /// The collector's unique id.
    pub id: String,
    /// When the collector runs.
    pub frequency: CollectionFrequency,
    /// Whether the collector is enabled.
    pub enabled: bool,
    /// Whether initialization failed; a failed collector never runs.
    pub failed: bool,
    /// Pending on-demand triggers.
    pub pending_triggers: u64,
    /// Capacity of the on-demand channel.
    pub trigger_capacity: u64,
}

/// One interval group: every collector with the same period, driven by
/// one timer. The next tick is always at `interval_ms * (ticks + 1)`.
pub struct IntervalGroup {
    /// The group's period in milliseconds.
    pub interval_ms: u64,
    /// Indices of the member collectors, in registration order.
    pub members: Vec<usize>,
    /// Completed ticks.
    pub ticks: u64,
}

impl IntervalGroup {
    /// The group clock invariant: ticks happen at whole periods.
    pub open spec fn wf(&self) -> bool {
        &&& self.interval_ms >= 1
        &&& self.ticks <= u64::MAX / self.interval_ms
    }
}

/// The collector registry: owned collectors, interval groups, and the
/// shutdown latch.
pub struct CollectorRegistry {
    /// The registered collectors.
    pub collectors: Vec<CollectorEntry>,
    /// The interval groups.
    pub groups: Vec<IntervalGroup>,
    /// Whether `shutdown` has been called.
    pub is_shutdown: bool,
    /// Events dropped on channel saturation.
    pub dropped_triggers: u64,
}

/// Whether an id occurs among the first `n` collectors.
pub open spec fn spec_id_taken(entries: Seq<CollectorEntry>, id: Seq<char>) -> bool {
    exists|i: int| 0 <= i < entries.len() && (#[trigger] entries[i]).id@ == id
}

/// The index of the first collector with an id, if any.
pub open spec fn spec_collector_index(entries: Seq<CollectorEntry>, id: Seq<char>) -> Option<int>
    decreases entries.len(),
{
    if entries.len() == 0 {
        None
    } else if entries[0].id@ == id {
        Some(0int)
    } else {
        match spec_collector_index(entries.drop_first(), id) {
            Some(i) => Some(i + 1),
            None => None,
        }
    }
}

proof fn lemma_collector_index_found(entries: Seq<CollectorEntry>, i: int)
    requires
        0 <= i < entries.len(),
        forall|j: int| 0 <= j < i ==> (#[trigger] entries[j]).id@ != entries[i].id@,
    ensures
        spec_collector_index(entries, entries[i].id@) == Some(i),
    decreases i,
{
    if i > 0 {
        lemma_collector_index_found(entries.drop_first(), i - 1);
    }
}

proof fn lemma_collector_index_absent(entries: Seq<CollectorEntry>, id: Seq<char>)
    requires
        forall|j: int| 0 <= j < entries.len() ==> (#[trigger] entries[j]).id@ != id,
    ensures
        spec_collector_index(entries, id) is None,
    decreases entries.len(),
{
    if entries.len() > 0 {
        lemma_collector_index_absent(entries.drop_first(), id);
    }
}

proof fn lemma_collector_index_in_range(entries: Seq<CollectorEntry>, id: Seq<char>)
    ensures
        spec_collector_index(entries, id) matches Some(i) ==> 0 <= i < entries.len()
            && entries[i].id@ == id,
        spec_collector_index(entries, id) is Some <==> spec_id_taken(entries, id),
    decreases entries.len(),
{
    if entries.len() > 0 {
        lemma_collector_index_in_range(entries.drop_first(), id);
        if entries[0].id@ != id {
            match spec_collector_index(entries.drop_first(), id) {
                Some(i) => {
                    assert(entries.drop_first()[i] == entries[i + 1]);
                },
                None => {
                    if spec_id_taken(entries, id) {
                        let w = choose|w: int|
                            0 <= w < entries.len() && (#[trigger] entries[w]).id@ == id;
                        assert(entries.drop_first()[w - 1] == entries[w]);
                    }
                },
            }
        }
    }
}

/// The members of a prefix of a list that a tick should run: the
/// registered, enabled, non-failed ones, in order.
pub open spec fn spec_due_upto(
    entries: Seq<CollectorEntry>,
    members: Seq<usize>,
    k: int,
) -> Seq<usize>
    decreases k,
{
    if k <= 0 {
        Seq::empty()
    } else {
        let rest = spec_due_upto(entries, members, k - 1);
        let idx = members[k - 1];
        if idx < entries.len() && entries[idx as int].enabled && !entries[idx as int].failed {
            rest.push(idx)
        } else {
            rest
        }
    }
}

/// The indices of every runnable collector among the first `k`.
pub open spec fn spec_runnable_upto(entries: Seq<CollectorEntry>, k: int) -> Seq<usize>
    decreases k,
{
    if k <= 0 {
        Seq::empty()
    } else {
        let rest = spec_runnable_upto(entries, k - 1);
        if entries[k - 1].enabled && !entries[k - 1].failed {
            rest.push((k - 1) as usize)
        } else {
            rest
        }
    }
}

impl CollectorRegistry {
    /// Registry invariant: ids are unique and every group is a sound
    /// clock over registered members.
    pub open spec fn wf(&self) -> bool {
        &&& forall|i: int, j: int|
            0 <= i < j < self.collectors@.len() ==> (#[trigger] self.collectors@[i]).id@ != (
            #[trigger] self.collectors@[j]).id@
        &&& forall|g: int| 0 <= g < self.groups@.len() ==> (#[trigger] self.groups@[g]).wf()
    }

    /// An empty, running registry.
    pub fn new() -> (r: CollectorRegistry)
        ensures
            r.wf(),
            r.collectors@.len() == 0,
            r.groups@.len() == 0,
            !r.is_shutdown,
            r.dropped_triggers == 0,
    {
        CollectorRegistry {
            collectors: Vec::new(),
            groups: Vec::new(),
            is_shutdown: false,
            dropped_triggers: 0,
        }
    }

    /// The index of the collector with this id, if registered.
    fn find(&self, id: &str) -> (r: Option<usize>)
        ensures
            r matches Some(i) ==> spec_collector_index(self.collectors@, id@) == Some(i as int)
                && i < self.collectors@.len() && self.collectors@[i as int].id@ == id@,
            r is None ==> spec_collector_index(self.collectors@, id@) is None && !spec_id_taken(
                self.collectors@,
                id@,
            ),
    {
        let mut i: usize = 0;
        while i < self.collectors.len()
            invariant
                i <= self.collectors@.len(),
                forall|j: int| 0 <= j < i ==> (#[trigger] self.collectors@[j]).id@ != id@,
            decreases self.collectors@.len() - i,
        {
            if str_eq(self.collectors[i].id.as_str(), id) {
                proof {
                    lemma_collector_index_found(self.collectors@, i as int);
                }
                return Some(i);
            }
            i = i + 1;
        }
        proof {
            lemma_collector_index_absent(self.collectors@, id@);
        }
        None
    }

    /// Register a collector under a fresh id; a taken id is refused
    /// without changing anything.
    pub fn register(
        &mut self,
        id: String,
        frequency: CollectionFrequency,
        enabled: bool,
        trigger_capacity: u64,
    ) -> (r: Result<usize, AgentError>)
        requires
            old(self).wf(),
        ensures
            final(self).wf(),
            final(self).is_shutdown == old(self).is_shutdown,
            final(self).groups@ == old(self).groups@,
            r is Ok <==> !spec_id_taken(old(self).collectors@, id@),
            r is Err ==> *final(self) == *old(self) && r == Err::<usize, AgentError>(
                AgentError::InvalidConfig,
            ),
            r is Ok ==> r.unwrap() == old(self).collectors@.len() && final(self).collectors@.len()
                == old(self).collectors@.len() + 1 && final(self).collectors@[r.unwrap() as int].id@
                == id@ && final(self).collectors@.subrange(0, old(self).collectors@.len() as int)
                == old(self).collectors@,
    {
        match self.find(id.as_str()) {
            Some(_) => Err(AgentError::InvalidConfig),
            None => {
                let idx = self.collectors.len();
                let entry = CollectorEntry {
                    id,
                    frequency,
                    enabled,
                    failed: false,
                    pending_triggers: 0,
                    trigger_capacity,
                };
                self.collectors.push(entry);
                proof {
                    assert(self.collectors@.subrange(0, old(self).collectors@.len() as int)
                        =~= old(self).collectors@);
                }
                Ok(idx)
            },
        }
    }

    /// Record initialization results: a collector whose initialization
    /// failed is marked and never runs; the others are untouched.
    pub fn initialize_all(&mut self, results: &Vec<bool>)
        requires
            old(self).wf(),
            results@.len() == old(self).collectors@.len(),
        ensures
            final(self).wf(),
            final(self).collectors@.len() == old(self).collectors@.len(),
            final(self).is_shutdown == old(self).is_shutdown,
            forall|i: int|
                0 <= i < final(self).collectors@.len() ==> (#[trigger] final(self).collectors@[i]).failed == (old(self).collectors@[i].failed || !results@[i]) && final(self).collectors@[i].id@ == old(self).collectors@[i].id@,
    {
        let mut i: usize = 0;
        while i < self.collectors.len()
            invariant
                i <= self.collectors@.len(),
                self.collectors@.len() == old(self).collectors@.len(),
                results@.len() == old(self).collectors@.len(),
                self.groups@ == old(self).groups@,
                self.is_shutdown == old(self).is_shutdown,
                forall|j: int|
                    0 <= j < i ==> (#[trigger] self.collectors@[j]).failed == (old(self).collectors@[j].failed || !results@[j]),
                forall|j: int|
                    i <= j < self.collectors@.len() ==> #[trigger] self.collectors@[j] == old(self).collectors@[j],
                forall|j: int|
                    0 <= j < i ==> ({
                        let e = #[trigger] self.collectors@[j];
                        let o = old(self).collectors@[j];
                        e.id == o.id && e.frequency == o.frequency && e.enabled == o.enabled
                            && e.pending_triggers == o.pending_triggers && e.trigger_capacity
                            == o.trigger_capacity
                    }),
            decreases self.collectors@.len() - i,
        {
            if !results[i] {
                let entry = &mut self.collectors[i];
                entry.failed = true;
            }
            i = i + 1;
        }
        proof {
            assert forall|i2: int, j2: int|
                0 <= i2 < j2 < self.collectors@.len() implies (
            #[trigger] self.collectors@[i2]).id@ != (#[trigger] self.collectors@[j2]).id@ by {
                assert(self.collectors@[i2].id == old(self).collectors@[i2].id);
                assert(self.collectors@[j2].id == old(self).collectors@[j2].id);
            }
        }
    }

    /// Form an interval group over member indices.
    pub fn add_group(&mut self, interval_ms: u64, members: Vec<usize>)
        requires
            old(self).wf(),
            interval_ms >= 1,
        ensures
            final(self).wf(),
            final(self).groups@.len() == old(self).groups@.len() + 1,
            final(self).collectors@ == old(self).collectors@,
            final(self).is_shutdown == old(self).is_shutdown,
            final(self).groups@[old(self).groups@.len() as int].interval_ms == interval_ms,
            final(self).groups@[old(self).groups@.len() as int].ticks == 0,
            final(self).groups@.subrange(0, old(self).groups@.len() as int) == old(self).groups@,
    {
        self.groups.push(IntervalGroup { interval_ms, members, ticks: 0 });
        proof {
            assert(self.groups@.subrange(0, old(self).groups@.len() as int) =~= old(self).groups@);
        }
    }

    /// Advance one group's clock to `now_ms`, counting every tick that
    /// came due; other groups are untouched, so a slow group never
    /// delays its neighbours.
    pub fn advance_group(&mut self, g: usize, now_ms: u64)
        requires
            old(self).wf(),
            g < old(self).groups@.len(),
        ensures
            final(self).wf(),
            final(self).collectors@ == old(self).collectors@,
            final(self).is_shutdown == old(self).is_shutdown,
            final(self).groups@.len() == old(self).groups@.len(),
            // every other group is untouched
            forall|h: int|
                0 <= h < old(self).groups@.len() && h != g ==> #[trigger] final(self).groups@[h]
                    == old(self).groups@[h],
            final(self).groups@[g as int].interval_ms == old(self).groups@[g as int].interval_ms,
            final(self).groups@[g as int].members == old(self).groups@[g as int].members,
            // the clock lands on the floor of elapsed periods
            !old(self).is_shutdown ==> final(self).groups@[g as int].ticks as int == (if old(self).groups@[g as int].ticks as int > now_ms as int / old(self).groups@[g as int].interval_ms as int {
                old(self).groups@[g as int].ticks as int
            } else {
                now_ms as int / old(self).groups@[g as int].interval_ms as int
            }),
            // after shutdown no tick begins
            old(self).is_shutdown ==> final(self).groups@[g as int] == old(self).groups@[g as int],
    {
        if self.is_shutdown {
            return ;
        }
        proof {
            assert(self.groups@[g as int].wf());
        }
        let interval = self.groups[g].interval_ms;
        let target = now_ms / interval;
        proof {
            vstd::arithmetic::div_mod::lemma_div_is_ordered(
                now_ms as int,
                u64::MAX as int,
                interval as int,
            );
        }
        let gm = vstd::std_specs::vec::vec_index_mut(&mut self.groups, g);
        if gm.ticks < target {
            gm.ticks = target;
        }
        proof {
            assert forall|h: int| 0 <= h < self.groups@.len() implies (
            #[trigger] self.groups@[h]).wf() by {
                if h != g {
                    assert(self.groups@[h] == old(self).groups@[h]);
                }
            }
        }
    }

    /// Fire an on-demand trigger for a collector: queued when the
    /// channel has room, dropped with a counter bump when it is full.
    pub fn trigger_on_demand(&mut self, id: &str) -> (r: Result<(), AgentError>)
        requires
            old(self).wf(),
            old(self).dropped_triggers < u64::MAX,
        ensures
            final(self).wf(),
            final(self).is_shutdown == old(self).is_shutdown,
            final(self).groups@ == old(self).groups@,
            old(self).is_shutdown ==> r == Err::<(), AgentError>(AgentError::TransportFailed)
                && *final(self) == *old(self),
            !old(self).is_shutdown && spec_collector_index(old(self).collectors@, id@) is None
                ==> r == Err::<(), AgentError>(AgentError::UnknownCollector) && *final(self)
                == *old(self),
            !old(self).is_shutdown ==> (spec_collector_index(old(self).collectors@, id@)
                matches Some(i) ==> ({
                let e = old(self).collectors@[i];
                &&& (e.pending_triggers < e.trigger_capacity ==> r is Ok && final(self).collectors@ == old(self).collectors@.update(
                    i,
                    CollectorEntry { pending_triggers: (e.pending_triggers + 1) as u64, ..e },
                ) && final(self).dropped_triggers == old(self).dropped_triggers)
                &&& (e.pending_triggers >= e.trigger_capacity ==> r == Err::<(), AgentError>(
                    AgentError::ChannelFull,
                ) && final(self).collectors@ == old(self).collectors@ && final(self).dropped_triggers == old(self).dropped_triggers + 1)
            })),
    {
        if self.is_shutdown {
            return Err(AgentError::TransportFailed);
        }
        match self.find(id) {
            None => Err(AgentError::UnknownCollector),
            Some(i) => {
                let entry = &mut self.collectors[i];
                if entry.pending_triggers < entry.trigger_capacity {
                    entry.pending_triggers = entry.pending_triggers + 1;
                    proof {
                        assert(self.collectors@ =~= old(self).collectors@.update(
                            i as int,
                            self.collectors@[i as int],
                        ));
                        assert forall|a: int, b: int|
                            0 <= a < b < self.collectors@.len() implies (
                        #[trigger] self.collectors@[a]).id@ != (
                        #[trigger] self.collectors@[b]).id@ by {
                            assert(self.collectors@[a].id == old(self).collectors@[a].id);
                            assert(self.collectors@[b].id == old(self).collectors@[b].id);
                        }
                    }
                    Ok(())
                } else {
                    self.dropped_triggers = self.dropped_triggers + 1;
                    Err(AgentError::ChannelFull)
                }
            },
        }
    }

    /// Which collectors a tick of group `g` should run: the enabled,
    /// non-failed members in registration order; none after shutdown.
    #[verifier::loop_isolation(false)]
    pub fn due_members(&self, g: usize) -> (r: Vec<usize>)
        requires
            self.wf(),
            g < self.groups@.len(),
        ensures
            self.is_shutdown ==> r@.len() == 0,
            !self.is_shutdown ==> r@ == spec_due_upto(
                self.collectors@,
                self.groups@[g as int].members@,
                self.groups@[g as int].members@.len() as int,
            ),
    {
        let mut due: Vec<usize> = Vec::new();
        if self.is_shutdown {
            return due;
        }
        let members = &self.groups[g].members;
        let mut k: usize = 0;
        while k < members.len()
            invariant
                k <= members@.len(),
                due@ == spec_due_upto(self.collectors@, members@, k as int),
            decreases members@.len() - k,
        {
            let idx = members[k];
            if idx < self.collectors.len() {
                if self.collectors[idx].enabled && !self.collectors[idx].failed {
                    due.push(idx);
                }
            }
            k = k + 1;
        }
        due
    }

    /// The collectors a full sweep should run: every enabled,
    /// non-failed collector, in registration order; none after
    /// shutdown.
    #[verifier::loop_isolation(false)]
    pub fn collect_all(&self) -> (r: Vec<usize>)
        requires
            self.wf(),
        ensures
            self.is_shutdown ==> r@.len() == 0,
            !self.is_shutdown ==> r@ == spec_runnable_upto(
                self.collectors@,
                self.collectors@.len() as int,
            ),
    {
        let mut due: Vec<usize> = Vec::new();
        if self.is_shutdown {
            return due;
        }
        let mut i: usize = 0;
        while i < self.collectors.len()
            invariant
                i <= self.collectors@.len(),
                due@ == spec_runnable_upto(self.collectors@, i as int),
            decreases self.collectors@.len() - i,
        {
            if self.collectors[i].enabled && !self.collectors[i].failed {
                due.push(i);
            }
            i = i + 1;
        }
        due
    }

    /// Whether one collector, by id, should run now: its index exactly
    /// when it is registered, enabled, alive, and the registry is not
    /// shut down.
    pub fn collect_from(&self, id: &str) -> (r: Result<usize, crate::errors::AgentError>)
        requires
            self.wf(),
        ensures
            r is Ok <==> (!self.is_shutdown && (spec_collector_index(self.collectors@, id@)
                matches Some(i) && self.collectors@[i].enabled && !self.collectors@[i].failed)),
            r matches Ok(i) ==> spec_collector_index(self.collectors@, id@) == Some(i as int),
            self.is_shutdown ==> r == Err::<usize, AgentError>(AgentError::TransportFailed),
            !self.is_shutdown && spec_collector_index(self.collectors@, id@) is None ==> r
                == Err::<usize, AgentError>(AgentError::UnknownCollector),
    {
        if self.is_shutdown {
            return Err(AgentError::TransportFailed);
        }
        match self.find(id) {
            None => Err(AgentError::UnknownCollector),
            Some(i) => {
                if self.collectors[i].enabled && !self.collectors[i].failed {
                    Ok(i)
                } else {
                    Err(AgentError::InvalidConfig)
                }
            },
        }
    }

    /// Latch the shutdown flag; afterwards no tick advances and no
    /// collection begins.
    pub fn shutdown(&mut self)
        requires
            old(self).wf(),
        ensures
            final(self).wf(),
            final(self).is_shutdown,
            final(self).collectors@ == old(self).collectors@,
            final(self).groups@ == old(self).groups@,
    {
        self.is_shutdown = true;
    }
}

} // verus!
