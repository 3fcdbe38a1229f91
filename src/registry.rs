//! The shared registry of per-machine allocation state.
//!
//! Entries are created once, from the startup configuration, and never
//! removed. Each entry is written only through the operations below, each of
//! which touches a single entry; totals are read over all entries.
use vstd::prelude::*;
use crate::allocation::{decide, decision_of, Decision};

verus! {

/// Bytes in one MiB, the unit of every allocation.
pub const MIB: u64 = 1_048_576;

/// The largest allocation, in MiB, whose byte count fits in a `u64`.
pub const MAX_MB: u64 = 17_592_186_044_415;

/// The largest number of machines the registry holds; with every
/// allocation at most `MAX_MB`, the totals then fit in a `u64`.
pub const MAX_WORKLOADS: usize = 1_048_576;

/// Allocation state of one machine.
#[derive(Clone, Copy, Debug, PartialEq, Eq, Structural)]
pub struct Allocation {
    /// The operator's goal for this machine, in MiB.
    pub declared_target_mb: u64,
    /// The last measured usage, in MiB.
    pub observed_actual_mb: u64,
    /// When the last adjustment was sent, in ms on a monotonic clock.
    pub last_adjusted_at_ms: u64,
}

/// One machine: its name, the address of its control channel, its state.
#[derive(Debug)]
pub struct Workload {
    pub id: String,
    pub channel_address: String,
    pub allocation: Allocation,
}

/// The registry: one entry per machine, names unique.
#[derive(Debug)]
pub struct Registry {
    workloads: Vec<Workload>,
}

/// An allocation is in range when both of its sizes fit in bytes.
pub open spec fn allocation_in_range(a: Allocation) -> bool {
    a.declared_target_mb <= MAX_MB && a.observed_actual_mb <= MAX_MB
}

/// Sum of the observed usage over `s`, in MiB.
pub open spec fn total_actual(s: Seq<Allocation>) -> int
    decreases s.len(),
{
    if s.len() == 0 {
        0
    } else {
        total_actual(s.drop_last()) + s.last().observed_actual_mb
    }
}

/// Sum of the declared targets over `s`, in MiB.
pub open spec fn total_declared(s: Seq<Allocation>) -> int
    decreases s.len(),
{
    if s.len() == 0 {
        0
    } else {
        total_declared(s.drop_last()) + s.last().declared_target_mb
    }
}

/// Time since `last`, or zero if the clock reads earlier.
pub open spec fn elapsed_since(now_ms: u64, last_ms: u64) -> u64 {
    if now_ms >= last_ms {
        (now_ms - last_ms) as u64
    } else {
        0
    }
}

/// The registry after machine `i` records a usage of `actual` MiB.
pub open spec fn observed(s: Seq<Allocation>, i: int, actual: u64) -> Seq<Allocation> {
    s.update(i, Allocation { observed_actual_mb: actual, ..s[i] })
}

/// One cycle's decision for machine `i`: its usage is recorded first, and
/// the totals are taken over the registry with that usage in it.
pub open spec fn cycle_decision(s: Seq<Allocation>, i: int, actual: u64, now_ms: u64) -> Decision {
    let t = observed(s, i, actual);
    decision_of(
        actual,
        s[i].declared_target_mb,
        total_actual(t) as u64,
        total_declared(t) as u64,
        elapsed_since(now_ms, s[i].last_adjusted_at_ms),
    )
}

proof fn lemma_totals_bounded(s: Seq<Allocation>)
    requires
        forall|i: int| 0 <= i < s.len() ==> allocation_in_range(#[trigger] s[i]),
    ensures
        0 <= total_actual(s) <= s.len() * MAX_MB,
        0 <= total_declared(s) <= s.len() * MAX_MB,
    decreases s.len(),
{
    if s.len() > 0 {
        let p = s.drop_last();
        assert forall|i: int| 0 <= i < p.len() implies allocation_in_range(#[trigger] p[i]) by {
            assert(p[i] == s[i]);
        }
        lemma_totals_bounded(p);
        assert(allocation_in_range(s[s.len() - 1]));
        assert(s.len() * MAX_MB == p.len() * MAX_MB + MAX_MB) by (nonlinear_arith)
            requires
                s.len() == p.len() + 1,
        ;
    }
}

pub proof fn lemma_totals_fit(s: Seq<Allocation>)
    requires
        s.len() <= MAX_WORKLOADS,
        forall|i: int| 0 <= i < s.len() ==> allocation_in_range(#[trigger] s[i]),
    ensures
        0 <= total_actual(s) <= u64::MAX,
        0 <= total_declared(s) <= u64::MAX,
{
    lemma_totals_bounded(s);
    assert(s.len() * MAX_MB <= MAX_WORKLOADS * MAX_MB) by (nonlinear_arith)
        requires
            s.len() <= MAX_WORKLOADS,
    ;
}

impl View for Registry {
    type V = Seq<Allocation>;

    closed spec fn view(&self) -> Seq<Allocation> {
        self.workloads@.map_values(|w: Workload| w.allocation)
    }
}

impl Registry {
    /// The machines' names, in registry order.
    pub closed spec fn ids(&self) -> Seq<Seq<char>> {
        self.workloads@.map_values(|w: Workload| w.id@)
    }

    /// The machines' control-channel addresses, in registry order.
    pub closed spec fn addresses(&self) -> Seq<Seq<char>> {
        self.workloads@.map_values(|w: Workload| w.channel_address@)
    }

    /// Well-formed: one name, address and allocation per entry, names
    /// unique, every allocation in range, at most `MAX_WORKLOADS` entries.
    pub open spec fn wf(&self) -> bool {
        &&& self.ids().len() == self@.len()
        &&& self.addresses().len() == self@.len()
        &&& self@.len() <= MAX_WORKLOADS
        &&& forall|i: int, j: int|
            0 <= i < j < self@.len() ==> #[trigger] self.ids()[i] != #[trigger] self.ids()[j]
        &&& forall|i: int| 0 <= i < self@.len() ==> allocation_in_range(#[trigger] self@[i])
    }

    /// An empty registry.
    pub fn new() -> (r: Registry)
        ensures
            r.wf(),
            r@.len() == 0,
    {
        let r = Registry { workloads: Vec::new() };
        proof {
            assert(r@.len() == 0);
            assert(r.ids().len() == 0);
            assert(r.addresses().len() == 0);
        }
        r
    }

    /// Number of machines.
    pub fn len(&self) -> (n: usize)
        ensures
            n == self@.len(),
    {
        self.workloads.len()
    }

    /// Whether a machine of this name is registered.
    pub fn contains(&self, id: &String) -> (b: bool)
        requires
            self.wf(),
        ensures
            b == self.ids().contains(id@),
    {
        let mut i: usize = 0;
        while i < self.workloads.len()
            invariant
                self.wf(),
                i <= self@.len(),
                forall|j: int| 0 <= j < i ==> self.ids()[j] != id@,
            decreases self@.len() - i,
        {
            let w = &self.workloads[i];
            if w.id.eq(id) {
                proof {
                    assert(self.ids()[i as int] == id@);
                }
                return true;
            }
            i = i + 1;
        }
        proof {
            if self.ids().contains(id@) {
                let k = choose|k: int| 0 <= k < self.ids().len() && self.ids()[k] == id@;
                assert(self.ids()[k] == id@);
            }
        }
        false
    }

    /// Registers a new machine with no usage observed yet.
    pub fn insert(
        &mut self,
        id: String,
        channel_address: String,
        declared_target_mb: u64,
        now_ms: u64,
    )
        requires
            old(self).wf(),
            !old(self).ids().contains(id@),
            old(self)@.len() < MAX_WORKLOADS,
            declared_target_mb <= MAX_MB,
        ensures
            final(self).wf(),
            final(self)@ == old(self)@.push(
                Allocation {
                    declared_target_mb,
                    observed_actual_mb: 0,
                    last_adjusted_at_ms: now_ms,
                },
            ),
            final(self).ids() == old(self).ids().push(id@),
            final(self).addresses() == old(self).addresses().push(channel_address@),
    {
        let ghost ids0 = self.ids();
        let allocation = Allocation {
            declared_target_mb,
            observed_actual_mb: 0,
            last_adjusted_at_ms: now_ms,
        };
        self.workloads.push(Workload { id, channel_address, allocation });
        proof {
            assert(self@ =~= old(self)@.push(allocation));
            assert(self.ids() =~= ids0.push(id@));
            assert(self.addresses() =~= old(self).addresses().push(channel_address@));
            assert forall|i: int, j: int|
                0 <= i < j < self@.len() implies #[trigger] self.ids()[i] != #[trigger] self.ids()[j] by {
                if j == self@.len() - 1 {
                    assert(ids0[i] == self.ids()[i]);
                    assert(ids0.contains(ids0[i]));
                }
            }
        }
    }

    /// The name of machine `i`.
    pub fn id(&self, i: usize) -> (r: &str)
        requires
            i < self@.len(),
            self.wf(),
        ensures
            r@ == self.ids()[i as int],
    {
        self.workloads[i].id.as_str()
    }

    /// The control-channel address of machine `i`.
    pub fn channel_address(&self, i: usize) -> (r: &str)
        requires
            i < self@.len(),
            self.wf(),
        ensures
            r@ == self.addresses()[i as int],
    {
        self.workloads[i].channel_address.as_str()
    }

    /// The allocation state of machine `i`.
    pub fn get_entry(&self, i: usize) -> (a: Allocation)
        requires
            i < self@.len(),
        ensures
            a == self@[i as int],
    {
        self.workloads[i].allocation
    }

    /// The sums of observed usage and of declared targets over all machines.
    pub fn snapshot_totals(&self) -> (r: (u64, u64))
        requires
            self.wf(),
        ensures
            r.0 == total_actual(self@),
            r.1 == total_declared(self@),
    {
        let mut sum_actual: u64 = 0;
        let mut sum_declared: u64 = 0;
        let mut i: usize = 0;
        while i < self.workloads.len()
            invariant
                self.wf(),
                i <= self@.len(),
                sum_actual == total_actual(self@.subrange(0, i as int)),
                sum_declared == total_declared(self@.subrange(0, i as int)),
            decreases self@.len() - i,
        {
            let a = self.workloads[i].allocation;
            proof {
                let next = self@.subrange(0, i + 1);
                assert(next.drop_last() =~= self@.subrange(0, i as int));
                assert(next.last() == a);
                assert(forall|k: int| 0 <= k < next.len() ==> next[k] == self@[k]);
                lemma_totals_fit(next);
            }
            sum_actual = sum_actual + a.observed_actual_mb;
            sum_declared = sum_declared + a.declared_target_mb;
            i = i + 1;
        }
        proof {
            assert(self@.subrange(0, self@.len() as int) =~= self@);
        }
        (sum_actual, sum_declared)
    }

    /// Records the usage just measured on machine `i`.
    pub fn record_observation(&mut self, i: usize, actual_mb: u64)
        requires
            old(self).wf(),
            i < old(self)@.len(),
            actual_mb <= MAX_MB,
        ensures
            final(self).wf(),
            final(self)@ == observed(old(self)@, i as int, actual_mb),
            final(self).ids() == old(self).ids(),
            final(self).addresses() == old(self).addresses(),
    {
        let mut a = self.workloads[i].allocation;
        proof {
            assert(a == self@[i as int]);
            assert(allocation_in_range(self@[i as int]));
        }
        a.observed_actual_mb = actual_mb;
        self.set_allocation(i, a);
    }

    /// Records that an adjustment was sent to machine `i` at `now_ms`.
    pub fn mark_adjusted(&mut self, i: usize, now_ms: u64)
        requires
            old(self).wf(),
            i < old(self)@.len(),
        ensures
            final(self).wf(),
            final(self)@ == old(self)@.update(
                i as int,
                Allocation { last_adjusted_at_ms: now_ms, ..old(self)@[i as int] },
            ),
            final(self).ids() == old(self).ids(),
            final(self).addresses() == old(self).addresses(),
    {
        let mut a = self.workloads[i].allocation;
        proof {
            assert(a == self@[i as int]);
            assert(allocation_in_range(self@[i as int]));
        }
        a.last_adjusted_at_ms = now_ms;
        self.set_allocation(i, a);
    }

    fn set_allocation(&mut self, i: usize, a: Allocation)
        requires
            old(self).wf(),
            i < old(self)@.len(),
            allocation_in_range(a),
        ensures
            final(self).wf(),
            final(self)@ == old(self)@.update(i as int, a),
            final(self).ids() == old(self).ids(),
            final(self).addresses() == old(self).addresses(),
    {
        let ghost ids0 = self.ids();
        let ghost addrs0 = self.addresses();
        let mut w = self.workloads.remove(i);
        w.allocation = a;
        self.workloads.insert(i, w);
        proof {
            assert(self@ =~= old(self)@.update(i as int, a));
            assert(self.ids() =~= ids0);
            assert(self.addresses() =~= addrs0);
        }
    }

    /// One cycle of machine `i` after its usage was measured: records the
    /// usage, then decides on the totals that include it. The time of the
    /// last adjustment is left for `mark_adjusted`, once a command was sent.
    pub fn observe_and_decide(&mut self, i: usize, actual_mb: u64, now_ms: u64) -> (d: Decision)
        requires
            old(self).wf(),
            i < old(self)@.len(),
            actual_mb <= MAX_MB,
        ensures
            final(self).wf(),
            final(self)@ == observed(old(self)@, i as int, actual_mb),
            final(self).ids() == old(self).ids(),
            final(self).addresses() == old(self).addresses(),
            d == cycle_decision(old(self)@, i as int, actual_mb, now_ms),
            d.new_target_mb <= MAX_MB,
    {
        let a = self.workloads[i].allocation;
        proof {
            assert(a == self@[i as int]);
            assert(allocation_in_range(self@[i as int]));
        }
        self.record_observation(i, actual_mb);
        let (total_actual_mb, total_target_mb) = self.snapshot_totals();
        let elapsed_ms: u64 = if now_ms >= a.last_adjusted_at_ms {
            now_ms - a.last_adjusted_at_ms
        } else {
            0
        };
        decide(actual_mb, a.declared_target_mb, total_actual_mb, total_target_mb, elapsed_ms)
    }
}

} // verus!
