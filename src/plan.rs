//! Partitioning the loads of one job across command buffers.
//!
//! Operations of one command buffer run concurrently. Two of them that write
//! the same resource may then corrupt it, even when their regions are
//! disjoint. A plan therefore either gives each load its own command buffer
//! on a queue that runs one operation at a time, or keeps them in a single
//! buffer on such a queue; loads into distinct resources may share a buffer
//! freely.

use crate::command::{
    run_ops, IOCommandQueue, MTLIOCommandQueueDescriptor, DEFAULT_MAX_COMMANDS_IN_FLIGHT,
};
use crate::device::{lemma_distinct_loads_commute, lemma_op_keeps_wf, Device, DeviceModel, LoadOp};
use crate::status::MTLIOStatus;
use vstd::prelude::*;

verus! {

/// How the loads of a job are laid out across command buffers.
#[derive(Copy, Clone, Debug, PartialEq, Eq, Hash, Structural)]
pub enum PartitionPolicy {
    /// One command buffer per load, at most one operation in flight.
    BatchPerLoad,
    /// All loads in one command buffer, at most one operation in flight.
    SerialSingleBatch,
    /// All loads in one command buffer, with no bound on operations in
    /// flight.
    Unrestricted,
}

/// A layout of loads: the queue bounds to use and, for each command buffer,
/// the positions of its loads.
pub struct LoadPlan {
    pub max_command_buffer_count: u64,
    pub max_commands_in_flight: u64,
    pub batches: Vec<Vec<usize>>,
}

pub struct PlanModel {
    pub max_command_buffer_count: u64,
    pub max_commands_in_flight: u64,
    pub batches: Seq<Seq<usize>>,
}

impl View for LoadPlan {
    type V = PlanModel;

    open spec fn view(&self) -> PlanModel {
        PlanModel {
            max_command_buffer_count: self.max_command_buffer_count,
            max_commands_in_flight: self.max_commands_in_flight,
            batches: self.batches@.map_values(|b: Vec<usize>| b@),
        }
    }
}

/// The positions `0, 1, ..., n - 1`.
pub open spec fn positions(n: nat) -> Seq<usize> {
    Seq::new(n, |i: int| i as usize)
}

/// The batches of a plan, one after another.
pub open spec fn flatten(batches: Seq<Seq<usize>>) -> Seq<usize>
    decreases batches.len(),
{
    if batches.len() == 0 {
        Seq::empty()
    } else {
        flatten(batches.drop_last()) + batches.last()
    }
}

/// The plan that `policy` gives for `n` loads.
pub open spec fn spec_plan(n: nat, policy: PartitionPolicy) -> PlanModel {
    match policy {
        PartitionPolicy::BatchPerLoad => PlanModel {
            max_command_buffer_count: if n == 0 {
                1
            } else {
                n as u64
            },
            max_commands_in_flight: 1,
            batches: Seq::new(n, |i: int| seq![i as usize]),
        },
        PartitionPolicy::SerialSingleBatch => PlanModel {
            max_command_buffer_count: 1,
            max_commands_in_flight: 1,
            batches: seq![positions(n)],
        },
        PartitionPolicy::Unrestricted => PlanModel {
            max_command_buffer_count: 1,
            max_commands_in_flight: DEFAULT_MAX_COMMANDS_IN_FLIGHT,
            batches: seq![positions(n)],
        },
    }
}

/// Two loads of `ops` write the same resource.
pub open spec fn has_repeated_destination(ops: Seq<LoadOp>) -> bool {
    exists|i: int, j: int|
        0 <= i < j < ops.len() && #[trigger] ops[i].spec_destination()
            == #[trigger] ops[j].spec_destination()
}

/// Two loads of one batch write the same resource while more than one
/// operation may be in flight.
pub open spec fn batch_is_hazardous(ops: Seq<LoadOp>, batch: Seq<usize>, in_flight: u64) -> bool {
    in_flight > 1 && exists|a: int, b: int|
        0 <= a < b < batch.len() && batch[a] < ops.len() && batch[b] < ops.len()
            && #[trigger] ops[batch[a] as int].spec_destination()
            == #[trigger] ops[batch[b] as int].spec_destination()
}

/// Some batch of the plan is hazardous.
pub open spec fn plan_is_hazardous(ops: Seq<LoadOp>, plan: PlanModel) -> bool {
    exists|k: int|
        0 <= k < plan.batches.len() && batch_is_hazardous(
            ops,
            #[trigger] plan.batches[k],
            plan.max_commands_in_flight,
        )
}

proof fn lemma_flatten_singletons(n: nat)
    ensures
        flatten(Seq::new(n, |i: int| seq![i as usize])) == positions(n),
    decreases n,
{
    let bs = Seq::new(n, |i: int| seq![i as usize]);
    if n > 0 {
        lemma_flatten_singletons((n - 1) as nat);
        assert(bs.drop_last() =~= Seq::new((n - 1) as nat, |i: int| seq![i as usize]));
        assert(positions(n) =~= positions((n - 1) as nat) + seq![(n - 1) as usize]);
    } else {
        assert(positions(n) =~= Seq::<usize>::empty());
    }
}

proof fn lemma_flatten_one(b: Seq<usize>)
    ensures
        flatten(seq![b]) == b,
{
    assert(seq![b].drop_last() =~= Seq::<Seq<usize>>::empty());
    assert(flatten(Seq::<Seq<usize>>::empty()) == Seq::<usize>::empty());
    assert(seq![b].last() == b);
    assert(flatten(seq![b]) =~= b);
}

/// Every plan takes each load exactly once, in order.
pub proof fn lemma_plan_covers(n: nat, policy: PartitionPolicy)
    requires
        n <= usize::MAX,
    ensures
        flatten(spec_plan(n, policy).batches) == positions(n),
        spec_plan(n, policy).max_command_buffer_count > 0,
        spec_plan(n, policy).max_commands_in_flight > 0,
        forall|k: int, t: int|
            0 <= k < spec_plan(n, policy).batches.len() && 0 <= t < spec_plan(
                n,
                policy,
            ).batches[k].len() ==> #[trigger] spec_plan(n, policy).batches[k][t] < n,
{
    match policy {
        PartitionPolicy::BatchPerLoad => lemma_flatten_singletons(n),
        _ => lemma_flatten_one(positions(n)),
    }
}

/// The two serialising policies are never hazardous, and the unrestricted
/// one is hazardous exactly when two loads write the same resource.
pub proof fn lemma_plan_hazards(ops: Seq<LoadOp>, policy: PartitionPolicy)
    requires
        ops.len() <= usize::MAX,
    ensures
        plan_is_hazardous(ops, spec_plan(ops.len(), policy)) <==> (policy
            == PartitionPolicy::Unrestricted && has_repeated_destination(ops)),
{
    let plan = spec_plan(ops.len(), policy);
    if policy == PartitionPolicy::Unrestricted {
        let b = positions(ops.len());
        assert(plan.batches[0] == b);
        if has_repeated_destination(ops) {
            let (i, j) = choose|i: int, j: int|
                0 <= i < j < ops.len() && #[trigger] ops[i].spec_destination()
                    == #[trigger] ops[j].spec_destination();
            assert(b[i] == i && b[j] == j);
            assert(batch_is_hazardous(ops, b, plan.max_commands_in_flight));
        }
        if plan_is_hazardous(ops, plan) {
            let k = choose|k: int|
                0 <= k < plan.batches.len() && batch_is_hazardous(
                    ops,
                    #[trigger] plan.batches[k],
                    plan.max_commands_in_flight,
                );
            assert(k == 0);
            let (a, c) = choose|a: int, c: int|
                0 <= a < c < b.len() && b[a] < ops.len() && b[c] < ops.len()
                    && #[trigger] ops[b[a] as int].spec_destination()
                    == #[trigger] ops[b[c] as int].spec_destination();
            assert(b[a] == a && b[c] == c);
            assert(has_repeated_destination(ops));
        }
    }
}

/// The policy that a job needs: loads that share a resource get a buffer
/// each; loads into distinct resources may all run at once.
pub open spec fn spec_policy_for(ops: Seq<LoadOp>) -> PartitionPolicy {
    if has_repeated_destination(ops) {
        PartitionPolicy::BatchPerLoad
    } else {
        PartitionPolicy::Unrestricted
    }
}

/// The chosen policy never yields a hazardous plan.
pub proof fn lemma_policy_for_is_safe(ops: Seq<LoadOp>)
    requires
        ops.len() <= usize::MAX,
    ensures
        !plan_is_hazardous(ops, spec_plan(ops.len(), spec_policy_for(ops))),
{
    lemma_plan_hazards(ops, spec_policy_for(ops));
}

/// Whether two loads of `ops` write the same resource.
pub fn repeated_destination(ops: &[LoadOp]) -> (r: bool)
    ensures
        r == has_repeated_destination(ops@),
{
    let n = ops.len();
    let mut j: usize = 0;
    while j < n
        invariant
            n == ops@.len(),
            j <= n,
            forall|a: int, b: int|
                0 <= a < b < j ==> #[trigger] ops@[a].spec_destination()
                    != #[trigger] ops@[b].spec_destination(),
        decreases n - j,
    {
        let dj = ops[j].destination();
        let mut i: usize = 0;
        while i < j
            invariant
                n == ops@.len(),
                i <= j < n,
                dj == ops@[j as int].spec_destination(),
                forall|a: int, b: int|
                    0 <= a < b < j ==> #[trigger] ops@[a].spec_destination()
                        != #[trigger] ops@[b].spec_destination(),
                forall|a: int| 0 <= a < i ==> #[trigger] ops@[a].spec_destination() != dj,
            decreases j - i,
        {
            let di = ops[i].destination();
            if di.0 == dj.0 && di.1 == dj.1 {
                assert(ops@[i as int].spec_destination() == ops@[j as int].spec_destination());
                return true;
            }
            i = i + 1;
        }
        j = j + 1;
    }
    false
}

/// The policy that a job of these loads needs.
pub fn policy_for(ops: &[LoadOp]) -> (r: PartitionPolicy)
    ensures
        r == spec_policy_for(ops@),
{
    if repeated_destination(ops) {
        PartitionPolicy::BatchPerLoad
    } else {
        PartitionPolicy::Unrestricted
    }
}

/// The positions `0, 1, ..., n - 1`.
fn all_positions(n: usize) -> (r: Vec<usize>)
    ensures
        r@ == positions(n as nat),
{
    let mut v: Vec<usize> = Vec::new();
    let mut i: usize = 0;
    while i < n
        invariant
            i <= n,
            v@ == positions(i as nat),
        decreases n - i,
    {
        v.push(i);
        i = i + 1;
        assert(v@ =~= positions(i as nat));
    }
    v
}

/// Lays out `n` loads by `policy`.
pub fn plan_loads(n: usize, policy: PartitionPolicy) -> (r: LoadPlan)
    ensures
        r@ == spec_plan(n as nat, policy),
{
    match policy {
        PartitionPolicy::BatchPerLoad => {
            let mut batches: Vec<Vec<usize>> = Vec::new();
            let mut i: usize = 0;
            while i < n
                invariant
                    i <= n,
                    batches@.len() == i,
                    batches@.map_values(|b: Vec<usize>| b@) == Seq::new(
                        i as nat,
                        |k: int| seq![k as usize],
                    ),
                decreases n - i,
            {
                let mut b: Vec<usize> = Vec::new();
                b.push(i);
                let ghost prev = batches@;
                assert(b@ =~= seq![i]);
                batches.push(b);
                i = i + 1;
                proof {
                    let want = Seq::new(i as nat, |k: int| seq![k as usize]);
                    let got = batches@.map_values(|b: Vec<usize>| b@);
                    assert forall|k: int| 0 <= k < i implies got[k] == want[k] by {
                        if k < i - 1 {
                            assert(batches@[k] == prev[k]);
                            assert(prev.map_values(|b: Vec<usize>| b@)[k] == seq![k as usize]);
                        }
                    }
                    assert(got =~= want);
                }
            }
            let count: u64 = if n == 0 {
                1
            } else {
                n as u64
            };
            LoadPlan { max_command_buffer_count: count, max_commands_in_flight: 1, batches }
        },
        PartitionPolicy::SerialSingleBatch => {
            let mut batches: Vec<Vec<usize>> = Vec::new();
            batches.push(all_positions(n));
            let r = LoadPlan { max_command_buffer_count: 1, max_commands_in_flight: 1, batches };
            assert(r@.batches =~= seq![positions(n as nat)]);
            r
        },
        PartitionPolicy::Unrestricted => {
            let mut batches: Vec<Vec<usize>> = Vec::new();
            batches.push(all_positions(n));
            let r = LoadPlan {
                max_command_buffer_count: 1,
                max_commands_in_flight: DEFAULT_MAX_COMMANDS_IN_FLIGHT,
                batches,
            };
            assert(r@.batches =~= seq![positions(n as nat)]);
            r
        },
    }
}

impl LoadPlan {
    /// The queue bounds the plan asks for.
    pub fn descriptor(&self) -> (r: MTLIOCommandQueueDescriptor)
        ensures
            r.spec_max_command_buffer_count() == self.max_command_buffer_count,
            r.spec_max_commands_in_flight() == self.max_commands_in_flight,
    {
        let mut d = MTLIOCommandQueueDescriptor::new();
        d.set_max_command_buffer_count(self.max_command_buffer_count);
        d.set_max_commands_in_flight(self.max_commands_in_flight);
        d
    }
}


/// The loads at the given positions, in that order.
pub open spec fn select(ops: Seq<LoadOp>, idx: Seq<usize>) -> Seq<LoadOp> {
    idx.map_values(|i: usize| ops[i as int])
}

/// Running two lists of operations one after the other is running their
/// concatenation.
pub proof fn lemma_run_ops_append(dev: DeviceModel, a: Seq<LoadOp>, b: Seq<LoadOp>)
    ensures
        run_ops(dev, a + b) == (run_ops(run_ops(dev, a).0, b).0, run_ops(dev, a).1 && run_ops(
            run_ops(dev, a).0,
            b,
        ).1),
    decreases b.len(),
{
    if b.len() == 0 {
        assert(a + b =~= a);
    } else {
        lemma_run_ops_append(dev, a, b.drop_last());
        assert((a + b).drop_last() =~= a + b.drop_last());
        assert((a + b).last() == b.last());
    }
}

/// Running loads leaves every texture well formed.
proof fn lemma_run_ops_wf(dev: DeviceModel, ops: Seq<LoadOp>)
    requires
        dev.wf(),
    ensures
        run_ops(dev, ops).0.wf(),
    decreases ops.len(),
{
    if ops.len() > 0 {
        lemma_run_ops_wf(dev, ops.drop_last());
        lemma_op_keeps_wf(run_ops(dev, ops.drop_last()).0, ops.last());
    }
}

/// Swapping two adjacent loads into different resources, anywhere in a list
/// of loads, changes neither the device they leave nor whether all succeed.
pub proof fn lemma_swap_distinct_loads(
    dev: DeviceModel,
    before: Seq<LoadOp>,
    x: LoadOp,
    y: LoadOp,
    after: Seq<LoadOp>,
)
    requires
        dev.wf(),
        x.spec_destination() != y.spec_destination(),
    ensures
        run_ops(dev, before + seq![x, y] + after) == run_ops(dev, before + seq![y, x] + after),
{
    let r = run_ops(dev, before);
    lemma_run_ops_wf(dev, before);
    lemma_distinct_loads_commute(r.0, x, y);
    lemma_run_ops_append(dev, before, seq![x, y]);
    lemma_run_ops_append(dev, before, seq![y, x]);
    lemma_run_ops_append(dev, before + seq![x, y], after);
    lemma_run_ops_append(dev, before + seq![y, x], after);
}

/// Runs every load of `ops`, laid out by `policy`: one queue with the plan's
/// bounds, one command buffer per batch, each committed and awaited in turn.
/// The device ends as running the loads in order leaves it, and the job is
/// `complete` exactly when every load succeeded, else `error`.
pub fn load_job(device: &mut Device, ops: &[LoadOp], policy: PartitionPolicy) -> (r: MTLIOStatus)
    requires
        old(device)@.wf(),
    ensures
        final(device)@.wf(),
        final(device)@ == run_ops(old(device)@, ops@).0,
        r == if run_ops(old(device)@, ops@).1 {
            MTLIOStatus::complete
        } else {
            MTLIOStatus::error
        },
{
    let n = ops.len();
    let plan = plan_loads(n, policy);
    proof {
        lemma_plan_covers(n as nat, policy);
    }
    let queue = match IOCommandQueue::new(&plan.descriptor()) {
        Ok(q) => q,
        Err(_) => {
            assert(false);
            return MTLIOStatus::error;
        },
    };
    let ghost dev0 = device@;
    let ghost bs = plan@.batches;
    let mut all_ok = true;
    let mut k: usize = 0;
    while k < plan.batches.len()
        invariant
            n == ops@.len(),
            plan@ == spec_plan(n as nat, policy),
            bs == plan@.batches,
            flatten(bs) == positions(n as nat),
            forall|kk: int, t: int|
                0 <= kk < bs.len() && 0 <= t < bs[kk].len() ==> #[trigger] bs[kk][t] < n,
            k <= bs.len(),
            device@.wf(),
            (device@, all_ok) == run_ops(dev0, select(ops@, flatten(bs.take(k as int)))),
        decreases bs.len() - k,
    {
        let batch = &plan.batches[k];
        assert(batch@ == bs[k as int]);
        let mut cb = queue.new_command_buffer_with_unretained_references();
        let mut t: usize = 0;
        while t < batch.len()
            invariant
                n == ops@.len(),
                batch@ == bs[k as int],
                k < bs.len(),
                forall|kk: int, tt: int|
                    0 <= kk < bs.len() && 0 <= tt < bs[kk].len() ==> #[trigger] bs[kk][tt] < n,
                t <= batch@.len(),
                !cb@.committed,
                cb@.status == MTLIOStatus::pending,
                cb@.ops == select(ops@, batch@.take(t as int)),
            decreases batch@.len() - t,
        {
            let idx = batch[t];
            assert(bs[k as int][t as int] < n);
            cb.push_operation(ops[idx]);
            t = t + 1;
            assert(cb@.ops =~= select(ops@, batch@.take(t as int)));
        }
        assert(batch@.take(t as int) =~= batch@);
        cb.commit();
        let ghost before = device@;
        cb.wait_until_completed(device);
        if cb.status() != MTLIOStatus::complete {
            all_ok = false;
        }
        proof {
            let done = flatten(bs.take(k as int));
            assert(bs.take(k + 1).drop_last() =~= bs.take(k as int));
            assert(flatten(bs.take(k + 1)) == done + bs[k as int]);
            assert(select(ops@, done + bs[k as int]) =~= select(ops@, done) + select(
                ops@,
                bs[k as int],
            ));
            lemma_run_ops_append(dev0, select(ops@, done), select(ops@, bs[k as int]));
        }
        k = k + 1;
    }
    proof {
        assert(bs.take(k as int) =~= bs);
        assert(select(ops@, positions(n as nat)) =~= ops@);
    }
    if all_ok {
        MTLIOStatus::complete
    } else {
        MTLIOStatus::error
    }
}


/// The status of a job from the statuses of its command buffers: `pending`
/// while any is; else `complete` when all are; else `error` when any ended
/// in error; else `cancelled`.
pub open spec fn spec_job_status(statuses: Seq<MTLIOStatus>) -> MTLIOStatus {
    if exists|i: int| 0 <= i < statuses.len() && statuses[i] == MTLIOStatus::pending {
        MTLIOStatus::pending
    } else if forall|i: int| 0 <= i < statuses.len() ==> statuses[i] == MTLIOStatus::complete {
        MTLIOStatus::complete
    } else if exists|i: int| 0 <= i < statuses.len() && statuses[i] == MTLIOStatus::error {
        MTLIOStatus::error
    } else {
        MTLIOStatus::cancelled
    }
}

pub fn job_status(statuses: &[MTLIOStatus]) -> (r: MTLIOStatus)
    ensures
        r == spec_job_status(statuses@),
{
    let mut pending = false;
    let mut failed = false;
    let mut cancelled = false;
    let mut i: usize = 0;
    while i < statuses.len()
        invariant
            i <= statuses@.len(),
            pending == exists|j: int| 0 <= j < i && statuses@[j] == MTLIOStatus::pending,
            failed == exists|j: int| 0 <= j < i && statuses@[j] == MTLIOStatus::error,
            cancelled == exists|j: int| 0 <= j < i && statuses@[j] == MTLIOStatus::cancelled,
        decreases statuses@.len() - i,
    {
        match statuses[i] {
            MTLIOStatus::pending => {
                pending = true;
            },
            MTLIOStatus::error => {
                failed = true;
            },
            MTLIOStatus::cancelled => {
                cancelled = true;
            },
            MTLIOStatus::complete => {},
        }
        i = i + 1;
    }
    if pending {
        MTLIOStatus::pending
    } else if !failed && !cancelled {
        assert forall|j: int| 0 <= j < statuses@.len() implies statuses@[j]
            == MTLIOStatus::complete by {
            if statuses@[j] != MTLIOStatus::complete {
                assert(statuses@[j] == MTLIOStatus::pending || statuses@[j] == MTLIOStatus::error
                    || statuses@[j] == MTLIOStatus::cancelled);
            }
        }
        MTLIOStatus::complete
    } else if failed {
        MTLIOStatus::error
    } else {
        MTLIOStatus::cancelled
    }
}

/// What to do with a job once its command buffers have settled.
#[derive(Copy, Clone, Debug, PartialEq, Eq, Hash, Structural)]
pub enum JobDecision {
    /// Every load completed: the destinations hold the sources.
    Loaded,
    /// Wait for the buffers still pending.
    Wait,
    /// The destinations are undefined: load the whole job again.
    Retry,
    /// The destinations are undefined and no attempt is left.
    Abandon,
}

/// Decides on a job after attempt number `attempt` (counted from one) of at
/// most `max_attempts`. A job that did not complete is never trusted in
/// part: it is loaded again as a whole, or abandoned.
pub fn job_decision(statuses: &[MTLIOStatus], attempt: u32, max_attempts: u32) -> (r: JobDecision)
    ensures
        spec_job_status(statuses@) == MTLIOStatus::complete ==> r == JobDecision::Loaded,
        spec_job_status(statuses@) == MTLIOStatus::pending ==> r == JobDecision::Wait,
        spec_job_status(statuses@).spec_is_terminal() && spec_job_status(statuses@)
            != MTLIOStatus::complete ==> r == if attempt < max_attempts {
            JobDecision::Retry
        } else {
            JobDecision::Abandon
        },
{
    match job_status(statuses) {
        MTLIOStatus::complete => JobDecision::Loaded,
        MTLIOStatus::pending => JobDecision::Wait,
        _ => {
            if attempt < max_attempts {
                JobDecision::Retry
            } else {
                JobDecision::Abandon
            }
        },
    }
}

} // verus!
