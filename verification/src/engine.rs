//! Reconciliation pass execution, modeled as a step machine. The caller
//! (an I/O layer) repeatedly asks for the next VM to act on, performs the
//! network call, and records the result; the machine enforces strict
//! priority-group sequencing and partial-failure tolerance.
use vstd::prelude::*;

use crate::plan::PlannedAction;
use crate::types::{ActionOutcome, ErrorKind, QueryError, VMSummary};

verus! {

/// Sub-state of one planned VM during a pass. `Succeeded` and `Failed` are
/// the terminal sub-states; no VM re-enters `Pending` within a pass.
#[derive(Clone, Copy, PartialEq, Eq, Structural, Debug)]
pub enum VmStatus {
    Pending,
    ActionIssued,
    Succeeded,
    Failed,
}

/// What a group-level failure does to advancement: `FailFast` halts the pass
/// at the end of the failing group until the caller explicitly overrides;
/// `BestEffort` advances regardless.
#[derive(Clone, Copy, PartialEq, Eq, Structural, Debug)]
pub enum FailurePolicy {
    FailFast,
    BestEffort,
}

pub open spec fn is_terminal(s: VmStatus) -> bool {
    s == VmStatus::Succeeded || s == VmStatus::Failed
}

/// Row `g` updated at `i` to `st`; every other row untouched.
pub open spec fn rows_updated(
    old_s: Seq<Vec<VmStatus>>,
    new_s: Seq<Vec<VmStatus>>,
    g: int,
    i: int,
    st: VmStatus,
) -> bool {
    &&& new_s.len() == old_s.len()
    &&& forall|k: int| 0 <= k < old_s.len() && k != g ==> new_s[k] == old_s[k]
    &&& new_s[g]@ =~= old_s[g]@.update(i, st)
}

/// One reconciliation pass over a plan split into priority groups.
/// Group `g + 1` is never dispatched from before every VM of group `g`
/// reached a terminal sub-state.
pub struct EnginePass {
    pub groups: Vec<Vec<PlannedAction>>,
    pub status: Vec<Vec<VmStatus>>,
    pub current: usize,
    pub policy: FailurePolicy,
    pub halted: bool,
    pub outcomes: Vec<ActionOutcome>,
}

impl EnginePass {
    /// Shape and sequencing invariant of a pass:
    /// - `status` mirrors the shape of `groups`;
    /// - `current` walks the groups left to right;
    /// - every VM in a group before `current` is terminal;
    /// - every VM in a group after `current` is still `Pending`;
    /// - a halted pass stands on a fully terminal current group.
    pub open spec fn wf(&self) -> bool {
        &&& self.status@.len() == self.groups@.len()
        &&& forall|g: int|
            0 <= g < self.groups@.len() ==> (#[trigger] self.status@[g])@.len()
                == self.groups@[g]@.len()
        &&& self.current <= self.groups@.len()
        &&& forall|g: int, i: int|
            0 <= g < self.current && 0 <= i < self.status@[g]@.len() ==> is_terminal(
                #[trigger] self.status@[g]@[i],
            )
        &&& forall|g: int, i: int|
            self.current < g < self.status@.len() && 0 <= i < self.status@[g]@.len()
                ==> #[trigger] self.status@[g]@[i] == VmStatus::Pending
        &&& (self.halted ==> self.current < self.groups@.len() && self.group_terminal(
            self.current as int,
        ))
    }

    /// Every VM of group `g` has reached a terminal sub-state.
    pub open spec fn group_terminal(&self, g: int) -> bool {
        forall|i: int|
            0 <= i < self.status@[g]@.len() ==> is_terminal(#[trigger] self.status@[g]@[i])
    }

    /// Some VM of group `g` is recorded as failed.
    pub open spec fn group_has_failure(&self, g: int) -> bool {
        exists|i: int| 0 <= i < self.status@[g]@.len() && self.status@[g]@[i] == VmStatus::Failed
    }

    /// The pass has worked through every group.
    pub open spec fn spec_complete(&self) -> bool {
        self.current == self.groups@.len()
    }

    /// A dispatch is available: the pass is running and the current group
    /// still holds a `Pending` VM.
    pub open spec fn has_dispatchable(&self) -> bool {
        &&& !self.halted
        &&& self.current < self.groups@.len()
        &&& exists|i: int|
            0 <= i < self.status@[self.current as int]@.len()
                && self.status@[self.current as int]@[i] == VmStatus::Pending
    }

    /// Begin a pass over `groups` under `policy`: everything `Pending`,
    /// standing on the first group, nothing recorded yet.
    pub fn new(groups: Vec<Vec<PlannedAction>>, policy: FailurePolicy) -> (r: EnginePass)
        ensures
            r.wf(),
            r.groups == groups,
            r.policy == policy,
            r.current == 0,
            !r.halted,
            r.outcomes@.len() == 0,
            forall|g: int, i: int|
                0 <= g < r.status@.len() && 0 <= i < r.status@[g]@.len()
                    ==> #[trigger] r.status@[g]@[i] == VmStatus::Pending,
    {
        let mut status: Vec<Vec<VmStatus>> = Vec::new();
        let mut g: usize = 0;
        while g < groups.len()
            invariant
                g <= groups.len(),
                status@.len() == g,
                forall|k: int|
                    0 <= k < g ==> (#[trigger] status@[k])@.len() == groups@[k]@.len(),
                forall|k: int, i: int|
                    0 <= k < g && 0 <= i < status@[k]@.len() ==> #[trigger] status@[k]@[i]
                        == VmStatus::Pending,
            decreases groups.len() - g,
        {
            let n = groups[g].len();
            let mut row: Vec<VmStatus> = Vec::new();
            let mut i: usize = 0;
            while i < n
                invariant
                    i <= n,
                    row@.len() == i,
                    forall|j: int| 0 <= j < i ==> #[trigger] row@[j] == VmStatus::Pending,
                decreases n - i,
            {
                row.push(VmStatus::Pending);
                i += 1;
            }
            status.push(row);
            g += 1;
        }
        EnginePass { groups, status, current: 0, policy, halted: false, outcomes: Vec::new() }
    }

    /// Begin a pass from the result of an inventory listing: a failed listing
    /// aborts the pass before any action is issued, surfacing the query
    /// error; a successful one yields a fresh pass over the given plan.
    pub fn begin(
        listing: Result<Vec<VMSummary>, QueryError>,
        groups: Vec<Vec<PlannedAction>>,
        policy: FailurePolicy,
    ) -> (r: Result<EnginePass, QueryError>)
        ensures
            match r {
                Ok(p) => {
                    &&& listing is Ok
                    &&& p.wf()
                    &&& p.groups == groups
                    &&& p.policy == policy
                    &&& p.current == 0
                    &&& !p.halted
                    &&& p.outcomes@.len() == 0
                },
                Err(e) => listing == Err::<Vec<VMSummary>, QueryError>(e),
            },
    {
        match listing {
            Ok(_) => Ok(EnginePass::new(groups, policy)),
            Err(e) => Err(e),
        }
    }

    /// Hand out the next VM to act on, marking it `ActionIssued`. Returns
    /// `Some((group, index))` exactly when the pass is running and the
    /// current group still holds a `Pending` VM — a `Failed` peer in the
    /// group never gets in the way. Everything else is left unchanged.
    pub fn next_dispatch(&mut self) -> (r: Option<(usize, usize)>)
        requires
            old(self).wf(),
        ensures
            final(self).wf(),
            final(self).groups == old(self).groups,
            final(self).current == old(self).current,
            final(self).policy == old(self).policy,
            final(self).halted == old(self).halted,
            final(self).outcomes == old(self).outcomes,
            r is Some <==> old(self).has_dispatchable(),
            match r {
                Some((g, i)) => {
                    &&& g == old(self).current
                    &&& 0 <= i < old(self).status@[g as int]@.len()
                    &&& old(self).status@[g as int]@[i as int] == VmStatus::Pending
                    &&& rows_updated(
                        old(self).status@,
                        final(self).status@,
                        g as int,
                        i as int,
                        VmStatus::ActionIssued,
                    )
                },
                None => final(self).status == old(self).status,
            },
    {
        if self.halted || self.current >= self.groups.len() {
            return None;
        }
        let g = self.current;
        let n = self.status[g].len();
        let mut i: usize = 0;
        while i < n
            invariant
                old(self).wf(),
                *self == *old(self),
                g == self.current,
                g < self.status@.len(),
                n == self.status@[g as int]@.len(),
                i <= n,
                forall|j: int|
                    0 <= j < i ==> #[trigger] self.status@[g as int]@[j] != VmStatus::Pending,
            decreases n - i,
        {
            let st = self.status[g][i];
            if st == VmStatus::Pending {
                let mut row = self.status[g].clone();
                row.set(i, VmStatus::ActionIssued);
                self.status.set(g, row);
                proof {
                    assert(self.status@[g as int]@ =~= old(self).status@[g as int]@.update(
                        i as int,
                        VmStatus::ActionIssued,
                    ));
                }
                return Some((g, i));
            }
            i += 1;
        }
        proof {
            assert(forall|j: int|
                0 <= j < self.status@[g as int]@.len() ==> #[trigger] self.status@[g as int]@[j]
                    != VmStatus::Pending);
        }
        None
    }

    /// Record the outcome of the action issued for VM `i` of the current
    /// group: its sub-state turns terminal and one `ActionOutcome` is
    /// appended; no other VM's sub-state moves.
    pub fn record_outcome(&mut self, i: usize, success: bool, error: Option<ErrorKind>)
        requires
            old(self).wf(),
            !old(self).halted,
            old(self).current < old(self).groups@.len(),
            i < old(self).status@[old(self).current as int]@.len(),
            old(self).status@[old(self).current as int]@[i as int] == VmStatus::ActionIssued,
            success <==> error is None,
        ensures
            final(self).wf(),
            final(self).groups == old(self).groups,
            final(self).current == old(self).current,
            final(self).policy == old(self).policy,
            final(self).halted == old(self).halted,
            rows_updated(
                old(self).status@,
                final(self).status@,
                old(self).current as int,
                i as int,
                if success {
                    VmStatus::Succeeded
                } else {
                    VmStatus::Failed
                },
            ),
            final(self).outcomes@ =~= old(self).outcomes@.push(
                ActionOutcome {
                    vm_id: old(self).groups@[old(self).current as int]@[i as int].vm_id,
                    requested_action: old(self).groups@[old(self).current as int]@[i as int].action,
                    success,
                    error,
                },
            ),
    {
        let g = self.current;
        let entry = &self.groups[g][i];
        let out = ActionOutcome {
            vm_id: entry.vm_id.clone(),
            requested_action: entry.action,
            success,
            error,
        };
        let new_status = if success {
            VmStatus::Succeeded
        } else {
            VmStatus::Failed
        };
        let mut row = self.status[g].clone();
        row.set(i, new_status);
        self.status.set(g, row);
        self.outcomes.push(out);
        proof {
            assert(self.status@[g as int]@ =~= old(self).status@[g as int]@.update(
                i as int,
                new_status,
            ));
        }
    }

    /// Try to move past the current group. Advancement happens exactly when
    /// the pass is running and every VM of the current group is terminal,
    /// and then either the group is failure-free or the policy is
    /// `BestEffort`; a fully terminal group with a failure halts a
    /// `FailFast` pass instead, until the caller overrides.
    pub fn try_advance(&mut self) -> (progressed: bool)
        requires
            old(self).wf(),
        ensures
            final(self).wf(),
            final(self).groups == old(self).groups,
            final(self).status == old(self).status,
            final(self).policy == old(self).policy,
            final(self).outcomes == old(self).outcomes,
            progressed <==> (!old(self).halted && old(self).current < old(self).groups@.len()
                && old(self).group_terminal(old(self).current as int) && (!old(
                self,
            ).group_has_failure(old(self).current as int) || old(self).policy
                == FailurePolicy::BestEffort)),
            progressed ==> final(self).current == old(self).current + 1 && !final(self).halted,
            !progressed ==> final(self).current == old(self).current && (final(self).halted <==> (
            old(self).halted || (old(self).current < old(self).groups@.len() && old(
                self,
            ).group_terminal(old(self).current as int) && old(self).group_has_failure(
                old(self).current as int,
            ) && old(self).policy == FailurePolicy::FailFast))),
    {
        if self.halted || self.current >= self.groups.len() {
            return false;
        }
        let g = self.current;
        let n = self.status[g].len();
        let mut i: usize = 0;
        let mut failed = false;
        while i < n
            invariant
                old(self).wf(),
                *self == *old(self),
                g == self.current,
                g < self.status@.len(),
                n == self.status@[g as int]@.len(),
                i <= n,
                forall|j: int| 0 <= j < i ==> is_terminal(#[trigger] self.status@[g as int]@[j]),
                failed <==> exists|j: int|
                    0 <= j < i && #[trigger] self.status@[g as int]@[j] == VmStatus::Failed,
            decreases n - i,
        {
            let st = self.status[g][i];
            if st == VmStatus::Pending || st == VmStatus::ActionIssued {
                return false;
            }
            if st == VmStatus::Failed {
                failed = true;
            }
            i += 1;
        }
        if failed && matches!(self.policy, FailurePolicy::FailFast) {
            self.halted = true;
            return false;
        }
        self.current = g + 1;
        true
    }

    /// Override a fail-fast halt: acknowledge the failures of the current
    /// group and advance past it.
    pub fn override_halt(&mut self)
        requires
            old(self).wf(),
            old(self).halted,
        ensures
            final(self).wf(),
            final(self).groups == old(self).groups,
            final(self).status == old(self).status,
            final(self).policy == old(self).policy,
            final(self).outcomes == old(self).outcomes,
            !final(self).halted,
            final(self).current == old(self).current + 1,
    {
        self.halted = false;
        let n = self.groups.len();
        proof {
            assert(self.current < n);
        }
        self.current = self.current + 1;
    }

    /// The pass is complete: every group has been worked through.
    pub fn is_complete(&self) -> (r: bool)
        ensures
            r == self.spec_complete(),
    {
        self.current == self.groups.len()
    }

    /// The pass stands halted on a failed group under `FailFast`.
    pub fn is_halted(&self) -> (r: bool)
        ensures
            r == self.halted,
    {
        self.halted
    }

    /// The outcomes recorded so far, in recording order.
    pub fn outcomes_so_far(&self) -> (r: &Vec<ActionOutcome>)
        ensures
            r == &self.outcomes,
    {
        &self.outcomes
    }
}

/// How many of the outcomes are successes.
pub open spec fn spec_count_succeeded(outs: Seq<crate::types::OutcomeData>) -> int
    decreases outs.len(),
{
    if outs.len() == 0 {
        0
    } else {
        spec_count_succeeded(outs.drop_first()) + if outs[0].success {
            1int
        } else {
            0int
        }
    }
}

proof fn lemma_count_succeeded_snoc(outs: Seq<crate::types::OutcomeData>, x: crate::types::OutcomeData)
    ensures
        spec_count_succeeded(outs.push(x)) == spec_count_succeeded(outs) + if x.success {
            1int
        } else {
            0int
        },
        0 <= spec_count_succeeded(outs) <= outs.len(),
    decreases outs.len(),
{
    let all = outs.push(x);
    if outs.len() == 0 {
        assert(all[0] == x);
        assert(all.drop_first() =~= Seq::<crate::types::OutcomeData>::empty());
        assert(spec_count_succeeded(all.drop_first()) == 0);
    } else {
        assert(all[0] == outs[0]);
        assert(all.drop_first() =~= outs.drop_first().push(x));
        lemma_count_succeeded_snoc(outs.drop_first(), x);
    }
}

/// Count a pass's report: how many outcomes succeeded and how many failed.
/// The two always add up to the whole report, so the process-level verdict
/// — nonzero exit exactly when something failed — follows from the counts.
pub fn summarize(outcomes: &Vec<ActionOutcome>) -> (r: (usize, usize))
    ensures
        r.0 == spec_count_succeeded(outcomes.deep_view()),
        r.0 + r.1 == outcomes@.len(),
{
    let ghost model = outcomes.deep_view();
    let mut succeeded: usize = 0;
    let mut i: usize = 0;
    proof {
        assert(model.take(0) =~= Seq::<crate::types::OutcomeData>::empty());
    }
    while i < outcomes.len()
        invariant
            model == outcomes.deep_view(),
            i <= outcomes.len(),
            succeeded == spec_count_succeeded(model.take(i as int)),
            succeeded <= i,
        decreases outcomes.len() - i,
    {
        proof {
            assert(model.take(i as int).push(model[i as int]) =~= model.take(i as int + 1));
            lemma_count_succeeded_snoc(model.take(i as int), model[i as int]);
            assert(model[i as int] == outcomes@[i as int]@);
        }
        if outcomes[i].success {
            succeeded += 1;
        }
        i += 1;
    }
    proof {
        assert(model.take(outcomes@.len() as int) =~= model);
    }
    (succeeded, outcomes.len() - succeeded)
}

/// Strict group barrier: in any well-formed pass, a VM of group `g2` that
/// has left `Pending` — i.e. was ever dispatched — implies every VM of every
/// earlier group already reached a terminal sub-state.
pub proof fn lemma_group_barrier(p: &EnginePass, g1: int, g2: int, j: int)
    requires
        p.wf(),
        0 <= g1 < g2 < p.status@.len(),
        0 <= j < p.status@[g2]@.len(),
        p.status@[g2]@[j] != VmStatus::Pending,
    ensures
        p.group_terminal(g1),
{
    assert(g2 <= p.current);
}

/// Partial-failure tolerance inside a group: a recorded failure for one VM
/// of the current group never prevents a still-pending VM of the same group
/// from being dispatched.
pub proof fn lemma_failed_peer_does_not_block(p: &EnginePass, i: int, j: int)
    requires
        p.wf(),
        !p.halted,
        p.current < p.groups@.len(),
        0 <= i < p.status@[p.current as int]@.len(),
        0 <= j < p.status@[p.current as int]@.len(),
        p.status@[p.current as int]@[i] == VmStatus::Failed,
        p.status@[p.current as int]@[j] == VmStatus::Pending,
    ensures
        p.has_dispatchable(),
{
}

} // verus!
