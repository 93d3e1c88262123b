//! Plan construction: translate a run mode and the current inventory into
//! the exact list of per-VM actions to issue.
use vstd::prelude::*;

use crate::types::{PowerAction, PowerState, RunMode, VMData, VMSummary};

verus! {

/// One planned step: issue `action` against the VM with id `vm_id`.
pub struct PlannedAction {
    pub vm_id: String,
    pub action: PowerAction,
}

/// Mathematical model of a `PlannedAction`.
pub struct PlanData {
    pub vm_id: Seq<char>,
    pub action: PowerAction,
}

impl View for PlannedAction {
    type V = PlanData;

    open spec fn view(&self) -> PlanData {
        PlanData { vm_id: self.vm_id@, action: self.action }
    }
}

impl DeepView for PlannedAction {
    type V = PlanData;

    open spec fn deep_view(&self) -> PlanData {
        self.view()
    }
}

impl Clone for PlannedAction {
    fn clone(&self) -> (r: Self)
        ensures
            r@ == self@,
    {
        PlannedAction { vm_id: self.vm_id.clone(), action: self.action }
    }
}

/// Desired per-VM power states for `RunMode::Auto`, supplied by external
/// configuration. Lookup is by VM id; the first matching entry wins.
pub struct DesiredStates {
    pub entries: Vec<(String, PowerState)>,
}

impl View for DesiredStates {
    type V = Seq<(Seq<char>, PowerState)>;

    open spec fn view(&self) -> Seq<(Seq<char>, PowerState)> {
        Seq::new(self.entries@.len(), |i: int| (self.entries@[i].0@, self.entries@[i].1))
    }
}

/// The configured desired state for `id`, if any: the first entry whose key
/// equals `id`.
pub open spec fn spec_lookup(des: Seq<(Seq<char>, PowerState)>, id: Seq<char>) -> Option<PowerState>
    decreases des.len(),
{
    if des.len() == 0 {
        None
    } else if des[0].0 == id {
        Some(des[0].1)
    } else {
        spec_lookup(des.drop_first(), id)
    }
}

impl DesiredStates {
    pub fn new() -> (r: DesiredStates)
        ensures
            r@ =~= Seq::<(Seq<char>, PowerState)>::empty(),
    {
        DesiredStates { entries: Vec::new() }
    }

    pub fn push(&mut self, id: String, state: PowerState)
        ensures
            final(self)@ =~= old(self)@.push((id@, state)),
    {
        self.entries.push((id, state));
    }

    pub fn lookup(&self, id: &String) -> (r: Option<PowerState>)
        ensures
            r == spec_lookup(self@, id@),
    {
        let mut i: usize = 0;
        proof {
            assert(self@.skip(0) =~= self@);
        }
        while i < self.entries.len()
            invariant
                i <= self.entries.len(),
                spec_lookup(self@, id@) == spec_lookup(self@.skip(i as int), id@),
            decreases self.entries.len() - i,
        {
            proof {
                let k = i as int;
                assert(self@.skip(k)[0] == (self.entries@[k].0@, self.entries@[k].1));
                assert(self@.skip(k).drop_first() =~= self@.skip(k + 1));
            }
            if self.entries[i].0.eq(id) {
                return Some(self.entries[i].1);
            }
            i += 1;
        }
        proof {
            assert(self@.skip(i as int).len() == 0);
        }
        None
    }
}

/// The action the engine owes a VM in state `state` under `mode`, where
/// `desired` is the configured desired state used only by `Auto`:
/// - `Shutdown` mode: powered-on VMs get `Shutdown`; others are untouched.
/// - `Start` mode: powered-off and suspended VMs get `Start`; others are
///   untouched.
/// - `Auto` mode: a VM with no configured desired state is skipped; one whose
///   state already agrees is untouched; otherwise the action that reaches the
///   desired state is issued.
pub open spec fn desired_action(
    mode: RunMode,
    state: PowerState,
    desired: Option<PowerState>,
) -> Option<PowerAction> {
    match mode {
        RunMode::Shutdown => if state == PowerState::PoweredOn {
            Some(PowerAction::Shutdown)
        } else {
            None
        },
        RunMode::Start => if state == PowerState::PoweredOn {
            None
        } else {
            Some(PowerAction::Start)
        },
        RunMode::Auto => match desired {
            None => None,
            Some(d) => if d == state {
                None
            } else {
                match d {
                    PowerState::PoweredOn => Some(PowerAction::Start),
                    PowerState::PoweredOff => Some(PowerAction::Shutdown),
                    PowerState::Suspended => Some(PowerAction::Standby),
                }
            },
        },
    }
}

/// `true` when the VM already satisfies the intent of `mode`, so that no
/// action is owed: for `Shutdown`, anything not powered on; for `Start`,
/// powered on; for `Auto`, agreement with (or absence of) the configured
/// desired state.
pub open spec fn in_target_state(
    mode: RunMode,
    state: PowerState,
    desired: Option<PowerState>,
) -> bool {
    match mode {
        RunMode::Shutdown => state != PowerState::PoweredOn,
        RunMode::Start => state == PowerState::PoweredOn,
        RunMode::Auto => match desired {
            None => true,
            Some(d) => d == state,
        },
    }
}

/// An action is owed exactly when the VM is not already in its target state.
pub broadcast proof fn lemma_action_iff_not_in_target(
    mode: RunMode,
    state: PowerState,
    desired: Option<PowerState>,
)
    ensures
        (#[trigger] desired_action(mode, state, desired)) is Some <==> !in_target_state(
            mode,
            state,
            desired,
        ),
{
}

/// The exact plan for `mode` over `vms`: one entry per VM that owes an
/// action, in inventory order, carrying that VM's id and its owed action.
pub open spec fn spec_plan(
    mode: RunMode,
    vms: Seq<VMData>,
    des: Seq<(Seq<char>, PowerState)>,
) -> Seq<PlanData>
    decreases vms.len(),
{
    if vms.len() == 0 {
        Seq::empty()
    } else {
        let head = vms[0];
        let rest = spec_plan(mode, vms.drop_first(), des);
        match desired_action(mode, head.power_state, spec_lookup(des, head.id)) {
            None => rest,
            Some(a) => seq![PlanData { vm_id: head.id, action: a }] + rest,
        }
    }
}

proof fn lemma_spec_plan_snoc(
    mode: RunMode,
    vms: Seq<VMData>,
    des: Seq<(Seq<char>, PowerState)>,
    x: VMData,
)
    ensures
        spec_plan(mode, vms.push(x), des) =~= spec_plan(mode, vms, des) + (match desired_action(
            mode,
            x.power_state,
            spec_lookup(des, x.id),
        ) {
            None => Seq::<PlanData>::empty(),
            Some(a) => seq![PlanData { vm_id: x.id, action: a }],
        }),
    decreases vms.len(),
{
    let all = vms.push(x);
    let step = match desired_action(mode, x.power_state, spec_lookup(des, x.id)) {
        None => Seq::<PlanData>::empty(),
        Some(a) => seq![PlanData { vm_id: x.id, action: a }],
    };
    if vms.len() == 0 {
        assert(all.len() == 1);
        assert(all[0] == x);
        assert(all.drop_first() =~= Seq::<VMData>::empty());
        assert(spec_plan(mode, all.drop_first(), des) =~= Seq::<PlanData>::empty());
        match desired_action(mode, x.power_state, spec_lookup(des, x.id)) {
            None => {
                assert(spec_plan(mode, all, des) =~= step);
            },
            Some(a) => {
                assert(spec_plan(mode, all, des) =~= seq![PlanData { vm_id: x.id, action: a }]
                    + Seq::<PlanData>::empty());
                assert(spec_plan(mode, all, des) =~= step);
            },
        }
        assert(spec_plan(mode, vms, des) =~= Seq::<PlanData>::empty());
        assert(spec_plan(mode, vms, des) + step =~= step);
    } else {
        assert(all[0] == vms[0]);
        assert(all.drop_first() =~= vms.drop_first().push(x));
        lemma_spec_plan_snoc(mode, vms.drop_first(), des, x);
        assert(spec_plan(mode, all.drop_first(), des) =~= spec_plan(mode, vms.drop_first(), des)
            + step);
        match desired_action(mode, vms[0].power_state, spec_lookup(des, vms[0].id)) {
            None => {
                assert(spec_plan(mode, all, des) == spec_plan(mode, all.drop_first(), des));
                assert(spec_plan(mode, vms, des) == spec_plan(mode, vms.drop_first(), des));
            },
            Some(a0) => {
                let h = seq![PlanData { vm_id: vms[0].id, action: a0 }];
                assert(spec_plan(mode, all, des) == h + spec_plan(mode, all.drop_first(), des));
                assert(spec_plan(mode, vms, des) == h + spec_plan(mode, vms.drop_first(), des));
                assert(h + (spec_plan(mode, vms.drop_first(), des) + step) =~= (h + spec_plan(
                    mode,
                    vms.drop_first(),
                    des,
                )) + step);
            },
        }
    }
}

/// Build the action plan for `mode` against the listed inventory.
pub fn build_plan(mode: RunMode, vms: &Vec<VMSummary>, des: &DesiredStates) -> (r: Vec<
    PlannedAction,
>)
    ensures
        r.deep_view() == spec_plan(mode, vms.deep_view(), des@),
{
    let ghost vdata: Seq<VMData> = vms.deep_view();
    let mut r: Vec<PlannedAction> = Vec::new();
    let mut i: usize = 0;
    proof {
        assert(vdata.take(0) =~= Seq::<VMData>::empty());
    }
    while i < vms.len()
        invariant
            i <= vms.len(),
            vdata == vms.deep_view(),
            r.deep_view() == spec_plan(mode, vdata.take(i as int), des@),
        decreases vms.len() - i,
    {
        let vm = &vms[i];
        proof {
            assert(vdata[i as int] == vm@);
            assert(vdata.take(i as int).push(vdata[i as int]) =~= vdata.take(i as int + 1));
            lemma_spec_plan_snoc(mode, vdata.take(i as int), des@, vdata[i as int]);
        }
        let looked = des.lookup(&vm.id);
        let act: Option<PowerAction> = match mode {
            RunMode::Shutdown => {
                if vm.power_state == PowerState::PoweredOn {
                    Some(PowerAction::Shutdown)
                } else {
                    None
                }
            },
            RunMode::Start => {
                if vm.power_state == PowerState::PoweredOn {
                    None
                } else {
                    Some(PowerAction::Start)
                }
            },
            RunMode::Auto => {
                match looked {
                    None => None,
                    Some(d) => {
                        if d == vm.power_state {
                            None
                        } else {
                            match d {
                                PowerState::PoweredOn => Some(PowerAction::Start),
                                PowerState::PoweredOff => Some(PowerAction::Shutdown),
                                PowerState::Suspended => Some(PowerAction::Standby),
                            }
                        }
                    },
                }
            },
        };
        proof {
            assert(act == desired_action(mode, vm@.power_state, spec_lookup(des@, vm@.id)));
        }
        match act {
            None => {
                proof {
                    assert(r.deep_view() =~= spec_plan(mode, vdata.take(i as int), des@)
                        + Seq::<PlanData>::empty());
                }
            },
            Some(a) => {
                let ghost before = r.deep_view();
                r.push(PlannedAction { vm_id: vm.id.clone(), action: a });
                proof {
                    assert(r.deep_view() =~= before + seq![
                        PlanData { vm_id: vm@.id, action: a },
                    ]);
                }
            },
        }
        i += 1;
    }
    proof {
        assert(vdata.take(vms.len() as int) =~= vdata);
    }
    r
}

/// No action is ever issued for a VM already in its target state: every
/// planned entry's VM owed an action, and a fleet wholly in its target state
/// yields the empty plan. In particular a second `Shutdown` pass over a fleet
/// the first pass has fully powered off issues zero actions.
pub proof fn lemma_plan_empty_when_converged(
    mode: RunMode,
    vms: Seq<VMData>,
    des: Seq<(Seq<char>, PowerState)>,
)
    requires
        forall|i: int|
            0 <= i < vms.len() ==> in_target_state(
                mode,
                #[trigger] vms[i].power_state,
                spec_lookup(des, vms[i].id),
            ),
    ensures
        spec_plan(mode, vms, des) =~= Seq::<PlanData>::empty(),
    decreases vms.len(),
{
    if vms.len() > 0 {
        assert(in_target_state(mode, vms[0].power_state, spec_lookup(des, vms[0].id)));
        assert(forall|i: int|
            0 <= i < vms.drop_first().len() ==> #[trigger] vms.drop_first()[i] == vms[i + 1]);
        lemma_plan_empty_when_converged(mode, vms.drop_first(), des);
    }
}

/// Every entry of the plan stems from a VM that was not in its target state,
/// and carries exactly the action owed to that VM.
pub proof fn lemma_plan_entries_owed(
    mode: RunMode,
    vms: Seq<VMData>,
    des: Seq<(Seq<char>, PowerState)>,
)
    ensures
        forall|j: int|
            0 <= j < spec_plan(mode, vms, des).len() ==> exists|i: int|
                0 <= i < vms.len() && #[trigger] spec_plan(mode, vms, des)[j] == (PlanData {
                    vm_id: vms[i].id,
                    action: desired_action(
                        mode,
                        vms[i].power_state,
                        spec_lookup(des, vms[i].id),
                    ).unwrap(),
                }) && !in_target_state(mode, vms[i].power_state, spec_lookup(des, vms[i].id)),
    decreases vms.len(),
{
    if vms.len() > 0 {
        lemma_plan_entries_owed(mode, vms.drop_first(), des);
        let rest = spec_plan(mode, vms.drop_first(), des);
        let whole = spec_plan(mode, vms, des);
        match desired_action(mode, vms[0].power_state, spec_lookup(des, vms[0].id)) {
            None => {
                assert(whole == rest);
                assert forall|j: int| 0 <= j < whole.len() implies exists|i: int|
                    0 <= i < vms.len() && #[trigger] whole[j] == (PlanData {
                        vm_id: vms[i].id,
                        action: desired_action(
                            mode,
                            vms[i].power_state,
                            spec_lookup(des, vms[i].id),
                        ).unwrap(),
                    }) && !in_target_state(mode, vms[i].power_state, spec_lookup(des, vms[i].id)) by {
                    let i0 = choose|i0: int|
                        0 <= i0 < vms.drop_first().len() && #[trigger] rest[j] == (PlanData {
                            vm_id: vms.drop_first()[i0].id,
                            action: desired_action(
                                mode,
                                vms.drop_first()[i0].power_state,
                                spec_lookup(des, vms.drop_first()[i0].id),
                            ).unwrap(),
                        }) && !in_target_state(
                            mode,
                            vms.drop_first()[i0].power_state,
                            spec_lookup(des, vms.drop_first()[i0].id),
                        );
                    assert(vms.drop_first()[i0] == vms[i0 + 1]);
                };
            },
            Some(a) => {
                assert forall|j: int| 0 <= j < whole.len() implies exists|i: int|
                    0 <= i < vms.len() && #[trigger] whole[j] == (PlanData {
                        vm_id: vms[i].id,
                        action: desired_action(
                            mode,
                            vms[i].power_state,
                            spec_lookup(des, vms[i].id),
                        ).unwrap(),
                    }) && !in_target_state(mode, vms[i].power_state, spec_lookup(des, vms[i].id)) by {
                    if j == 0 {
                        assert(whole[0] == (PlanData { vm_id: vms[0].id, action: a }));
                        assert(0 <= 0 < vms.len() && whole[0] == (PlanData {
                            vm_id: vms[0].id,
                            action: desired_action(
                                mode,
                                vms[0].power_state,
                                spec_lookup(des, vms[0].id),
                            ).unwrap(),
                        }) && !in_target_state(
                            mode,
                            vms[0].power_state,
                            spec_lookup(des, vms[0].id),
                        ));
                    } else {
                        assert(whole[j] == rest[j - 1]);
                        let i0 = choose|i0: int|
                            0 <= i0 < vms.drop_first().len() && #[trigger] rest[j - 1] == (PlanData {
                                vm_id: vms.drop_first()[i0].id,
                                action: desired_action(
                                    mode,
                                    vms.drop_first()[i0].power_state,
                                    spec_lookup(des, vms.drop_first()[i0].id),
                                ).unwrap(),
                            }) && !in_target_state(
                                mode,
                                vms.drop_first()[i0].power_state,
                                spec_lookup(des, vms.drop_first()[i0].id),
                            );
                        assert(vms.drop_first()[i0] == vms[i0 + 1]);
                    }
                };
            },
        }
    }
}

} // verus!
