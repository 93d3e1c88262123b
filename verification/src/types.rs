//! Core data model: power states, actions, run modes, error taxonomy,
//! inventory summaries and per-VM outcome records.
use vstd::prelude::*;

verus! {

/// Power state of a VM as reported by the management plane.
#[derive(Clone, Copy, PartialEq, Eq, Structural, Debug)]
pub enum PowerState {
    PoweredOff,
    PoweredOn,
    Suspended,
}

/// Operator-requested transition for a single VM. `Shutdown`, `Reboot` and
/// `Standby` are guest-level signals; `Start` is the complementary power-on
/// operation used to bring a VM up.
#[derive(Clone, Copy, PartialEq, Eq, Structural, Debug)]
pub enum PowerAction {
    Start,
    Shutdown,
    Reboot,
    Standby,
}

/// Declarative intent for the whole fleet.
#[derive(Clone, Copy, PartialEq, Eq, Structural, Debug)]
pub enum RunMode {
    Start,
    Shutdown,
    Auto,
}

/// Reason attached to a failed per-VM outcome.
#[derive(Clone, Copy, PartialEq, Eq, Structural, Debug)]
pub enum ErrorKind {
    TransportFailure,
    Rejected,
    Timeout,
    SessionExpired,
}

/// Failure of session establishment.
#[derive(Clone, Copy, PartialEq, Eq, Structural, Debug)]
pub enum AuthError {
    TransportFailure,
    Rejected,
    MalformedResponse,
}

/// Failure of an inventory query.
#[derive(Clone, Copy, PartialEq, Eq, Structural, Debug)]
pub enum QueryError {
    TransportFailure,
    DecodeFailure,
}

impl PowerState {
    /// Exact name of this state on the wire.
    pub open spec fn spec_wire_name(self) -> Seq<char> {
        match self {
            PowerState::PoweredOff => "POWERED_OFF"@,
            PowerState::PoweredOn => "POWERED_ON"@,
            PowerState::Suspended => "SUSPENDED"@,
        }
    }

    pub fn wire_name(&self) -> (r: &'static str)
        ensures
            r@ == self.spec_wire_name(),
    {
        match self {
            PowerState::PoweredOff => "POWERED_OFF",
            PowerState::PoweredOn => "POWERED_ON",
            PowerState::Suspended => "SUSPENDED",
        }
    }
}

impl PowerAction {
    /// Exact value of the `action` query parameter for this action.
    pub open spec fn spec_wire_name(self) -> Seq<char> {
        match self {
            PowerAction::Start => "start"@,
            PowerAction::Shutdown => "shutdown"@,
            PowerAction::Reboot => "reboot"@,
            PowerAction::Standby => "standby"@,
        }
    }

    pub fn wire_name(&self) -> (r: &'static str)
        ensures
            r@ == self.spec_wire_name(),
    {
        match self {
            PowerAction::Start => "start",
            PowerAction::Shutdown => "shutdown",
            PowerAction::Reboot => "reboot",
            PowerAction::Standby => "standby",
        }
    }
}

/// Immutable snapshot of one VM's inventory entry at query time.
pub struct VMSummary {
    pub id: String,
    pub name: String,
    pub power_state: PowerState,
    pub cpu_count: Option<i64>,
    pub memory_size_mib: Option<i64>,
}

/// Mathematical model of a `VMSummary`.
pub struct VMData {
    pub id: Seq<char>,
    pub name: Seq<char>,
    pub power_state: PowerState,
    pub cpu_count: Option<int>,
    pub memory_size_mib: Option<int>,
}

impl View for VMSummary {
    type V = VMData;

    open spec fn view(&self) -> VMData {
        VMData {
            id: self.id@,
            name: self.name@,
            power_state: self.power_state,
            cpu_count: match self.cpu_count {
                Some(n) => Some(n as int),
                None => None,
            },
            memory_size_mib: match self.memory_size_mib {
                Some(n) => Some(n as int),
                None => None,
            },
        }
    }
}

impl DeepView for VMSummary {
    type V = VMData;

    open spec fn deep_view(&self) -> VMData {
        self.view()
    }
}

impl Clone for VMSummary {
    fn clone(&self) -> (r: Self)
        ensures
            r@ == self@,
    {
        VMSummary {
            id: self.id.clone(),
            name: self.name.clone(),
            power_state: self.power_state,
            cpu_count: self.cpu_count,
            memory_size_mib: self.memory_size_mib,
        }
    }
}

/// Per-VM result of one reconciliation pass; created once, never mutated.
pub struct ActionOutcome {
    pub vm_id: String,
    pub requested_action: PowerAction,
    pub success: bool,
    pub error: Option<ErrorKind>,
}

/// Mathematical model of an `ActionOutcome`.
pub struct OutcomeData {
    pub vm_id: Seq<char>,
    pub requested_action: PowerAction,
    pub success: bool,
    pub error: Option<ErrorKind>,
}

impl View for ActionOutcome {
    type V = OutcomeData;

    open spec fn view(&self) -> OutcomeData {
        OutcomeData {
            vm_id: self.vm_id@,
            requested_action: self.requested_action,
            success: self.success,
            error: self.error,
        }
    }
}

impl DeepView for ActionOutcome {
    type V = OutcomeData;

    open spec fn deep_view(&self) -> OutcomeData {
        self.view()
    }
}

/// Optional constraints for an inventory listing. An absent field means
/// "no constraint on that dimension", never "empty set".
pub struct VMListFilter {
    pub clusters: Option<Vec<String>>,
    pub datacenters: Option<Vec<String>>,
    pub folders: Option<Vec<String>>,
    pub hosts: Option<Vec<String>>,
    pub names: Option<Vec<String>>,
    pub power_states: Option<Vec<PowerState>>,
    pub resource_pools: Option<Vec<String>>,
    pub vms: Option<Vec<String>>,
}

/// Mathematical model of a `VMListFilter`.
pub struct FilterData {
    pub clusters: Option<Seq<Seq<char>>>,
    pub datacenters: Option<Seq<Seq<char>>>,
    pub folders: Option<Seq<Seq<char>>>,
    pub hosts: Option<Seq<Seq<char>>>,
    pub names: Option<Seq<Seq<char>>>,
    pub power_states: Option<Seq<PowerState>>,
    pub resource_pools: Option<Seq<Seq<char>>>,
    pub vms: Option<Seq<Seq<char>>>,
}

impl FilterData {
    /// The filter that constrains nothing.
    pub open spec fn unconstrained() -> FilterData {
        FilterData {
            clusters: None,
            datacenters: None,
            folders: None,
            hosts: None,
            names: None,
            power_states: None,
            resource_pools: None,
            vms: None,
        }
    }
}

impl View for VMListFilter {
    type V = FilterData;

    open spec fn view(&self) -> FilterData {
        FilterData {
            clusters: self.clusters.deep_view(),
            datacenters: self.datacenters.deep_view(),
            folders: self.folders.deep_view(),
            hosts: self.hosts.deep_view(),
            names: self.names.deep_view(),
            power_states: match self.power_states {
                Some(ref v) => Some(v@),
                None => None,
            },
            resource_pools: self.resource_pools.deep_view(),
            vms: self.vms.deep_view(),
        }
    }
}

impl VMListFilter {
    /// A filter with every field absent.
    pub fn none() -> (r: VMListFilter)
        ensures
            r@ == FilterData::unconstrained(),
    {
        VMListFilter {
            clusters: None,
            datacenters: None,
            folders: None,
            hosts: None,
            names: None,
            power_states: None,
            resource_pools: None,
            vms: None,
        }
    }

    /// The filter constrained only on the VM-id dimension, as used by
    /// a listing restricted to chosen ids.
    pub fn for_ids(ids: Vec<String>) -> (r: VMListFilter)
        ensures
            r@ == (FilterData { vms: Some(ids.deep_view()), ..FilterData::unconstrained() }),
    {
        VMListFilter {
            clusters: None,
            datacenters: None,
            folders: None,
            hosts: None,
            names: None,
            power_states: None,
            resource_pools: None,
            vms: Some(ids),
        }
    }
}

} // verus!
