pub mod bench;
pub mod fs;
pub mod ipc;
pub mod net;
pub mod policy;
pub mod process;
pub mod strmap;
pub mod utils;

use vstd::prelude::*;

use crate::fs::{opt_view, policy_maps_wf, select_fs_rules, spec_lookup_policy, RWX};
use crate::ipc::{
    filters_to_apply, need_ipc_progs, spec_filters_to_apply, spec_ipc_get_policy, spec_need_ipc_progs,
    IpcFilter, ALLOW_ALL,
};
use crate::net::{
    entries_match_hosts, lemma_policy_id_selects_host_map, plan_matches, spec_net_get_policy,
    NetMapsPlan, NetPolicyMap,
};
use crate::policy::{ns_name, specific_index};
use crate::strmap::StrMap;

verus! {

/// The loaded policies, per component, each split into one map per policy
/// type (empty when no policy of that component was loaded), and the host
/// maps planned for the network policies.
pub struct SandboxPolicies {
    pub fs: Vec<StrMap<RWX>>,
    pub ipc: Vec<StrMap<u8>>,
    pub net: Vec<NetPolicyMap>,
    pub net_maps: Option<NetMapsPlan>,
}

impl SandboxPolicies {
    pub open spec fn wf(&self) -> bool {
        &&& (self.fs@.len() == 0 || policy_maps_wf(self.fs@))
        &&& (self.ipc@.len() == 0 || policy_maps_wf(self.ipc@))
        &&& (self.net@.len() != 0 ==> self.net_maps is Some)
        &&& (self.net_maps matches Some(m) ==> m.wf() && plan_matches(self.net@, m))
    }
}

/// How a caller is to be sandboxed.
pub struct SandboxPlan<'a> {
    /// The file system rules to enforce with Landlock, if any.
    pub fs_rules: Option<&'a RWX>,
    /// The inter-process communication mechanisms that remain allowed.
    pub ipc_allowed: u8,
    /// The seccomp filters to apply for the mechanisms that are not.
    pub ipc_filters: Vec<IpcFilter>,
    /// The network policy to attach, if any.
    pub net_policy_id: Option<i32>,
    /// At least one component sandboxes the caller.
    pub is_sandboxed: bool,
}

/// Decides how the caller `name` (a function of `library_name`, or a
/// subprocess) is sandboxed: the file system rules, the allowed IPC
/// mechanisms and the network policy that apply to it; it is sandboxed when
/// at least one of them restricts it.
pub fn apply<'a>(policies: &'a SandboxPolicies, name: &String, library_name: Option<&String>) -> (r:
    SandboxPlan<'a>)
    requires
        policies.wf(),
    ensures
        match r.fs_rules {
            Some(v) => policies.fs@.len() != 0 && spec_lookup_policy(
                policies.fs@,
                name@,
                opt_view(library_name),
            ) == Some(*v),
            None => policies.fs@.len() == 0 || spec_lookup_policy(
                policies.fs@,
                name@,
                opt_view(library_name),
            ) is None,
        },
        r.ipc_allowed == spec_ipc_get_policy(policies.ipc@, name@, opt_view(library_name)),
        r.ipc_filters@ == spec_filters_to_apply(r.ipc_allowed),
        r.net_policy_id == match policies.net_maps {
            Some(m) => spec_net_get_policy(policies.net@.len(), m, name@, opt_view(library_name)),
            None => None,
        },
        r.is_sandboxed == (r.fs_rules is Some || r.ipc_allowed != ALLOW_ALL
            || r.net_policy_id is Some),
        !r.is_sandboxed ==> r.ipc_filters@.len() == 0,
        // The network policy attached is the host map of the policy that applies to the caller:
        // its own, else its library's; the map holds that policy's hosts and ports.
        r.net_policy_id matches Some(id) ==> policies.net_maps matches Some(m) && {
            let h = m.host_maps@[id as int];
            &&& 0 <= id < m.host_maps@.len()
            &&& (h.name@ == ns_name(name@, opt_view(library_name)) && h.policy_type
                == specific_index(library_name)) || (library_name matches Some(l) && h.name@ == l@
                && h.policy_type == 1)
            &&& entries_match_hosts(
                h.entries@,
                (policies.net@[h.policy_type as int].view()[h.name@]->0)@,
            )
        },
{
    let fs_rules = select_fs_rules(&policies.fs, name, library_name);
    let ipc_allowed = ipc::get_policy(&policies.ipc, name, library_name);
    let ipc_filters = filters_to_apply(ipc_allowed);
    let net_policy_id = match &policies.net_maps {
        Some(m) => match net::get_policy(&policies.net, m, name, library_name) {
            Ok(id) => Some(id),
            Err(_) => None,
        },
        None => None,
    };
    proof {
        if let Some(id) = net_policy_id {
            let m = policies.net_maps->0;
            let full = ns_name(name@, opt_view(library_name));
            let t = specific_index(library_name);
            if m.spec_policy_id(full, t) == Some(id) {
                lemma_policy_id_selects_host_map(policies.net@, m, full, t, id);
            } else {
                let l = library_name->0;
                lemma_policy_id_selects_host_map(policies.net@, m, l@, 1, id);
            }
        }
    }
    let is_sandboxed = fs_rules.is_some() || ipc_allowed != ALLOW_ALL || net_policy_id.is_some();
    SandboxPlan { fs_rules, ipc_allowed, ipc_filters, net_policy_id, is_sandboxed }
}

/// Why the sandbox cannot be prepared.
#[derive(Copy, Clone, Debug, PartialEq, Eq, Structural)]
pub enum RequirementsError {
    /// The kernel offers no Landlock.
    NoLandlock,
    /// The process lacks `CAP_BPF`, `CAP_DAC_OVERRIDE` or `CAP_PERFMON`.
    MissingCapability,
}

/// What preparing the sandbox does once Landlock is known to be there.
#[derive(Copy, Clone, Debug, PartialEq, Eq, Structural)]
pub enum RequirementsStep {
    /// No eBPF program is needed: drop the permitted capabilities and finish.
    DropCapabilities,
    /// Check the capabilities that loading these eBPF programs takes.
    CheckCapabilities { ipc: bool, net: bool },
}

/// The first decision in preparing the sandbox: it needs Landlock; then the
/// IPC programs are needed when some policy forbids fifos or sockets, and
/// the network programs always.
pub fn requirements_after_lsm_check(landlock_available: bool, ipc_policy: &Vec<StrMap<u8>>) -> (r:
    Result<RequirementsStep, RequirementsError>)
    requires
        forall|t: int| 0 <= t < ipc_policy@.len() ==> (#[trigger] ipc_policy@[t]).wf(),
    ensures
        !landlock_available ==> r == Err::<RequirementsStep, RequirementsError>(
            RequirementsError::NoLandlock,
        ),
        landlock_available ==> r == Ok::<RequirementsStep, RequirementsError>(
            RequirementsStep::CheckCapabilities { ipc: spec_need_ipc_progs(ipc_policy@), net: true },
        ),
{
    if !landlock_available {
        return Err(RequirementsError::NoLandlock);
    }
    let ipc = need_ipc_progs(ipc_policy);
    let net = true;
    if !ipc && !net {
        return Ok(RequirementsStep::DropCapabilities);
    }
    Ok(RequirementsStep::CheckCapabilities { ipc, net })
}

/// The eBPF programs to load.
#[derive(Copy, Clone, Debug, PartialEq, Eq, Structural)]
pub struct ProgramsToLoad {
    pub ipc: bool,
    pub net: bool,
}

/// The second decision in preparing the sandbox: loading programs takes the
/// capabilities.
pub fn requirements_after_capability_check(has_capabilities: bool, ipc: bool, net: bool) -> (r:
    Result<ProgramsToLoad, RequirementsError>)
    ensures
        has_capabilities ==> r == Ok::<ProgramsToLoad, RequirementsError>(ProgramsToLoad { ipc, net }),
        !has_capabilities ==> r == Err::<ProgramsToLoad, RequirementsError>(
            RequirementsError::MissingCapability,
        ),
{
    if !has_capabilities {
        return Err(RequirementsError::MissingCapability);
    }
    Ok(ProgramsToLoad { ipc, net })
}

} // verus!
