use sandbox::fs::{fs_policy_encoding, RWX};
use sandbox::ipc::{ipc_policy_encoding, IpcFilter, ALLOW_ALL, FIFO};
use sandbox::net::{net_policy_encoding, plan_bpf_maps, NetPolicyMap};
use sandbox::policy::{
    get_policy, FsPolicyWrapper, IpcPolicy, IpcPolicyWrapper, NetHostPolicy, NetPolicyWrapper,
    Policy, PolicyType,
};
use sandbox::strmap::StrMap;
use sandbox::{
    apply, requirements_after_capability_check, requirements_after_lsm_check, ProgramsToLoad,
    RequirementsError, RequirementsStep, SandboxPolicies,
};

fn policies() -> Vec<Policy> {
    vec![
        Policy {
            name: "tar".to_string(),
            policy_type: None,
            fs: Some(FsPolicyWrapper::Boolean(false)),
            ipc: Some(IpcPolicyWrapper::IpcPolicy(IpcPolicy {
                fifo: Some(true),
                message: None,
                semaphore: None,
                shmem: None,
                signal: None,
                socket: None,
            })),
            net: Some(NetPolicyWrapper::NetPolicy(vec![NetHostPolicy { ip: 1, ports: None }])),
        },
        Policy {
            name: "echo".to_string(),
            policy_type: Some(PolicyType::SUBPROCESS),
            fs: None,
            ipc: Some(IpcPolicyWrapper::Boolean(true)),
            net: Some(NetPolicyWrapper::Boolean(true)),
        },
    ]
}

fn loaded() -> SandboxPolicies {
    let env = StrMap::new();
    let ps = policies();
    let fs: Vec<StrMap<RWX>> = get_policy(&ps, |p: &Policy| fs_policy_encoding(p, &env));
    let ipc = get_policy(&ps, ipc_policy_encoding);
    let net: Vec<NetPolicyMap> = get_policy(&ps, net_policy_encoding);
    let maps = plan_bpf_maps(&net);
    SandboxPolicies { fs, ipc, net, net_maps: Some(maps) }
}

#[test]
fn sandboxed_by_every_component() {
    let p = loaded();
    let plan = apply(&p, &"tar".to_string(), None);
    assert!(plan.is_sandboxed);
    assert!(plan.fs_rules.unwrap().read.is_empty());
    assert_eq!(plan.ipc_allowed, FIFO);
    assert_eq!(
        plan.ipc_filters,
        vec![IpcFilter::Message, IpcFilter::Semaphore, IpcFilter::Shmem, IpcFilter::Signal, IpcFilter::Socket]
    );
    assert_eq!(plan.net_policy_id, Some(0));
}

#[test]
fn allowed_everything_still_gets_fs_rules() {
    let p = loaded();
    // "echo" has a policy, so its (empty) file system rules are enforced.
    let plan = apply(&p, &"echo".to_string(), None);
    assert!(plan.is_sandboxed);
    assert!(plan.fs_rules.is_some());
    assert_eq!(plan.ipc_allowed, ALLOW_ALL);
    assert!(plan.ipc_filters.is_empty());
    assert_eq!(plan.net_policy_id, None);
}

#[test]
fn caller_without_policy_runs_unboxed() {
    let p = loaded();
    let plan = apply(&p, &"ls".to_string(), None);
    assert!(!plan.is_sandboxed);
    assert!(plan.fs_rules.is_none());
    assert!(plan.ipc_filters.is_empty());
    assert_eq!(plan.net_policy_id, None);
    let none = SandboxPolicies { fs: Vec::new(), ipc: Vec::new(), net: Vec::new(), net_maps: None };
    assert!(!apply(&none, &"tar".to_string(), None).is_sandboxed);
}

#[test]
fn preparing_requirements() {
    let p = loaded();
    assert_eq!(requirements_after_lsm_check(false, &p.ipc), Err(RequirementsError::NoLandlock));
    // "tar" forbids sockets, so the IPC programs are needed.
    assert_eq!(
        requirements_after_lsm_check(true, &p.ipc),
        Ok(RequirementsStep::CheckCapabilities { ipc: true, net: true })
    );
    let empty: Vec<StrMap<u8>> = Vec::new();
    assert_eq!(
        requirements_after_lsm_check(true, &empty),
        Ok(RequirementsStep::CheckCapabilities { ipc: false, net: true })
    );
    assert_eq!(
        requirements_after_capability_check(false, true, true),
        Err(RequirementsError::MissingCapability)
    );
    assert_eq!(
        requirements_after_capability_check(true, false, true),
        Ok(ProgramsToLoad { ipc: false, net: true })
    );
}
