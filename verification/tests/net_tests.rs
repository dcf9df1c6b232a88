use std::collections::HashMap;

use sandbox::net::{
    blocked_af_families, get_nof_policies, get_policy, get_ports, net_policy_encoding,
    plan_bpf_maps, ConnectionEntry, NetPolicyError, NetPolicyMap,
};
use sandbox::policy::{NetHostPolicy, NetPolicyWrapper, NetPortsWrapper, Policy, PolicyType};

fn policy(name: &str, policy_type: Option<PolicyType>, net: Option<NetPolicyWrapper>) -> Policy {
    Policy { name: name.to_string(), policy_type, fs: None, ipc: None, net }
}

fn host(ip: u32, ports: Option<NetPortsWrapper>) -> NetHostPolicy {
    NetHostPolicy { ip, ports }
}

#[test]
fn ports_of_a_host() {
    assert_eq!(get_ports(&None), vec![0]);
    assert_eq!(get_ports(&Some(NetPortsWrapper::Boolean(true))), vec![0]);
    assert_eq!(get_ports(&Some(NetPortsWrapper::Boolean(false))), Vec::<u16>::new());
    assert_eq!(get_ports(&Some(NetPortsWrapper::NetPorts(vec![80, 443]))), vec![80, 443]);
}

#[test]
fn net_encoding() {
    assert!(net_policy_encoding(&policy("a", None, Some(NetPolicyWrapper::Boolean(true)))).is_none());
    assert_eq!(
        net_policy_encoding(&policy("a", None, Some(NetPolicyWrapper::Boolean(false)))),
        Some(HashMap::new())
    );
    assert_eq!(net_policy_encoding(&policy("a", None, None)), Some(HashMap::new()));
    let p = policy(
        "a",
        None,
        Some(NetPolicyWrapper::NetPolicy(vec![
            host(1, Some(NetPortsWrapper::NetPorts(vec![80]))),
            host(2, None),
            host(1, Some(NetPortsWrapper::NetPorts(vec![22, 23]))),
        ])),
    );
    let mut expected = HashMap::new();
    expected.insert(1u32, vec![22u16, 23]);
    expected.insert(2u32, vec![0u16]);
    assert_eq!(net_policy_encoding(&p), Some(expected));
}

fn net_maps() -> Vec<NetPolicyMap> {
    let policies = vec![
        policy("lib", Some(PolicyType::LIBRARY), Some(NetPolicyWrapper::NetPolicy(vec![host(7, None)]))),
        policy("lib:f", Some(PolicyType::FFI), Some(NetPolicyWrapper::Boolean(true))),
        policy(
            "curl",
            None,
            Some(NetPolicyWrapper::NetPolicy(vec![
                host(10, Some(NetPortsWrapper::NetPorts(vec![80, 443]))),
                host(11, Some(NetPortsWrapper::Boolean(false))),
            ])),
        ),
        policy("wget", None, Some(NetPolicyWrapper::Boolean(false))),
    ];
    sandbox::policy::get_policy(&policies, net_policy_encoding)
}

#[test]
fn number_of_policies() {
    assert_eq!(get_nof_policies(&net_maps()), 4);
    assert_eq!(get_nof_policies(&Vec::new()), 0);
}

#[test]
fn plan_has_one_host_map_per_restricting_policy() {
    let maps = net_maps();
    let plan = plan_bpf_maps(&maps);
    assert_eq!(plan.host_maps.len(), 3);
    for (i, h) in plan.host_maps.iter().enumerate() {
        assert_eq!(h.policy_id, i as i32);
    }
    let lib = &plan.host_maps[0];
    assert_eq!((lib.name.as_str(), lib.policy_type), ("lib", 1));
    assert_eq!(lib.entries, vec![ConnectionEntry { port: 0, addr: 7 }]);
    assert_eq!(lib.max_entries, 1);
    let curl = &plan.host_maps[1];
    assert_eq!((curl.name.as_str(), curl.policy_type), ("curl", 2));
    let mut entries = curl.entries.clone();
    entries.sort_by_key(|e| (e.addr, e.port));
    assert_eq!(
        entries,
        vec![ConnectionEntry { port: 80, addr: 10 }, ConnectionEntry { port: 443, addr: 10 }]
    );
    assert_eq!(curl.max_entries, 2);
    let wget = &plan.host_maps[2];
    assert_eq!(wget.name, "wget");
    assert!(wget.entries.is_empty());
    assert_eq!(wget.max_entries, 1);
}

#[test]
fn network_policy_lookup() {
    let maps = net_maps();
    let plan = plan_bpf_maps(&maps);
    assert_eq!(get_policy(&maps, &plan, &"curl".to_string(), None), Ok(1));
    assert_eq!(get_policy(&maps, &plan, &"wget".to_string(), None), Ok(2));
    assert_eq!(get_policy(&maps, &plan, &"ls".to_string(), None), Err(NetPolicyError::NoPolicyFound));
    let lib = "lib".to_string();
    // "lib:f" allows the whole network and has no host map: the library's applies.
    assert_eq!(get_policy(&maps, &plan, &"f".to_string(), Some(&lib)), Ok(0));
    assert_eq!(get_policy(&maps, &plan, &"g".to_string(), Some(&lib)), Ok(0));
    let other = "other".to_string();
    assert_eq!(
        get_policy(&maps, &plan, &"f".to_string(), Some(&other)),
        Err(NetPolicyError::NoPolicyFound)
    );
    assert_eq!(
        plan.policy_id(&"curl".to_string(), 2),
        Some(1)
    );
    assert_eq!(plan.policy_id(&"curl".to_string(), 0), None);
}

#[test]
fn no_net_policy_loaded() {
    let empty: Vec<NetPolicyMap> = Vec::new();
    let plan = plan_bpf_maps(&empty);
    assert!(plan.host_maps.is_empty());
    assert_eq!(get_policy(&empty, &plan, &"curl".to_string(), None), Err(NetPolicyError::NoPolicyFound));
}

#[test]
fn forbidden_families() {
    let f = blocked_af_families();
    assert_eq!(f.len(), 33);
    assert_eq!(f[0], 3);
    assert_eq!(f[32], 44);
    assert!(!f.contains(&2) && !f.contains(&10) && !f.contains(&1));
}
