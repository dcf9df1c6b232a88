use sandbox::fs::{fs_policy_encoding, get_paths, lookup_policy, select_fs_rules, RWX};
use sandbox::ipc::ipc_policy_encoding;
use sandbox::policy::{
    get_ns_name, get_policy, get_specific_policy, FsPolicy, FsPolicyInternal, FsPolicyWrapper,
    IpcPolicyWrapper, Policy, PolicyType,
};
use sandbox::strmap::StrMap;

fn policy(name: &str, policy_type: Option<PolicyType>) -> Policy {
    Policy { name: name.to_string(), policy_type, fs: None, ipc: None, net: None }
}

fn strings(v: &[&str]) -> Vec<String> {
    v.iter().map(|s| s.to_string()).collect()
}

fn paths(r: &RWX) -> (Vec<String>, Vec<String>, Vec<String>) {
    (r.read.clone(), r.write.clone(), r.execute.clone())
}

#[test]
fn ns_name_of_library_function() {
    let lib = "libsqlite".to_string();
    assert_eq!(get_ns_name(&"open".to_string(), Some(&lib)), "libsqlite:open");
    assert_eq!(get_ns_name(&"tar".to_string(), None), "tar");
}

#[test]
fn policy_type_indices() {
    assert_eq!(PolicyType::FFI.index(), 0);
    assert_eq!(PolicyType::LIBRARY.index(), 1);
    assert_eq!(PolicyType::SUBPROCESS.index(), 2);
}

#[test]
fn policies_split_by_type_and_later_wins() {
    let mut a = policy("tar", None);
    a.ipc = Some(IpcPolicyWrapper::Boolean(true));
    let mut b = policy("lib:f", Some(PolicyType::FFI));
    b.ipc = Some(IpcPolicyWrapper::Boolean(false));
    let c = policy("lib", Some(PolicyType::LIBRARY));
    let d = policy("tar", Some(PolicyType::SUBPROCESS));
    let policies = vec![a, b, c, d];
    let maps = get_policy(&policies, ipc_policy_encoding);
    assert_eq!(maps.len(), 3);
    assert_eq!(maps[0].len(), 1);
    assert_eq!(maps[1].len(), 1);
    assert_eq!(maps[2].len(), 1);
    assert_eq!(maps[0].get(&"lib:f".to_string()), Some(&0u8));
    assert_eq!(maps[1].get(&"lib".to_string()), Some(&0u8));
    // The second "tar" (no IPC section) replaced the first (all allowed).
    assert_eq!(maps[2].get(&"tar".to_string()), Some(&0u8));
    assert_eq!(maps[2].get(&"lib".to_string()), None);
}

#[test]
fn specific_policy_map_by_caller() {
    let maps = get_policy(&vec![policy("x", Some(PolicyType::FFI)), policy("y", None)], ipc_policy_encoding);
    let lib = "l".to_string();
    assert!(get_specific_policy(&maps, Some(&lib)).get(&"x".to_string()).is_some());
    assert!(get_specific_policy(&maps, None).get(&"y".to_string()).is_some());
    assert!(get_specific_policy(&maps, None).get(&"x".to_string()).is_none());
}

#[test]
fn fs_encoding_all_or_nothing() {
    let env = StrMap::new();
    let mut p = policy("a", None);
    p.fs = Some(FsPolicyWrapper::Boolean(true));
    assert_eq!(paths(&fs_policy_encoding(&p, &env)), (strings(&["/"]), strings(&["/"]), strings(&["/"])));
    p.fs = Some(FsPolicyWrapper::Boolean(false));
    assert_eq!(paths(&fs_policy_encoding(&p, &env)), (vec![], vec![], vec![]));
    p.fs = None;
    assert_eq!(paths(&fs_policy_encoding(&p, &env)), (vec![], vec![], vec![]));
    assert_eq!(paths(&RWX::allow()), (strings(&["/"]), strings(&["/"]), strings(&["/"])));
    assert_eq!(paths(&RWX::deny()), (vec![], vec![], vec![]));
}

#[test]
fn fs_encoding_per_access_with_env() {
    let mut env = StrMap::new();
    env.insert("HOME".to_string(), "/home/u".to_string());
    let mut p = policy("a", None);
    p.fs = Some(FsPolicyWrapper::FsPolicy(FsPolicy {
        read: Some(FsPolicyInternal::Vector(strings(&["$HOME/data", "/etc"]))),
        write: Some(FsPolicyInternal::Boolean(true)),
        execute: None,
    }));
    assert_eq!(
        paths(&fs_policy_encoding(&p, &env)),
        (strings(&["/home/u/data", "/etc"]), strings(&["/"]), vec![])
    );
    assert_eq!(get_paths(&Some(FsPolicyInternal::Boolean(false)), &env), Vec::<String>::new());
    assert_eq!(get_paths(&None, &env), Vec::<String>::new());
}

fn fs_maps() -> Vec<StrMap<RWX>> {
    let env = StrMap::new();
    let mut f = policy("lib:open", Some(PolicyType::FFI));
    f.fs = Some(FsPolicyWrapper::Boolean(true));
    let mut l = policy("lib", Some(PolicyType::LIBRARY));
    l.fs = Some(FsPolicyWrapper::FsPolicy(FsPolicy {
        read: Some(FsPolicyInternal::Vector(strings(&["/tmp"]))),
        write: None,
        execute: None,
    }));
    let mut s = policy("lib", None);
    s.fs = Some(FsPolicyWrapper::Boolean(false));
    get_policy(&vec![f, l, s], |p: &Policy| fs_policy_encoding(p, &env))
}

#[test]
fn own_policy_wins_then_library_fallback() {
    let maps = fs_maps();
    let lib = "lib".to_string();
    let own = lookup_policy(&maps, &"open".to_string(), Some(&lib)).unwrap();
    assert_eq!(own.read, strings(&["/"]));
    let fallback = lookup_policy(&maps, &"close".to_string(), Some(&lib)).unwrap();
    assert_eq!(fallback.read, strings(&["/tmp"]));
    let other = "other".to_string();
    assert!(lookup_policy(&maps, &"open".to_string(), Some(&other)).is_none());
}

#[test]
fn subprocess_has_no_library_fallback() {
    let maps = fs_maps();
    let sub = lookup_policy(&maps, &"lib".to_string(), None).unwrap();
    assert!(sub.read.is_empty());
    assert!(lookup_policy(&maps, &"tar".to_string(), None).is_none());
}

#[test]
fn no_fs_policy_loaded_means_no_sandbox() {
    let empty: Vec<StrMap<RWX>> = Vec::new();
    assert!(select_fs_rules(&empty, &"tar".to_string(), None).is_none());
    let maps = fs_maps();
    assert!(select_fs_rules(&maps, &"lib".to_string(), None).is_some());
}
