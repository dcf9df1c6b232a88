use sandbox::ipc::{
    filters_to_apply, get_policy, ipc_policy_encoding, need_ipc_progs, IpcFilter, ALLOW_ALL, FIFO,
    MESSAGE, SEMAPHORE, SHMEM, SIGNAL, SOCKET,
};
use sandbox::policy::{IpcPolicy, IpcPolicyWrapper, Policy, PolicyType};
use sandbox::strmap::StrMap;

fn policy(name: &str, policy_type: Option<PolicyType>, ipc: Option<IpcPolicyWrapper>) -> Policy {
    Policy { name: name.to_string(), policy_type, fs: None, ipc, net: None }
}

fn mechanisms(fifo: Option<bool>, message: Option<bool>, socket: Option<bool>) -> IpcPolicyWrapper {
    IpcPolicyWrapper::IpcPolicy(IpcPolicy {
        fifo,
        message,
        semaphore: None,
        shmem: Some(false),
        signal: Some(true),
        socket,
    })
}

#[test]
fn mechanism_constants() {
    assert_eq!(ALLOW_ALL, 0b0011_1111);
    assert_eq!(FIFO | MESSAGE | SEMAPHORE | SHMEM | SIGNAL | SOCKET, ALLOW_ALL);
}

#[test]
fn encoding_of_all_none_and_missing() {
    assert_eq!(ipc_policy_encoding(&policy("a", None, Some(IpcPolicyWrapper::Boolean(true)))), ALLOW_ALL);
    assert_eq!(ipc_policy_encoding(&policy("a", None, Some(IpcPolicyWrapper::Boolean(false)))), 0);
    assert_eq!(ipc_policy_encoding(&policy("a", None, None)), 0);
}

#[test]
fn encoding_sets_exactly_the_allowed_bits() {
    let p = policy("a", None, Some(mechanisms(Some(true), Some(false), Some(true))));
    assert_eq!(ipc_policy_encoding(&p), FIFO | SIGNAL | SOCKET);
    let q = policy("a", None, Some(mechanisms(None, Some(true), None)));
    assert_eq!(ipc_policy_encoding(&q), MESSAGE | SIGNAL);
}

#[test]
fn filters_for_forbidden_mechanisms() {
    assert!(filters_to_apply(ALLOW_ALL).is_empty());
    let names: Vec<&str> = filters_to_apply(FIFO | SIGNAL | SOCKET).iter().map(|f| f.name()).collect();
    assert_eq!(names, vec!["message", "semaphore", "shmem"]);
    let all: Vec<&str> = filters_to_apply(0).iter().map(|f| f.name()).collect();
    assert_eq!(all, vec!["fifo", "message", "semaphore", "shmem", "signal", "socket"]);
    assert_eq!(IpcFilter::of_bit(4), IpcFilter::Signal);
}

fn ipc_maps(values: &[(&str, Option<PolicyType>, IpcPolicyWrapper)]) -> Vec<StrMap<u8>> {
    let policies: Vec<Policy> =
        values.iter().map(|(n, t, w)| policy(n, *t, Some(clone_wrapper(w)))).collect();
    sandbox::policy::get_policy(&policies, ipc_policy_encoding)
}

fn clone_wrapper(w: &IpcPolicyWrapper) -> IpcPolicyWrapper {
    match w {
        IpcPolicyWrapper::Boolean(b) => IpcPolicyWrapper::Boolean(*b),
        IpcPolicyWrapper::IpcPolicy(p) => IpcPolicyWrapper::IpcPolicy(IpcPolicy {
            fifo: p.fifo,
            message: p.message,
            semaphore: p.semaphore,
            shmem: p.shmem,
            signal: p.signal,
            socket: p.socket,
        }),
    }
}

#[test]
fn programs_needed_when_fifo_or_socket_forbidden() {
    let allow = ipc_maps(&[("a", None, IpcPolicyWrapper::Boolean(true))]);
    assert!(!need_ipc_progs(&allow));
    let no_socket = ipc_maps(&[
        ("a", None, IpcPolicyWrapper::Boolean(true)),
        ("b", Some(PolicyType::FFI), mechanisms(Some(true), None, Some(false))),
    ]);
    assert!(need_ipc_progs(&no_socket));
    let empty: Vec<StrMap<u8>> = Vec::new();
    assert!(!need_ipc_progs(&empty));
}

#[test]
fn ipc_policy_lookup() {
    let maps = ipc_maps(&[
        ("lib", Some(PolicyType::LIBRARY), IpcPolicyWrapper::Boolean(false)),
        ("lib:f", Some(PolicyType::FFI), mechanisms(Some(true), None, None)),
        ("cat", None, IpcPolicyWrapper::Boolean(false)),
    ]);
    let lib = "lib".to_string();
    assert_eq!(get_policy(&maps, &"f".to_string(), Some(&lib)), FIFO | SIGNAL);
    assert_eq!(get_policy(&maps, &"g".to_string(), Some(&lib)), 0);
    assert_eq!(get_policy(&maps, &"cat".to_string(), None), 0);
    assert_eq!(get_policy(&maps, &"dog".to_string(), None), ALLOW_ALL);
    let empty: Vec<StrMap<u8>> = Vec::new();
    assert_eq!(get_policy(&empty, &"cat".to_string(), None), ALLOW_ALL);
}

#[test]
fn filters_follow_the_policy() {
    let p = policy("a", None, Some(mechanisms(Some(false), Some(true), Some(true))));
    let names: Vec<&str> =
        filters_to_apply(ipc_policy_encoding(&p)).iter().map(|f| f.name()).collect();
    assert_eq!(names, vec!["fifo", "semaphore", "shmem"]);
    let all = policy("a", None, Some(IpcPolicyWrapper::Boolean(true)));
    assert!(filters_to_apply(ipc_policy_encoding(&all)).is_empty());
}
