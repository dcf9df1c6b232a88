use vstd::prelude::*;

use crate::strmap::StrMap;

verus! {

/// What a policy applies to: a function of a foreign library, a whole
/// library, or a subprocess.
#[derive(Copy, Clone, Debug, PartialEq, Eq, Structural)]
pub enum PolicyType {
    FFI,
    LIBRARY,
    SUBPROCESS,
}

/// The number of policy types.
pub const POLICY_TYPE_COUNT: usize = 3;

/// The position of a policy type among the per-type policy maps.
pub open spec fn spec_type_index(t: PolicyType) -> int {
    match t {
        PolicyType::FFI => 0,
        PolicyType::LIBRARY => 1,
        PolicyType::SUBPROCESS => 2,
    }
}

impl PolicyType {
    /// The position of this policy type among the per-type policy maps.
    pub fn index(&self) -> (i: usize)
        ensures
            i == spec_type_index(*self),
            i < POLICY_TYPE_COUNT,
    {
        match self {
            PolicyType::FFI => 0,
            PolicyType::LIBRARY => 1,
            PolicyType::SUBPROCESS => 2,
        }
    }
}

/// The policy of one command, library or library function.
#[derive(Debug)]
pub struct Policy {
    pub name: String,
    pub policy_type: Option<PolicyType>,
    pub fs: Option<FsPolicyWrapper>,
    pub ipc: Option<IpcPolicyWrapper>,
    pub net: Option<NetPolicyWrapper>,
}

/// File system access: all or nothing, or per kind of access.
#[derive(Debug)]
pub enum FsPolicyWrapper {
    Boolean(bool),
    FsPolicy(FsPolicy),
}

#[derive(Debug)]
pub struct FsPolicy {
    pub read: Option<FsPolicyInternal>,
    pub write: Option<FsPolicyInternal>,
    pub execute: Option<FsPolicyInternal>,
}

/// One kind of file system access: all or nothing, or beneath these paths.
#[derive(Debug)]
pub enum FsPolicyInternal {
    Boolean(bool),
    Vector(Vec<String>),
}

/// Inter-process communication: all or nothing, or per mechanism.
#[derive(Debug)]
pub enum IpcPolicyWrapper {
    Boolean(bool),
    IpcPolicy(IpcPolicy),
}

#[derive(Debug)]
pub struct IpcPolicy {
    pub fifo: Option<bool>,
    pub message: Option<bool>,
    pub semaphore: Option<bool>,
    pub shmem: Option<bool>,
    pub signal: Option<bool>,
    pub socket: Option<bool>,
}

/// Network access: all or nothing, or to these hosts.
#[derive(Clone, Debug)]
pub enum NetPolicyWrapper {
    Boolean(bool),
    NetPolicy(Vec<NetHostPolicy>),
}

/// A host (an IPv4 address) and the ports that may be reached on it.
#[derive(Clone, Debug)]
pub struct NetHostPolicy {
    pub ip: u32,
    pub ports: Option<NetPortsWrapper>,
}

/// Ports of a host: all or none, or these.
#[derive(Clone, Debug)]
pub enum NetPortsWrapper {
    Boolean(bool),
    NetPorts(Vec<u16>),
}

/// The map that a policy goes to: its type's, subprocess when it has none.
pub open spec fn policy_index(p: Policy) -> int {
    match p.policy_type {
        Some(t) => spec_type_index(t),
        None => 2,
    }
}

/// The position of the last policy among the first `n` that is named `key`
/// and goes to map `t`, or -1 when there is none.
pub open spec fn last_policy_index(policies: Seq<Policy>, n: int, t: int, key: Seq<char>) -> int
    decreases n,
{
    if n <= 0 {
        -1
    } else if policies[n - 1].name@ == key && policy_index(policies[n - 1]) == t {
        n - 1
    } else {
        last_policy_index(policies, n - 1, t, key)
    }
}

/// Splits the policies into one map per policy type, from name to the
/// encoding of the policy; a later policy of the same name and type
/// replaces an earlier one.
pub fn get_policy<T, F: Fn(&Policy) -> T>(policies: &Vec<Policy>, encode_policy: F) -> (r: Vec<
    StrMap<T>,
>)
    requires
        forall|i: int| 0 <= i < policies@.len() ==> call_requires(encode_policy, (&policies@[i],)),
    ensures
        r@.len() == POLICY_TYPE_COUNT,
        forall|t: int| 0 <= t < POLICY_TYPE_COUNT ==> (#[trigger] r@[t]).wf(),
        forall|t: int, key: Seq<char>|
            0 <= t < POLICY_TYPE_COUNT ==> (#[trigger] r@[t].view().contains_key(key)
                <==> last_policy_index(policies@, policies@.len() as int, t, key) >= 0),
        forall|t: int, key: Seq<char>|
            0 <= t < POLICY_TYPE_COUNT && #[trigger] r@[t].view().contains_key(key) ==> call_ensures(
                encode_policy,
                (&policies@[last_policy_index(policies@, policies@.len() as int, t, key)],),
                r@[t].view()[key],
            ),
{
    let mut ffi: StrMap<T> = StrMap::new();
    let mut library: StrMap<T> = StrMap::new();
    let mut subprocess: StrMap<T> = StrMap::new();
    let n = policies.len();
    let mut i: usize = 0;
    while i < n
        invariant
            n == policies@.len(),
            i <= n,
            forall|j: int| 0 <= j < policies@.len() ==> call_requires(encode_policy, (&policies@[j],)),
            ffi.wf(),
            library.wf(),
            subprocess.wf(),
            forall|key: Seq<char>|
                #[trigger] ffi.view().contains_key(key) <==> last_policy_index(
                    policies@,
                    i as int,
                    0,
                    key,
                ) >= 0,
            forall|key: Seq<char>|
                #[trigger] library.view().contains_key(key) <==> last_policy_index(
                    policies@,
                    i as int,
                    1,
                    key,
                ) >= 0,
            forall|key: Seq<char>|
                #[trigger] subprocess.view().contains_key(key) <==> last_policy_index(
                    policies@,
                    i as int,
                    2,
                    key,
                ) >= 0,
            forall|key: Seq<char>|
                #[trigger] ffi.view().contains_key(key) ==> call_ensures(
                    encode_policy,
                    (&policies@[last_policy_index(policies@, i as int, 0, key)],),
                    ffi.view()[key],
                ),
            forall|key: Seq<char>|
                #[trigger] library.view().contains_key(key) ==> call_ensures(
                    encode_policy,
                    (&policies@[last_policy_index(policies@, i as int, 1, key)],),
                    library.view()[key],
                ),
            forall|key: Seq<char>|
                #[trigger] subprocess.view().contains_key(key) ==> call_ensures(
                    encode_policy,
                    (&policies@[last_policy_index(policies@, i as int, 2, key)],),
                    subprocess.view()[key],
                ),
        decreases n - i,
    {
        let policy = &policies[i];
        let idx: usize = match policy.policy_type {
            Some(t) => t.index(),
            None => 2,
        };
        assert(idx == policy_index(policies@[i as int]));
        let value = encode_policy(policy);
        let name = policy.name.clone();
        if idx == 0 {
            ffi.insert(name, value);
        } else if idx == 1 {
            library.insert(name, value);
        } else {
            subprocess.insert(name, value);
        }
        i = i + 1;
    }
    let mut r: Vec<StrMap<T>> = Vec::new();
    r.push(ffi);
    r.push(library);
    r.push(subprocess);
    r
}

/// The map of one policy type that a call looks in first: the functions'
/// map for a call into a library, the subprocesses' map otherwise.
pub open spec fn specific_index(library_name: Option<&String>) -> int {
    match library_name {
        Some(_) => 0,
        None => 2,
    }
}

/// Picks the map of the policies that name the caller directly: library
/// functions when a library name is given, subprocesses otherwise.
pub fn get_specific_policy<'a, T>(policy: &'a Vec<StrMap<T>>, library_name: Option<&String>) -> (r:
    &'a StrMap<T>)
    requires
        specific_index(library_name) < policy@.len(),
    ensures
        *r == policy@[specific_index(library_name)],
{
    let policy_type_idx: usize = match library_name {
        Some(_library_name) => 0,
        None => 2,
    };
    &policy[policy_type_idx]
}

/// The name that a policy of a library function is stored under:
/// `library:name`; a subprocess is stored under its own name.
pub open spec fn ns_name(name: Seq<char>, library_name: Option<Seq<char>>) -> Seq<char> {
    match library_name {
        Some(lib) => lib + seq![':'] + name,
        None => name,
    }
}

/// The name that a policy of `name` (in the library `library_name`, if any)
/// is stored under.
pub fn get_ns_name(name: &String, library_name: Option<&String>) -> (r: String)
    ensures
        r@ == ns_name(
            name@,
            match library_name {
                Some(l) => Some(l@),
                None => None,
            },
        ),
{
    match library_name {
        Some(library_name) => {
            let mut ns = library_name.clone();
            ns.append(":");
            proof {
                reveal_strlit(":");
            }
            ns.append(name.as_str());
            ns
        },
        None => name.clone(),
    }
}

} // verus!
