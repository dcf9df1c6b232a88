use vstd::prelude::*;

use crate::policy::{
    get_ns_name, get_specific_policy, ns_name, specific_index, FsPolicyInternal, FsPolicyWrapper,
    Policy, POLICY_TYPE_COUNT,
};
use crate::strmap::StrMap;
use crate::utils::{resolve_env_vars, spec_resolve_env_vars};

verus! {

/// The paths beneath which reading, writing and executing are allowed.
pub struct RWX {
    pub read: Vec<String>,
    pub write: Vec<String>,
    pub execute: Vec<String>,
}

/// The characters of each string.
pub open spec fn strings_view(v: Seq<String>) -> Seq<Seq<char>> {
    v.map_values(|s: String| s@)
}

/// Access beneath the root.
pub open spec fn root_only() -> Seq<Seq<char>> {
    seq![seq!['/']]
}

impl RWX {
    /// The three lists of paths.
    pub open spec fn spec_paths(&self) -> (Seq<Seq<char>>, Seq<Seq<char>>, Seq<Seq<char>>) {
        (strings_view(self.read@), strings_view(self.write@), strings_view(self.execute@))
    }

    /// Everything is allowed: each access beneath `/`.
    pub fn allow() -> (r: RWX)
        ensures
            r.spec_paths() == (root_only(), root_only(), root_only()),
    {
        RWX { read: root_path(), write: root_path(), execute: root_path() }
    }

    /// Nothing is allowed.
    pub fn deny() -> (r: RWX)
        ensures
            r.spec_paths() == (
                Seq::<Seq<char>>::empty(),
                Seq::<Seq<char>>::empty(),
                Seq::<Seq<char>>::empty(),
            ),
    {
        let r = RWX { read: Vec::new(), write: Vec::new(), execute: Vec::new() };
        assert(strings_view(r.read@) =~= Seq::<Seq<char>>::empty());
        r
    }
}

/// The list that holds only `/`.
fn root_path() -> (v: Vec<String>)
    ensures
        strings_view(v@) == root_only(),
{
    let mut v: Vec<String> = Vec::new();
    proof {
        reveal_strlit("/");
    }
    let root: String = "/".to_owned();
    assert(root@ =~= seq!['/']);
    v.push(root);
    assert(strings_view(v@) =~= root_only());
    v
}

/// The paths that one kind of access is allowed beneath: all (`/`) or none,
/// or the given paths with their environment variables resolved; none when
/// the kind is not mentioned.
pub open spec fn spec_get_paths(opt_internal: Option<FsPolicyInternal>, env: Map<Seq<char>, String>) -> Seq<
    Seq<char>,
> {
    match opt_internal {
        Some(FsPolicyInternal::Boolean(true)) => root_only(),
        Some(FsPolicyInternal::Boolean(false)) => Seq::empty(),
        Some(FsPolicyInternal::Vector(paths)) => strings_view(paths@).map_values(
            |p: Seq<char>| spec_resolve_env_vars(p, env),
        ),
        None => Seq::empty(),
    }
}

/// The paths that one kind of access is allowed beneath.
pub fn get_paths(opt_internal: &Option<FsPolicyInternal>, env: &StrMap<String>) -> (v: Vec<String>)
    requires
        env.wf(),
    ensures
        strings_view(v@) == spec_get_paths(*opt_internal, env.view()),
{
    match opt_internal {
        Some(internal) => match internal {
            FsPolicyInternal::Boolean(allow) => {
                if *allow {
                    root_path()
                } else {
                    let v: Vec<String> = Vec::new();
                    assert(strings_view(v@) =~= Seq::<Seq<char>>::empty());
                    v
                }
            },
            FsPolicyInternal::Vector(paths) => {
                let mut v: Vec<String> = Vec::new();
                let n = paths.len();
                let mut i: usize = 0;
                while i < n
                    invariant
                        env.wf(),
                        n == paths@.len(),
                        i <= n,
                        strings_view(v@) =~= strings_view(paths@.take(i as int)).map_values(
                            |p: Seq<char>| spec_resolve_env_vars(p, env.view()),
                        ),
                    decreases n - i,
                {
                    let resolved = resolve_env_vars(&paths[i], env);
                    let ghost prev = v@;
                    v.push(resolved);
                    assert(paths@.take(i + 1) =~= paths@.take(i as int).push(paths@[i as int]));
                    assert(strings_view(v@) =~= strings_view(prev).push(resolved@));
                    assert(strings_view(paths@.take(i + 1)) =~= strings_view(paths@.take(i as int)).push(paths@[i as int]@));
                    i = i + 1;
                }
                assert(paths@.take(n as int) =~= paths@);
                v
            },
        },
        None => {
            let v: Vec<String> = Vec::new();
            assert(strings_view(v@) =~= Seq::<Seq<char>>::empty());
            v
        },
    }
}

/// The paths of each kind of access that a policy allows.
pub open spec fn spec_fs_policy_encoding(policy: Policy, env: Map<Seq<char>, String>) -> (
    Seq<Seq<char>>,
    Seq<Seq<char>>,
    Seq<Seq<char>>,
) {
    match policy.fs {
        Some(FsPolicyWrapper::Boolean(true)) => (root_only(), root_only(), root_only()),
        Some(FsPolicyWrapper::FsPolicy(fs)) => (
            spec_get_paths(fs.read, env),
            spec_get_paths(fs.write, env),
            spec_get_paths(fs.execute, env),
        ),
        _ => (Seq::empty(), Seq::empty(), Seq::empty()),
    }
}

/// The file system rules of a policy: everything, nothing, or the paths
/// given per kind of access.
pub fn fs_policy_encoding(policy: &Policy, env: &StrMap<String>) -> (r: RWX)
    requires
        env.wf(),
    ensures
        r.spec_paths() == spec_fs_policy_encoding(*policy, env.view()),
{
    match &policy.fs {
        Some(fs_wrapper) => match fs_wrapper {
            FsPolicyWrapper::Boolean(allow) => {
                if *allow {
                    RWX::allow()
                } else {
                    RWX::deny()
                }
            },
            FsPolicyWrapper::FsPolicy(fs) => RWX {
                read: get_paths(&fs.read, env),
                write: get_paths(&fs.write, env),
                execute: get_paths(&fs.execute, env),
            },
        },
        None => RWX::deny(),
    }
}

/// The value that the policies hold for a caller: the one stored under its
/// own name in the map of its kind of caller, else, for a library function,
/// the one of its library; `None` when neither exists.
pub open spec fn spec_lookup_policy<T>(
    policies: Seq<StrMap<T>>,
    name: Seq<char>,
    library_name: Option<Seq<char>>,
) -> Option<T> {
    let specific = policies[if library_name is Some { 0int } else { 2int }].view();
    let full_name = ns_name(name, library_name);
    if specific.contains_key(full_name) {
        Some(specific[full_name])
    } else if library_name is Some && policies[1].view().contains_key(library_name->0) {
        Some(policies[1].view()[library_name->0])
    } else {
        None
    }
}

/// The policy maps, one per policy type, are well formed.
pub open spec fn policy_maps_wf<T>(policies: Seq<StrMap<T>>) -> bool {
    &&& policies.len() == POLICY_TYPE_COUNT
    &&& forall|t: int| 0 <= t < POLICY_TYPE_COUNT ==> (#[trigger] policies[t]).wf()
}

/// The optional library name as characters.
pub open spec fn opt_view(library_name: Option<&String>) -> Option<Seq<char>> {
    match library_name {
        Some(l) => Some(l@),
        None => None,
    }
}

/// Finds the policy that applies to a caller: the one stored under its own
/// (namespaced) name, else, for a library function, the one of its library.
pub fn lookup_policy<'a, T>(
    policies: &'a Vec<StrMap<T>>,
    name: &String,
    library_name: Option<&String>,
) -> (r: Option<&'a T>)
    requires
        policy_maps_wf(policies@),
    ensures
        match r {
            Some(v) => spec_lookup_policy(policies@, name@, opt_view(library_name)) == Some(*v),
            None => spec_lookup_policy(policies@, name@, opt_view(library_name)) is None,
        },
{
    let full_name = get_ns_name(name, library_name);
    assert(specific_index(library_name) < policies@.len());
    let specific_policies = get_specific_policy(policies, library_name);
    assert(specific_policies.wf());
    if let Some(v) = specific_policies.get(&full_name) {
        // The caller's own policy.
        Some(v)
    } else {
        match library_name {
            Some(library_name) => {
                // Fall back to the policy of the library.
                let library_policies = &policies[1];
                assert(library_policies.wf());
                library_policies.get(library_name)
            },
            None => None,
        }
    }
}

/// What the file system sandbox of a caller allows, if it is to be
/// sandboxed: `None` when no file system policy was loaded at all or none
/// applies to the caller.
pub fn select_fs_rules<'a>(
    fs_policy: &'a Vec<StrMap<RWX>>,
    name: &String,
    library_name: Option<&String>,
) -> (r: Option<&'a RWX>)
    requires
        fs_policy@.len() == 0 || policy_maps_wf(fs_policy@),
    ensures
        fs_policy@.len() == 0 ==> r is None,
        fs_policy@.len() != 0 ==> match r {
            Some(v) => spec_lookup_policy(fs_policy@, name@, opt_view(library_name)) == Some(*v),
            None => spec_lookup_policy(fs_policy@, name@, opt_view(library_name)) is None,
        },
{
    if fs_policy.len() == 0 {
        // No policy at all: do not sandbox.
        return None;
    }
    lookup_policy(fs_policy, name, library_name)
}

/// A caller's own policy comes first: when the map of its kind of caller
/// holds its (namespaced) name, that policy applies, whatever its library's.
pub proof fn lemma_own_policy_first<T>(
    policies: Seq<StrMap<T>>,
    name: Seq<char>,
    library_name: Option<Seq<char>>,
)
    requires
        policy_maps_wf(policies),
        policies[if library_name is Some { 0int } else { 2int }].view().contains_key(
            ns_name(name, library_name),
        ),
    ensures
        spec_lookup_policy(policies, name, library_name) == Some(
            policies[if library_name is Some { 0int } else { 2int }].view()[ns_name(
                name,
                library_name,
            )],
        ),
{
}

/// Only a library function falls back to a policy of its library, and only
/// when it has none of its own; a subprocess without a policy has none.
pub proof fn lemma_library_fallback<T>(
    policies: Seq<StrMap<T>>,
    name: Seq<char>,
    library_name: Option<Seq<char>>,
)
    requires
        policy_maps_wf(policies),
        !policies[if library_name is Some { 0int } else { 2int }].view().contains_key(
            ns_name(name, library_name),
        ),
    ensures
        library_name is None ==> spec_lookup_policy(policies, name, library_name) is None,
        library_name matches Some(lib) ==> spec_lookup_policy(policies, name, library_name) == if policies[1].view().contains_key(lib) {
            Some(policies[1].view()[lib])
        } else {
            None
        },
{
}

} // verus!
