use std::collections::HashMap;
use vstd::prelude::*;
use vstd::std_specs::iter::IteratorSpec;

use crate::fs::opt_view;
use crate::policy::{get_ns_name, ns_name, NetHostPolicy, NetPolicyWrapper, NetPortsWrapper, Policy};
use crate::strmap::StrMap;

verus! {

broadcast use vstd::std_specs::hash::group_hash_axioms;

/// The ports of a host: port 0 stands for every port.
pub open spec fn spec_get_ports(opt_port_wrapper: Option<NetPortsWrapper>) -> Seq<u16> {
    match opt_port_wrapper {
        Some(NetPortsWrapper::Boolean(true)) => seq![0u16],
        Some(NetPortsWrapper::Boolean(false)) => Seq::empty(),
        Some(NetPortsWrapper::NetPorts(ports)) => ports@,
        None => seq![0u16],
    }
}

/// The ports that may be reached on a host; port 0 stands for every port,
/// which is also what a host without a port list gets.
pub fn get_ports(opt_port_wrapper: &Option<NetPortsWrapper>) -> (r: Vec<u16>)
    ensures
        r@ == spec_get_ports(*opt_port_wrapper),
{
    match opt_port_wrapper {
        Some(port_wrapper) => match port_wrapper {
            NetPortsWrapper::Boolean(allow) => {
                if *allow {
                    let mut v: Vec<u16> = Vec::new();
                    v.push(0);
                    assert(v@ =~= seq![0u16]);
                    v
                } else {
                    Vec::new()
                }
            },
            NetPortsWrapper::NetPorts(ports) => {
                let mut v: Vec<u16> = Vec::new();
                let n = ports.len();
                let mut i: usize = 0;
                while i < n
                    invariant
                        n == ports@.len(),
                        i <= n,
                        v@ == ports@.take(i as int),
                    decreases n - i,
                {
                    v.push(ports[i]);
                    assert(ports@.take(i + 1) =~= ports@.take(i as int).push(ports@[i as int]));
                    i = i + 1;
                }
                assert(ports@.take(n as int) =~= ports@);
                v
            },
        },
        None => {
            let mut v: Vec<u16> = Vec::new();
            v.push(0);
            assert(v@ =~= seq![0u16]);
            v
        },
    }
}

/// The hosts of a list and their ports; a later entry for the same address
/// replaces an earlier one.
pub open spec fn hosts_map(hosts: Seq<NetHostPolicy>) -> Map<u32, Seq<u16>>
    decreases hosts.len(),
{
    if hosts.len() == 0 {
        Map::empty()
    } else {
        hosts_map(hosts.drop_last()).insert(hosts.last().ip, spec_get_ports(hosts.last().ports))
    }
}

/// A map from address to ports holds exactly the hosts and ports of `h`.
pub open spec fn same_hosts(m: Map<u32, Vec<u16>>, h: Map<u32, Seq<u16>>) -> bool {
    &&& m.dom() == h.dom()
    &&& forall|ip: u32| #[trigger] m.contains_key(ip) ==> m[ip]@ == h[ip]
}

/// What a policy allows of the network: everything (`None`), or the hosts
/// and ports of its list (`Some`, empty when it allows nothing).
pub open spec fn spec_net_policy_hosts(policy: Policy) -> Option<Map<u32, Seq<u16>>> {
    match policy.net {
        Some(NetPolicyWrapper::Boolean(true)) => None,
        Some(NetPolicyWrapper::NetPolicy(hosts)) => Some(hosts_map(hosts@)),
        _ => Some(Map::empty()),
    }
}

/// The network rules of a policy: `None` when everything is allowed, else
/// the hosts that may be reached, each with its ports.
pub fn net_policy_encoding(policy: &Policy) -> (r: Option<HashMap<u32, Vec<u16>>>)
    ensures
        match (r, spec_net_policy_hosts(*policy)) {
            (None, None) => true,
            (Some(m), Some(h)) => same_hosts(m@, h),
            _ => false,
        },
{
    match &policy.net {
        Some(net_wrapper) => match net_wrapper {
            NetPolicyWrapper::Boolean(allow) => {
                if *allow {
                    None
                } else {
                    let m: HashMap<u32, Vec<u16>> = HashMap::new();
                    assert(m@.dom() =~= Map::<u32, Seq<u16>>::empty().dom());
                    Some(m)
                }
            },
            NetPolicyWrapper::NetPolicy(net_policy) => {
                let mut net_hosts: HashMap<u32, Vec<u16>> = HashMap::new();
                let n = net_policy.len();
                let mut i: usize = 0;
                while i < n
                    invariant
                        n == net_policy@.len(),
                        i <= n,
                        same_hosts(net_hosts@, hosts_map(net_policy@.take(i as int))),
                    decreases n - i,
                {
                    let net_host_policy = &net_policy[i];
                    let key = net_host_policy.ip;
                    let value = get_ports(&net_host_policy.ports);
                    net_hosts.insert(key, value);
                    let ghost next = net_policy@.take(i + 1);
                    assert(next.drop_last() =~= net_policy@.take(i as int));
                    assert(net_hosts@.dom() =~= hosts_map(next).dom());
                    i = i + 1;
                }
                assert(net_policy@.take(n as int) =~= net_policy@);
                Some(net_hosts)
            },
        },
        None => {
            let m: HashMap<u32, Vec<u16>> = HashMap::new();
            assert(m@.dom() =~= Map::<u32, Seq<u16>>::empty().dom());
            Some(m)
        },
    }
}

/// The network rules of policies, per name.
pub type NetPolicyMap = StrMap<Option<HashMap<u32, Vec<u16>>>>;

/// The number of entries of the first `n` maps.
pub open spec fn total_size<V>(maps: Seq<StrMap<V>>, n: int) -> nat
    decreases n,
{
    if n <= 0 {
        0
    } else {
        total_size(maps, n - 1) + maps[n - 1].size()
    }
}

proof fn lemma_total_size_monotone<V>(maps: Seq<StrMap<V>>, a: int, b: int)
    requires
        0 <= a <= b,
    ensures
        total_size(maps, a) <= total_size(maps, b),
    decreases b - a,
{
    if a < b {
        lemma_total_size_monotone(maps, a, b - 1);
    }
}

/// The number of network policies.
pub fn get_nof_policies(net_policy: &Vec<NetPolicyMap>) -> (n: usize)
    requires
        total_size(net_policy@, net_policy@.len() as int) <= usize::MAX,
    ensures
        n == total_size(net_policy@, net_policy@.len() as int),
{
    let mut nof_policies: usize = 0;
    let len = net_policy.len();
    let mut t: usize = 0;
    while t < len
        invariant
            len == net_policy@.len(),
            t <= len,
            total_size(net_policy@, len as int) <= usize::MAX,
            nof_policies == total_size(net_policy@, t as int),
        decreases len - t,
    {
        proof {
            lemma_total_size_monotone(net_policy@, t + 1, len as int);
        }
        nof_policies = nof_policies + net_policy[t].len();
        t = t + 1;
    }
    nof_policies
}

/// An entry of a host map: the connection to `addr` on `port` is allowed
/// (port 0: on every port).
#[derive(Copy, Clone, Debug, PartialEq, Eq, Structural)]
pub struct ConnectionEntry {
    pub port: u16,
    pub addr: u32,
}

/// The eBPF map of the hosts of one policy.
pub struct HostMapPlan {
    pub name: String,
    pub policy_type: usize,
    pub policy_id: i32,
    pub max_entries: usize,
    pub entries: Vec<ConnectionEntry>,
}

/// The entries of one host: each of its listed ports, in turn.
pub open spec fn port_entries(ports: Seq<u16>, ip: u32) -> Seq<ConnectionEntry> {
    ports.map_values(|p: u16| ConnectionEntry { port: p, addr: ip })
}

/// The entries of the hosts taken in the given order, each host's ports in
/// turn.
pub open spec fn hosts_in_turn(hosts: Map<u32, Vec<u16>>, order: Seq<u32>) -> Seq<ConnectionEntry>
    decreases order.len(),
{
    if order.len() == 0 {
        Seq::empty()
    } else {
        hosts_in_turn(hosts, order.drop_last()) + port_entries(hosts[order.last()]@, order.last())
    }
}

/// The entries list each host once, in some order, with each of its listed
/// ports in turn (so there are as many entries as listed ports), and hold
/// each pair of a host and one of its ports, and no other.
pub open spec fn entries_match_hosts(entries: Seq<ConnectionEntry>, hosts: Map<u32, Vec<u16>>) -> bool {
    &&& exists|order: Seq<u32>|
        order.no_duplicates() && order.to_set() == hosts.dom() && entries == #[trigger] hosts_in_turn(
            hosts,
            order,
        )
    &&& forall|i: int|
        0 <= i < entries.len() ==> #[trigger] hosts.contains_key(entries[i].addr) && hosts[entries[
            i].addr]@.contains(entries[i].port)
    &&& forall|ip: u32, j: int|
        #[trigger] hosts.contains_key(ip) && 0 <= j < hosts[ip]@.len() ==> entries.contains(
            ConnectionEntry { port: #[trigger] hosts[ip]@[j], addr: ip },
        )
}

/// The eBPF maps for all network policies that restrict the network, and the
/// identifier of each.
pub struct NetMapsPlan {
    pub host_maps: Vec<HostMapPlan>,
}

impl NetMapsPlan {
    /// The identifier of the policy named `name` of type `t`, if it has a host map.
    pub open spec fn spec_policy_id(&self, name: Seq<char>, t: int) -> Option<i32> {
        if exists|i: int|
            0 <= i < self.host_maps@.len() && #[trigger] self.host_maps@[i].name@ == name
                && self.host_maps@[i].policy_type == t {
            let i = choose|i: int|
                0 <= i < self.host_maps@.len() && #[trigger] self.host_maps@[i].name@ == name
                    && self.host_maps@[i].policy_type == t;
            Some(self.host_maps@[i].policy_id)
        } else {
            None
        }
    }

    /// Each host map has its position as identifier, and no name and type
    /// occur twice.
    pub open spec fn wf(&self) -> bool {
        &&& forall|i: int|
            0 <= i < self.host_maps@.len() ==> (#[trigger] self.host_maps@[i]).policy_id == i
        &&& forall|i: int, j: int|
            0 <= i < j < self.host_maps@.len() ==> !(#[trigger] self.host_maps@[i].name@
                == #[trigger] self.host_maps@[j].name@ && self.host_maps@[i].policy_type
                == self.host_maps@[j].policy_type)
    }

    /// The identifier of the policy named `name` of type `t`, if it has a host map.
    pub fn policy_id(&self, name: &String, t: usize) -> (r: Option<i32>)
        requires
            self.wf(),
        ensures
            r == self.spec_policy_id(name@, t as int),
    {
        let n = self.host_maps.len();
        let mut i: usize = 0;
        while i < n
            invariant
                n == self.host_maps@.len(),
                i <= n,
                self.wf(),
                forall|j: int|
                    0 <= j < i ==> !(#[trigger] self.host_maps@[j].name@ == name@
                        && self.host_maps@[j].policy_type == t),
            decreases n - i,
        {
            let h = &self.host_maps[i];
            if h.policy_type == t && h.name == *name {
                proof {
                    let c = choose|c: int|
                        0 <= c < self.host_maps@.len() && #[trigger] self.host_maps@[c].name@
                            == name@ && self.host_maps@[c].policy_type == t;
                    assert(self.host_maps@[i as int].name@ == name@);
                    if c != i {
                        if c < i {
                        } else {
                            assert(!(self.host_maps@[i as int].name@ == self.host_maps@[c].name@
                                && self.host_maps@[i as int].policy_type
                                == self.host_maps@[c].policy_type));
                        }
                    }
                }
                return Some(h.policy_id);
            }
            i = i + 1;
        }
        None
    }
}

/// The plan fits the network policies: there is one host map for each
/// policy that restricts the network, named and typed after it, holding its
/// hosts and ports, sized for its entries (at least one), and none other.
pub open spec fn plan_matches(ps: Seq<NetPolicyMap>, plan: NetMapsPlan) -> bool {
    &&& plan.wf()
    &&& forall|i: int|
        0 <= i < plan.host_maps@.len() ==> {
            let h = #[trigger] plan.host_maps@[i];
            &&& h.policy_type < ps.len()
            &&& ps[h.policy_type as int].view().contains_key(h.name@)
            &&& ps[h.policy_type as int].view()[h.name@] is Some
            &&& entries_match_hosts(
                h.entries@,
                (ps[h.policy_type as int].view()[h.name@]->0)@,
            )
            &&& h.max_entries == if h.entries@.len() == 0 {
                1
            } else {
                h.entries@.len()
            }
        }
    &&& forall|t: int, key: Seq<char>|
        0 <= t < ps.len() && #[trigger] ps[t].view().contains_key(key) && ps[t].view()[key] is Some
            ==> plan.spec_policy_id(key, t) is Some
}

/// A host map exists for the policy named `key` of type `t`.
pub open spec fn has_host_map(host_maps: Seq<HostMapPlan>, key: Seq<char>, t: int) -> bool {
    exists|k: int|
        0 <= k < host_maps.len() && #[trigger] host_maps[k].name@ == key && host_maps[k].policy_type
            == t
}

/// Plans the eBPF maps of the network policies: every policy that restricts
/// the network gets a host map of its own, with the next identifier (counting
/// from 0), listing each of its hosts with each of its ports; policies that
/// allow everything get none.
pub fn plan_bpf_maps(net_policy: &Vec<NetPolicyMap>) -> (plan: NetMapsPlan)
    requires
        forall|t: int| 0 <= t < net_policy@.len() ==> (#[trigger] net_policy@[t]).wf(),
        total_size(net_policy@, net_policy@.len() as int) <= i32::MAX,
    ensures
        plan_matches(net_policy@, plan),
        // At most one host map, so one identifier, per policy.
        plan.host_maps@.len() <= total_size(net_policy@, net_policy@.len() as int),
        // The identifiers follow the policy types, then the order of the policies in each map.
        forall|k1: int, k2: int|
            0 <= k1 < k2 < plan.host_maps@.len() ==> {
                let h1 = #[trigger] plan.host_maps@[k1];
                let h2 = #[trigger] plan.host_maps@[k2];
                ||| h1.policy_type < h2.policy_type
                ||| h1.policy_type == h2.policy_type && net_policy@[h1.policy_type as int].spec_keys().index_of(
                    h1.name@,
                ) < net_policy@[h1.policy_type as int].spec_keys().index_of(h2.name@)
            },
{
    let ghost ps = net_policy@;
    let mut host_maps: Vec<HostMapPlan> = Vec::new();
    let ghost mut src: Seq<(int, int)> = Seq::empty();
    let mut curr_policy_id: i32 = 0;
    let len = net_policy.len();
    let mut t: usize = 0;
    while t < len
        invariant
            ps == net_policy@,
            len == ps.len(),
            t <= len,
            forall|u: int| 0 <= u < ps.len() ==> (#[trigger] ps[u]).wf(),
            total_size(ps, len as int) <= i32::MAX,
            host_maps@.len() == src.len(),
            curr_policy_id == host_maps@.len(),
            host_maps@.len() <= total_size(ps, t as int),
            forall|k: int|
                0 <= k < src.len() ==> {
                    let (u, ii) = #[trigger] src[k];
                    &&& 0 <= u < t
                    &&& 0 <= ii < ps[u].size()
                    &&& host_maps@[k].policy_type == u
                    &&& host_maps@[k].name@ == ps[u].spec_keys()[ii]
                    &&& ps[u].spec_values()[ii] is Some
                    &&& host_maps@[k].policy_id == k
                    &&& entries_match_hosts(
                        host_maps@[k].entries@,
                        (ps[u].spec_values()[ii]->0)@,
                    )
                    &&& host_maps@[k].max_entries == if host_maps@[k].entries@.len() == 0 {
                        1
                    } else {
                        host_maps@[k].entries@.len()
                    }
                },
            forall|k1: int, k2: int|
                0 <= k1 < k2 < src.len() ==> (#[trigger] src[k1]).0 < (#[trigger] src[k2]).0 || (
                src[k1].0 == src[k2].0 && src[k1].1 < src[k2].1),
            forall|u: int, key: Seq<char>|
                0 <= u < t && #[trigger] ps[u].view().contains_key(key) && ps[u].view()[key] is Some
                    ==> has_host_map(host_maps@, key, u),
        decreases len - t,
    {
        let net_policies = &net_policy[t];
        let m = net_policies.len();
        let mut i: usize = 0;
        while i < m
            invariant
                ps == net_policy@,
                len == ps.len(),
                t < len,
                *net_policies == ps[t as int],
                net_policies.wf(),
                m == net_policies.size(),
                i <= m,
                forall|u: int| 0 <= u < ps.len() ==> (#[trigger] ps[u]).wf(),
                total_size(ps, len as int) <= i32::MAX,
                host_maps@.len() == src.len(),
                curr_policy_id == host_maps@.len(),
                host_maps@.len() <= total_size(ps, t as int) + i,
                forall|k: int|
                    0 <= k < src.len() ==> {
                        let (u, ii) = #[trigger] src[k];
                        &&& 0 <= u <= t
                        &&& 0 <= ii < ps[u].size()
                        &&& (u == t ==> ii < i)
                        &&& host_maps@[k].policy_type == u
                        &&& host_maps@[k].name@ == ps[u].spec_keys()[ii]
                        &&& ps[u].spec_values()[ii] is Some
                        &&& host_maps@[k].policy_id == k
                        &&& entries_match_hosts(
                            host_maps@[k].entries@,
                            (ps[u].spec_values()[ii]->0)@,
                        )
                        &&& host_maps@[k].max_entries == if host_maps@[k].entries@.len() == 0 {
                            1
                        } else {
                            host_maps@[k].entries@.len()
                        }
                    },
                forall|k1: int, k2: int|
                    0 <= k1 < k2 < src.len() ==> (#[trigger] src[k1]).0 < (#[trigger] src[k2]).0
                        || (src[k1].0 == src[k2].0 && src[k1].1 < src[k2].1),
                forall|u: int, key: Seq<char>|
                    0 <= u < t && #[trigger] ps[u].view().contains_key(key) && ps[u].view()[key] is Some
                        ==> has_host_map(host_maps@, key, u),
                forall|ii: int|
                    0 <= ii < i && (#[trigger] ps[t as int].spec_values()[ii]) is Some
                        ==> has_host_map(host_maps@, ps[t as int].spec_keys()[ii], t as int),
            decreases m - i,
        {
            let (policy_name, opt_host_policy) = net_policies.entry(i);
            // A policy that allows the whole network needs no host map.
            if let Some(hosts) = opt_host_policy {
                proof {
                    lemma_total_size_monotone(ps, t + 1, len as int);
                }
                let entries = host_entries(hosts);
                let nof_pairs = entries.len();
                let max_entries: usize = if nof_pairs == 0 {
                    1
                } else {
                    nof_pairs
                };
                let ghost k = host_maps@.len() as int;
                let ghost old_maps = host_maps@;
                host_maps.push(
                    HostMapPlan {
                        name: policy_name.clone(),
                        policy_type: t,
                        policy_id: curr_policy_id,
                        max_entries,
                        entries,
                    },
                );
                proof {
                    src = src.push((t as int, i as int));
                    assert forall|u: int, key: Seq<char>|
                        0 <= u < t && #[trigger] ps[u].view().contains_key(key)
                            && ps[u].view()[key] is Some implies has_host_map(host_maps@, key, u) by {
                        assert(has_host_map(old_maps, key, u));
                        let w = choose|w: int|
                            0 <= w < old_maps.len() && #[trigger] old_maps[w].name@ == key
                                && old_maps[w].policy_type == u;
                        assert(host_maps@[w] == old_maps[w]);
                    }
                    assert forall|ii: int|
                        0 <= ii < i + 1 && (#[trigger] ps[t as int].spec_values()[ii])
                            is Some implies has_host_map(
                        host_maps@,
                        ps[t as int].spec_keys()[ii],
                        t as int,
                    ) by {
                        if ii < i {
                            assert(has_host_map(old_maps, ps[t as int].spec_keys()[ii], t as int));
                            let w = choose|w: int|
                                0 <= w < old_maps.len() && #[trigger] old_maps[w].name@
                                    == ps[t as int].spec_keys()[ii] && old_maps[w].policy_type == t;
                            assert(host_maps@[w] == old_maps[w]);
                        } else {
                            assert(host_maps@[k].name@ == ps[t as int].spec_keys()[ii]);
                        }
                    }
                }
                curr_policy_id = curr_policy_id + 1;
            }
            i = i + 1;
        }
        proof {
            assert forall|key: Seq<char>|
                #[trigger] ps[t as int].view().contains_key(key) && ps[t as int].view()[key]
                    is Some implies has_host_map(host_maps@, key, t as int) by {
                let ii = ps[t as int].spec_keys().index_of(key);
                assert(ps[t as int].spec_keys().contains(key));
                assert(ps[t as int].spec_keys()[ii] == key);
                assert(ps[t as int].spec_values()[ii] is Some);
            }
        }
        t = t + 1;
    }
    let plan = NetMapsPlan { host_maps };
    proof {
        assert forall|k1: int, k2: int|
            0 <= k1 < k2 < plan.host_maps@.len() implies !(#[trigger] plan.host_maps@[k1].name@
            == #[trigger] plan.host_maps@[k2].name@ && plan.host_maps@[k1].policy_type
            == plan.host_maps@[k2].policy_type) by {
            let (u1, i1) = src[k1];
            let (u2, i2) = src[k2];
            if u1 == u2 {
                assert(ps[u1].spec_keys().no_duplicates());
            }
        }
        assert forall|k: int|
            0 <= k < plan.host_maps@.len() implies {
            let h = #[trigger] plan.host_maps@[k];
            &&& h.policy_type < ps.len()
            &&& ps[h.policy_type as int].view().contains_key(h.name@)
            &&& ps[h.policy_type as int].view()[h.name@] is Some
            &&& entries_match_hosts(h.entries@, (ps[h.policy_type as int].view()[h.name@]->0)@)
        } by {
            let (u, ii) = src[k];
            ps[u].lemma_entry_in_view(ii);
        }
        assert forall|k1: int, k2: int|
            0 <= k1 < k2 < plan.host_maps@.len() implies {
            let h1 = #[trigger] plan.host_maps@[k1];
            let h2 = #[trigger] plan.host_maps@[k2];
            ||| h1.policy_type < h2.policy_type
            ||| h1.policy_type == h2.policy_type && ps[h1.policy_type as int].spec_keys().index_of(
                h1.name@,
            ) < ps[h1.policy_type as int].spec_keys().index_of(h2.name@)
        } by {
            let (u1, i1) = src[k1];
            let (u2, i2) = src[k2];
            if u1 == u2 {
                let keys = ps[u1].spec_keys();
                assert(keys.contains(keys[i1]));
                assert(keys.contains(keys[i2]));
                let j1 = keys.index_of(keys[i1]);
                let j2 = keys.index_of(keys[i2]);
                assert(keys[j1] == keys[i1]);
                assert(keys[j2] == keys[i2]);
                assert(keys.no_duplicates());
            }
        }
        assert forall|k: int|
            0 <= k < plan.host_maps@.len() implies (#[trigger] plan.host_maps@[k]).policy_id == k by {
            let (u, ii) = src[k];
        }
        assert(plan.wf());
        assert forall|u: int, key: Seq<char>|
            0 <= u < ps.len() && #[trigger] ps[u].view().contains_key(key) && ps[u].view()[key]
                is Some implies plan.spec_policy_id(key, u) is Some by {
            assert(has_host_map(plan.host_maps@, key, u));
            let w = choose|w: int|
                0 <= w < plan.host_maps@.len() && #[trigger] plan.host_maps@[w].name@ == key
                    && plan.host_maps@[w].policy_type == u;
            assert(plan.host_maps@[w].name@ == key);
        }
        assert forall|k: int|
            0 <= k < plan.host_maps@.len() implies {
            let h = #[trigger] plan.host_maps@[k];
            h.max_entries == if h.entries@.len() == 0 {
                1
            } else {
                h.entries@.len()
            }
        } by {
            let (u, ii) = src[k];
        }
    }
    plan
}

/// The addresses of the pairs that a walk of a host map yields.
pub open spec fn iter_keys(s: Seq<(&u32, &Vec<u16>)>) -> Seq<u32> {
    s.map_values(|p: (&u32, &Vec<u16>)| *p.0)
}

/// The entries of the host map of `hosts`: each address with each of its
/// ports.
fn host_entries(hosts: &HashMap<u32, Vec<u16>>) -> (entries: Vec<ConnectionEntry>)
    ensures
        entries_match_hosts(entries@, hosts@),
{
    let mut entries: Vec<ConnectionEntry> = Vec::new();
    for pair in it: hosts.iter()
        invariant
            forall|i: int|
                0 <= i < entries@.len() ==> #[trigger] hosts@.contains_key(entries@[i].addr)
                    && hosts@[entries@[i].addr]@.contains(entries@[i].port),
            forall|k: int, j: int|
                0 <= k < it.index() && 0 <= j < (*it.seq()[k].1)@.len() ==> entries@.contains(
                    ConnectionEntry { port: #[trigger] (*it.seq()[k].1)@[j], addr: *it.seq()[k].0 },
                ),
            it.seq() == hosts.iter().remaining(),
            entries@ == hosts_in_turn(hosts@, iter_keys(it.seq().take(it.index()))),
    {
        let (ip, ports) = pair;
        let ghost idx = it.index();
        assert(it.seq()[idx] == (ip, ports));
        let ghost old_entries = entries@;
        proof {
            let v = hosts.iter().remaining();
            assert(hosts@.contains_key(*v[idx].0));
        }
        let m = ports.len();
        let mut j: usize = 0;
        while j < m
            invariant
                m == ports@.len(),
                j <= m,
                old_entries.len() <= entries@.len(),
                entries@.subrange(0, old_entries.len() as int) == old_entries,
                forall|jj: int|
                    0 <= jj < j ==> entries@.contains(
                        ConnectionEntry { port: #[trigger] ports@[jj], addr: *ip },
                    ),
                hosts@.contains_key(*ip),
                hosts@[*ip] == *ports,
                forall|i: int|
                    0 <= i < entries@.len() ==> #[trigger] hosts@.contains_key(entries@[i].addr)
                        && hosts@[entries@[i].addr]@.contains(entries@[i].port),
                entries@ == old_entries + port_entries(ports@.take(j as int), *ip),
            decreases m - j,
        {
            let ghost before = entries@;
            entries.push(ConnectionEntry { port: ports[j], addr: *ip });
            assert(port_entries(ports@.take(j + 1), *ip) =~= port_entries(ports@.take(j as int), *ip).push(
                ConnectionEntry { port: ports@[j as int], addr: *ip },
            ));
            assert(entries@[before.len() as int] == ConnectionEntry { port: ports@[j as int], addr: *ip });
            assert(hosts@[*ip]@[j as int] == ports@[j as int]);
            assert(hosts@[*ip]@.contains(ports@[j as int]));
            assert forall|i: int|
                0 <= i < entries@.len() implies #[trigger] hosts@.contains_key(entries@[i].addr)
                    && hosts@[entries@[i].addr]@.contains(entries@[i].port) by {
                if i < before.len() {
                    assert(entries@[i] == before[i]);
                }
            }
            assert forall|x: ConnectionEntry| before.contains(x) implies entries@.contains(x) by {
                let q = choose|q: int| 0 <= q < before.len() && before[q] == x;
                assert(entries@[q] == x);
            }
            assert(entries@.subrange(0, old_entries.len() as int) =~= old_entries) by {
                assert(before.subrange(0, old_entries.len() as int) == old_entries);
            }
            j = j + 1;
        }
        assert forall|x: ConnectionEntry| old_entries.contains(x) implies entries@.contains(x) by {
            let q = choose|q: int| 0 <= q < old_entries.len() && old_entries[q] == x;
            assert(entries@.subrange(0, old_entries.len() as int)[q] == x);
            assert(entries@[q] == x);
        }
        proof {
            let s0 = it.seq().take(idx);
            let s1 = it.seq().take(idx + 1);
            assert(s1.drop_last() =~= s0);
            assert(iter_keys(s1).drop_last() =~= iter_keys(s0));
            assert(iter_keys(s1).last() == *ip);
            assert(ports@.take(m as int) =~= ports@);
        }
    }
    proof {
        let v = hosts.iter().remaining();
        let order = iter_keys(v);
        assert(v.take(v.len() as int) =~= v);
        assert(order.no_duplicates()) by {
            assert forall|a: int, b: int| 0 <= a < order.len() && 0 <= b < order.len() && a != b implies order[a]
                != order[b] by {
                assert(hosts@.contains_key(*v[a].0));
                assert(hosts@.contains_key(*v[b].0));
                if order[a] == order[b] {
                    assert(v[a] == v[b]);
                }
            }
        }
        assert(order.to_set() =~= hosts@.dom()) by {
            assert forall|k: u32| hosts@.dom().contains(k) implies order.to_set().contains(k) by {
                assert(hosts@.contains_key(k));
                assert(v.contains((&k, &hosts@[k])));
                let q = choose|q: int| 0 <= q < v.len() && v[q] == (&k, &hosts@[k]);
                assert(order[q] == k);
            }
            assert forall|k: u32| order.to_set().contains(k) implies hosts@.dom().contains(k) by {
                let q = choose|q: int| 0 <= q < order.len() && order[q] == k;
                assert(hosts@.contains_key(*v[q].0));
            }
        }
        assert(entries@ == hosts_in_turn(hosts@, order));
    }
    assert forall|ip: u32, j: int|
        #[trigger] hosts@.contains_key(ip) && 0 <= j < hosts@[ip]@.len() implies entries@.contains(
            ConnectionEntry { port: #[trigger] hosts@[ip]@[j], addr: ip },
        ) by {
        let v = hosts.iter().remaining();
        assert(v.contains((&ip, &hosts@[ip])));
        let k = choose|k: int| 0 <= k < v.len() && v[k] == (&ip, &hosts@[ip]);
        assert((*v[k].1)@[j] == hosts@[ip]@[j]);
    }
    entries
}

/// The identifier of a policy names the host map built from it: the one of
/// that name and type, which holds the hosts and ports of the policy.
pub proof fn lemma_policy_id_selects_host_map(
    ps: Seq<NetPolicyMap>,
    plan: NetMapsPlan,
    name: Seq<char>,
    t: int,
    id: i32,
)
    requires
        plan_matches(ps, plan),
        plan.spec_policy_id(name, t) == Some(id),
    ensures
        0 <= id < plan.host_maps@.len(),
        plan.host_maps@[id as int].name@ == name,
        plan.host_maps@[id as int].policy_type == t,
        0 <= t < ps.len(),
        ps[t].view().contains_key(name),
        ps[t].view()[name] is Some,
        entries_match_hosts(plan.host_maps@[id as int].entries@, (ps[t].view()[name]->0)@),
{
    let i = choose|i: int|
        0 <= i < plan.host_maps@.len() && #[trigger] plan.host_maps@[i].name@ == name
            && plan.host_maps@[i].policy_type == t;
    assert(plan.host_maps@[i].policy_id == i);
}

/// No network policy applies to a caller.
#[derive(Copy, Clone, Debug, PartialEq, Eq, Structural)]
pub enum NetPolicyError {
    NoPolicyFound,
}

/// The identifier of the network policy that applies to a caller: the one
/// stored under its own name for its kind of caller, else, for a library
/// function, the one of its library; none when no network policy was loaded
/// or none applies.
pub open spec fn spec_net_get_policy(
    nof_policy_maps: nat,
    plan: NetMapsPlan,
    name: Seq<char>,
    library_name: Option<Seq<char>>,
) -> Option<i32> {
    if nof_policy_maps == 0 {
        None
    } else {
        let t = if library_name is Some {
            0
        } else {
            2
        };
        match plan.spec_policy_id(ns_name(name, library_name), t) {
            Some(id) => Some(id),
            None => if library_name is Some {
                plan.spec_policy_id(library_name->0, 1)
            } else {
                None
            },
        }
    }
}

/// The host map at `i` is the one of the policy named `name` of type `t`.
pub open spec fn has_map_at(plan: NetMapsPlan, i: int, name: Seq<char>, t: int) -> bool {
    0 <= i < plan.host_maps@.len() && plan.host_maps@[i].name@ == name
        && plan.host_maps@[i].policy_type == t
}

/// The type of a caller's own policies: library function, or subprocess.
pub open spec fn own_type(library_name: Option<Seq<char>>) -> int {
    if library_name is Some {
        0
    } else {
        2
    }
}

/// A caller's own host map comes first: when its namespaced name and type
/// have a host map, that map's identifier applies, whatever its library has;
/// a library function falls back to its library's host map only when it has
/// none of its own; with neither, or with no network policy loaded, none
/// applies.
pub proof fn lemma_net_own_policy_first(
    nof_policy_maps: nat,
    plan: NetMapsPlan,
    name: Seq<char>,
    library_name: Option<Seq<char>>,
)
    requires
        plan.wf(),
    ensures
        nof_policy_maps != 0 ==> forall|i: int|
            #[trigger] has_map_at(plan, i, ns_name(name, library_name), own_type(library_name))
                ==> spec_net_get_policy(nof_policy_maps, plan, name, library_name) == Some(
                plan.host_maps@[i].policy_id,
            ),
        nof_policy_maps != 0 && library_name is Some && (forall|j: int|
            !#[trigger] has_map_at(plan, j, ns_name(name, library_name), own_type(library_name)))
            ==> forall|i: int|
            #[trigger] has_map_at(plan, i, library_name->0, 1) ==> spec_net_get_policy(
                nof_policy_maps,
                plan,
                name,
                library_name,
            ) == Some(plan.host_maps@[i].policy_id),
        nof_policy_maps == 0 || ((forall|j: int|
            !#[trigger] has_map_at(plan, j, ns_name(name, library_name), own_type(library_name)))
            && (library_name is Some ==> forall|j: int|
            !#[trigger] has_map_at(plan, j, library_name->0, 1))) ==> spec_net_get_policy(
            nof_policy_maps,
            plan,
            name,
            library_name,
        ) is None,
{
    assert forall|i: int, nm: Seq<char>, t: int| #[trigger] has_map_at(plan, i, nm, t) implies plan.spec_policy_id(
        nm,
        t,
    ) == Some(plan.host_maps@[i].policy_id) by {
        lemma_spec_policy_id_at(plan, i);
    }
    let own = ns_name(name, library_name);
    let t = own_type(library_name);
    if forall|j: int| !#[trigger] has_map_at(plan, j, own, t) {
        assert(plan.spec_policy_id(own, t) is None) by {
            if exists|c: int|
                0 <= c < plan.host_maps@.len() && #[trigger] plan.host_maps@[c].name@ == own
                    && plan.host_maps@[c].policy_type == t {
                let c = choose|c: int|
                    0 <= c < plan.host_maps@.len() && #[trigger] plan.host_maps@[c].name@ == own
                        && plan.host_maps@[c].policy_type == t;
                assert(has_map_at(plan, c, own, t));
            }
        }
        if library_name is Some {
            let l = library_name->0;
            if forall|j: int| !#[trigger] has_map_at(plan, j, l, 1) {
                assert(plan.spec_policy_id(l, 1) is None) by {
                    if exists|c: int|
                        0 <= c < plan.host_maps@.len() && #[trigger] plan.host_maps@[c].name@ == l
                            && plan.host_maps@[c].policy_type == 1 {
                        let c = choose|c: int|
                            0 <= c < plan.host_maps@.len() && #[trigger] plan.host_maps@[c].name@
                                == l && plan.host_maps@[c].policy_type == 1;
                        assert(has_map_at(plan, c, l, 1));
                    }
                }
            }
        }
    }
}

/// The host map at `i` gives its own identifier.
proof fn lemma_spec_policy_id_at(plan: NetMapsPlan, i: int)
    requires
        plan.wf(),
        0 <= i < plan.host_maps@.len(),
    ensures
        plan.spec_policy_id(plan.host_maps@[i].name@, plan.host_maps@[i].policy_type as int) == Some(
            plan.host_maps@[i].policy_id,
        ),
{
    let nm = plan.host_maps@[i].name@;
    let t = plan.host_maps@[i].policy_type as int;
    let c = choose|c: int|
        0 <= c < plan.host_maps@.len() && #[trigger] plan.host_maps@[c].name@ == nm
            && plan.host_maps@[c].policy_type == t;
    assert(plan.host_maps@[i].name@ == nm);
    if c != i {
        if c < i {
            assert(!(plan.host_maps@[c].name@ == plan.host_maps@[i].name@
                && plan.host_maps@[c].policy_type == plan.host_maps@[i].policy_type));
        } else {
            assert(!(plan.host_maps@[i].name@ == plan.host_maps@[c].name@
                && plan.host_maps@[i].policy_type == plan.host_maps@[c].policy_type));
        }
    }
}

/// The identifier of the network policy (its host map) that applies to a
/// caller.
pub fn get_policy(
    net_policy: &Vec<NetPolicyMap>,
    policy_mapping: &NetMapsPlan,
    name: &String,
    library_name: Option<&String>,
) -> (r: Result<i32, NetPolicyError>)
    requires
        policy_mapping.wf(),
    ensures
        match r {
            Ok(id) => spec_net_get_policy(
                net_policy@.len(),
                *policy_mapping,
                name@,
                opt_view(library_name),
            ) == Some(id),
            Err(_) => spec_net_get_policy(
                net_policy@.len(),
                *policy_mapping,
                name@,
                opt_view(library_name),
            ) is None,
        },
        // The caller's own host map, when it has one, whatever its library has.
        net_policy@.len() != 0 ==> forall|i: int|
            #[trigger] has_map_at(
                *policy_mapping,
                i,
                ns_name(name@, opt_view(library_name)),
                own_type(opt_view(library_name)),
            ) ==> r == Ok::<i32, NetPolicyError>(policy_mapping.host_maps@[i].policy_id),
        // Else, for a library function, its library's host map.
        net_policy@.len() != 0 && library_name is Some && (forall|j: int|
            !#[trigger] has_map_at(
                *policy_mapping,
                j,
                ns_name(name@, opt_view(library_name)),
                own_type(opt_view(library_name)),
            )) ==> forall|i: int|
            #[trigger] has_map_at(*policy_mapping, i, opt_view(library_name)->0, 1) ==> r == Ok::<
                i32,
                NetPolicyError,
            >(policy_mapping.host_maps@[i].policy_id),
        // Else no network policy applies.
        net_policy@.len() == 0 || ((forall|j: int|
            !#[trigger] has_map_at(
                *policy_mapping,
                j,
                ns_name(name@, opt_view(library_name)),
                own_type(opt_view(library_name)),
            )) && (library_name is Some ==> forall|j: int|
            !#[trigger] has_map_at(*policy_mapping, j, opt_view(library_name)->0, 1))) ==> r
            == Err::<i32, NetPolicyError>(NetPolicyError::NoPolicyFound),
{
    proof {
        lemma_net_own_policy_first(net_policy@.len(), *policy_mapping, name@, opt_view(library_name));
    }
    let full_name = get_ns_name(name, library_name);
    // Do not try to sandbox when no policy is given.
    if net_policy.len() == 0 {
        return Err(NetPolicyError::NoPolicyFound);
    }
    let policy_type: usize = match library_name {
        Some(_) => 0,
        None => 2,
    };
    match policy_mapping.policy_id(&full_name, policy_type) {
        Some(policy_id) => Ok(policy_id),
        None => match library_name {
            // Fall back to the policy of the library.
            Some(library_name) => match policy_mapping.policy_id(library_name, 1) {
                Some(policy_id) => Ok(policy_id),
                None => Err(NetPolicyError::NoPolicyFound),
            },
            None => Err(NetPolicyError::NoPolicyFound),
        },
    }
}

/// The address families that no sandboxed program may open a socket of.
pub fn blocked_af_families() -> (v: Vec<i32>)
    ensures
        v@ == seq![
            3i32, 4, 5, 6, 7, 8, 9, 11, 12, 13, 14, 15, 17, 20, 22, 23, 24, 25, 26, 27, 28, 29, 30,
            31, 32, 33, 34, 35, 36, 37, 39, 42, 44,
        ],
{
    let v: Vec<i32> = vec![
        3,  // Amateur Radio AX.25
        4,  // Novell IPX
        5,  // AppleTalk DDP
        6,  // Amateur Radio NET/ROM
        7,  // Multiprotocol bridge
        8,  // ATM PVCs
        9,  // Reserved for X.25 project
        11,  // Amateur Radio X.25 PLP
        12,  // Reserved for DECnet project
        13,  // Reserved for 802.2LLC project
        14,  // Security callback pseudo AF
        15,  // PF_KEY key management API
        17,  // Packet family
        20,  // ATM SVCs
        22,  // Linux SNA Project
        23,  // IRDA sockets
        24,  // PPPoX sockets
        25,  // Wanpipe API Sockets
        26,  // Linux LLC
        27,  // Native InfiniBand address
        28,  // MPLS
        29,  // Controller Area Network
        30,  // TIPC sockets
        31,  // Bluetooth sockets
        32,  // IUCV sockets
        33,  // RxRPC sockets
        34,  // mISDN sockets
        35,  // Phonet sockets
        36,  // IEEE802154 sockets
        37,  // CAIF sockets
        39,  // NFC sockets
        42,  // Qualcomm IPC Router
        44,  // XDP sockets
    ];
    v
}

} // verus!
