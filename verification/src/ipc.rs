use vstd::prelude::*;

use crate::fs::{lookup_policy, opt_view, policy_maps_wf, spec_lookup_policy};
use crate::policy::{ns_name, specific_index, IpcPolicy, IpcPolicyWrapper, Policy};
use crate::strmap::StrMap;

verus! {

pub const FIFO: u8 = 0b00000001;

pub const MESSAGE: u8 = 0b00000010;

pub const SEMAPHORE: u8 = 0b00000100;

pub const SHMEM: u8 = 0b00001000;

pub const SIGNAL: u8 = 0b00010000;

pub const SOCKET: u8 = 0b00100000;

/// Every inter-process communication mechanism is allowed.
pub const ALLOW_ALL: u8 = FIFO | MESSAGE | SEMAPHORE | SHMEM | SIGNAL | SOCKET;

/// The number of mechanisms, one bit each.
pub const MECHANISM_COUNT: usize = 6;

/// A mechanism of inter-process communication, with the seccomp filter that
/// forbids it.
#[derive(Copy, Clone, Debug, PartialEq, Eq, Structural)]
pub enum IpcFilter {
    Fifo,
    Message,
    Semaphore,
    Shmem,
    Signal,
    Socket,
}

/// The mechanism of bit `i`.
pub open spec fn spec_filter_of_bit(i: int) -> IpcFilter {
    if i == 0 {
        IpcFilter::Fifo
    } else if i == 1 {
        IpcFilter::Message
    } else if i == 2 {
        IpcFilter::Semaphore
    } else if i == 3 {
        IpcFilter::Shmem
    } else if i == 4 {
        IpcFilter::Signal
    } else {
        IpcFilter::Socket
    }
}

impl IpcFilter {
    /// The mechanism of bit `i`.
    pub fn of_bit(i: usize) -> (f: IpcFilter)
        requires
            i < MECHANISM_COUNT,
        ensures
            f == spec_filter_of_bit(i as int),
    {
        if i == 0 {
            IpcFilter::Fifo
        } else if i == 1 {
            IpcFilter::Message
        } else if i == 2 {
            IpcFilter::Semaphore
        } else if i == 3 {
            IpcFilter::Shmem
        } else if i == 4 {
            IpcFilter::Signal
        } else {
            IpcFilter::Socket
        }
    }

    /// The name of the filter that forbids the mechanism.
    pub fn name(&self) -> (s: &'static str)
        ensures
            s@ == match self {
                IpcFilter::Fifo => "fifo"@,
                IpcFilter::Message => "message"@,
                IpcFilter::Semaphore => "semaphore"@,
                IpcFilter::Shmem => "shmem"@,
                IpcFilter::Signal => "signal"@,
                IpcFilter::Socket => "socket"@,
            },
    {
        match self {
            IpcFilter::Fifo => "fifo",
            IpcFilter::Message => "message",
            IpcFilter::Semaphore => "semaphore",
            IpcFilter::Shmem => "shmem",
            IpcFilter::Signal => "signal",
            IpcFilter::Socket => "socket",
        }
    }
}

/// Whether a policy allows the mechanism of bit `i` (0 fifo, 1 message,
/// 2 semaphore, 3 shared memory, 4 signal, 5 socket): all or nothing, or the
/// mechanism set to `true`; nothing when the policy says nothing of IPC.
pub open spec fn allows_mechanism(policy: Policy, i: int) -> bool {
    match policy.ipc {
        Some(IpcPolicyWrapper::Boolean(allow)) => allow,
        Some(IpcPolicyWrapper::IpcPolicy(ipc)) => {
            let flag = if i == 0 {
                ipc.fifo
            } else if i == 1 {
                ipc.message
            } else if i == 2 {
                ipc.semaphore
            } else if i == 3 {
                ipc.shmem
            } else if i == 4 {
                ipc.signal
            } else {
                ipc.socket
            };
            flag == Some(true)
        },
        None => false,
    }
}

/// Bit `i` of `mask` is set.
pub open spec fn bit_set(mask: u8, i: int) -> bool {
    (mask >> (i as u8)) & 1u8 == 1u8
}

proof fn lemma_mask_of_flags(b0: u8, b1: u8, b2: u8, b3: u8, b4: u8, b5: u8)
    by (bit_vector)
    requires
        b0 == 0 || b0 == 1,
        b1 == 0 || b1 == 2,
        b2 == 0 || b2 == 4,
        b3 == 0 || b3 == 8,
        b4 == 0 || b4 == 16,
        b5 == 0 || b5 == 32,
    ensures
        ({
            let m = b0 | b1 | b2 | b3 | b4 | b5;
            &&& ((m >> 0u8) & 1u8 == 1u8) == (b0 == 1)
            &&& ((m >> 1u8) & 1u8 == 1u8) == (b1 == 2)
            &&& ((m >> 2u8) & 1u8 == 1u8) == (b2 == 4)
            &&& ((m >> 3u8) & 1u8 == 1u8) == (b3 == 8)
            &&& ((m >> 4u8) & 1u8 == 1u8) == (b4 == 16)
            &&& ((m >> 5u8) & 1u8 == 1u8) == (b5 == 32)
            &&& (m & 1u8 != 0u8) == (b0 == 1)
            &&& (m & 2u8 != 0u8) == (b1 == 2)
            &&& (m & 4u8 != 0u8) == (b2 == 4)
            &&& (m & 8u8 != 0u8) == (b3 == 8)
            &&& (m & 16u8 != 0u8) == (b4 == 16)
            &&& (m & 32u8 != 0u8) == (b5 == 32)
            &&& m <= 63
        }),
{
}

proof fn lemma_allow_all()
    ensures
        ALLOW_ALL == 63,
{
    assert((1u8 | 2u8 | 4u8 | 8u8 | 16u8 | 32u8) == 63u8) by (bit_vector);
}

proof fn lemma_all_and_none()
    by (bit_vector)
    ensures
        forall|i: u8| i < 6 ==> (63u8 >> i) & 1u8 == 1u8,
        forall|i: u8| i < 6 ==> (0u8 >> i) & 1u8 == 0u8,
{
}

/// The bit of a flag that is set to `true`.
fn flag_bit(flag: Option<bool>, bit: u8) -> (r: u8)
    ensures
        r == (if flag == Some(true) {
            bit
        } else {
            0
        }),
{
    if let Some(f) = flag {
        if f {
            return bit;
        }
    }
    0
}

/// The set of mechanisms that a policy allows, one bit each.
pub fn ipc_policy_encoding(policy: &Policy) -> (r: u8)
    ensures
        r <= ALLOW_ALL,
        forall|i: int| 0 <= i < MECHANISM_COUNT ==> bit_set(r, i) == allows_mechanism(*policy, i),
        // Each mechanism's bit is set exactly when the policy sets that mechanism to `true`.
        policy.ipc matches Some(IpcPolicyWrapper::IpcPolicy(ipc)) ==> {
            &&& (r & FIFO != 0) == (ipc.fifo == Some(true))
            &&& (r & MESSAGE != 0) == (ipc.message == Some(true))
            &&& (r & SEMAPHORE != 0) == (ipc.semaphore == Some(true))
            &&& (r & SHMEM != 0) == (ipc.shmem == Some(true))
            &&& (r & SIGNAL != 0) == (ipc.signal == Some(true))
            &&& (r & SOCKET != 0) == (ipc.socket == Some(true))
        },
        policy.ipc matches Some(IpcPolicyWrapper::Boolean(allow)) ==> r == if allow {
            ALLOW_ALL
        } else {
            0u8
        },
        policy.ipc is None ==> r == 0,
{
    proof {
        lemma_all_and_none();
        lemma_allow_all();
    }
    match &policy.ipc {
        Some(ipc_wrapper) => match ipc_wrapper {
            IpcPolicyWrapper::Boolean(allow) => {
                if *allow {
                    ALLOW_ALL
                } else {
                    0
                }
            },
            IpcPolicyWrapper::IpcPolicy(ipc) => {
                let mut to_allow: u8 = 0;
                let b0 = flag_bit(ipc.fifo, FIFO);
                let b1 = flag_bit(ipc.message, MESSAGE);
                let b2 = flag_bit(ipc.semaphore, SEMAPHORE);
                let b3 = flag_bit(ipc.shmem, SHMEM);
                let b4 = flag_bit(ipc.signal, SIGNAL);
                let b5 = flag_bit(ipc.socket, SOCKET);
                to_allow |= b0;
                to_allow |= b1;
                to_allow |= b2;
                to_allow |= b3;
                to_allow |= b4;
                to_allow |= b5;
                proof {
                    lemma_mask_of_flags(b0, b1, b2, b3, b4, b5);
                    assert(to_allow == b0 | b1 | b2 | b3 | b4 | b5) by (bit_vector)
                        requires
                            to_allow == 0u8 | b0 | b1 | b2 | b3 | b4 | b5,
                    ;
                    assert(ALLOW_ALL == 63);
                }
                to_allow
            },
        },
        None => 0,
    }
}

/// Some policy forbids fifos or sockets, which takes the eBPF programs.
pub open spec fn spec_need_ipc_progs(ipc_policy: Seq<StrMap<u8>>) -> bool {
    exists|t: int, key: Seq<char>|
        0 <= t < ipc_policy.len() && #[trigger] ipc_policy[t].view().contains_key(key) && {
            let v = ipc_policy[t].view()[key];
            v & FIFO == 0 || v & SOCKET == 0
        }
}

/// Whether some policy forbids fifos or sockets.
pub fn need_ipc_progs(ipc_policy: &Vec<StrMap<u8>>) -> (r: bool)
    requires
        forall|t: int| 0 <= t < ipc_policy@.len() ==> (#[trigger] ipc_policy@[t]).wf(),
    ensures
        r == spec_need_ipc_progs(ipc_policy@),
        // The programs are needed as soon as one policy forbids fifos, or one forbids sockets.
        forall|t: int, key: Seq<char>|
            0 <= t < ipc_policy@.len() && #[trigger] ipc_policy@[t].view().contains_key(key)
                && ipc_policy@[t].view()[key] & FIFO == 0 ==> r,
        forall|t: int, key: Seq<char>|
            0 <= t < ipc_policy@.len() && #[trigger] ipc_policy@[t].view().contains_key(key)
                && ipc_policy@[t].view()[key] & SOCKET == 0 ==> r,
        // They are not needed when every policy allows both.
        (forall|t: int, key: Seq<char>|
            0 <= t < ipc_policy@.len() && #[trigger] ipc_policy@[t].view().contains_key(key) ==> (
            ipc_policy@[t].view()[key] & FIFO != 0 && ipc_policy@[t].view()[key] & SOCKET != 0))
            ==> !r,
{
    let n = ipc_policy.len();
    let mut t: usize = 0;
    while t < n
        invariant
            n == ipc_policy@.len(),
            t <= n,
            forall|u: int| 0 <= u < ipc_policy@.len() ==> (#[trigger] ipc_policy@[u]).wf(),
            forall|u: int, key: Seq<char>|
                0 <= u < t && #[trigger] ipc_policy@[u].view().contains_key(key) ==> {
                    let v = ipc_policy@[u].view()[key];
                    !(v & FIFO == 0 || v & SOCKET == 0)
                },
        decreases n - t,
    {
        let curr_policies = &ipc_policy[t];
        assert(curr_policies.wf());
        let m = curr_policies.len();
        let mut i: usize = 0;
        while i < m
            invariant
                0 <= t < ipc_policy@.len(),
                *curr_policies == ipc_policy@[t as int],
                m == curr_policies.size(),
                curr_policies.wf(),
                i <= m,
                forall|j: int|
                    0 <= j < i ==> {
                        let v = #[trigger] curr_policies.spec_values()[j];
                        !(v & FIFO == 0 || v & SOCKET == 0)
                    },
            decreases m - i,
        {
            let (_policy_name, policy) = curr_policies.entry(i);
            if *policy & FIFO == 0 || *policy & SOCKET == 0 {
                proof {
                    curr_policies.lemma_entry_in_view(i as int);
                    let key = curr_policies.spec_keys()[i as int];
                    assert(ipc_policy@[t as int].view().contains_key(key));
                }
                return true;
            }
            i = i + 1;
        }
        assert forall|key: Seq<char>|
            #[trigger] ipc_policy@[t as int].view().contains_key(key) implies {
                let v = ipc_policy@[t as int].view()[key];
                !(v & FIFO == 0 || v & SOCKET == 0)
            } by {
            let j = curr_policies.spec_keys().index_of(key);
            assert(curr_policies.spec_keys().contains(key));
            assert(curr_policies.spec_values()[j] == curr_policies.view()[key]);
        }
        t = t + 1;
    }
    false
}

/// The mechanisms allowed to a caller: those of the policy that applies to
/// it, all of them when none applies or no IPC policy was loaded.
pub open spec fn spec_ipc_get_policy(
    ipc_policy: Seq<StrMap<u8>>,
    name: Seq<char>,
    library_name: Option<Seq<char>>,
) -> u8 {
    if ipc_policy.len() == 0 {
        ALLOW_ALL
    } else {
        match spec_lookup_policy(ipc_policy, name, library_name) {
            Some(v) => v,
            None => ALLOW_ALL,
        }
    }
}

/// The mechanisms allowed to a caller.
pub fn get_policy(ipc_policy: &Vec<StrMap<u8>>, name: &String, library_name: Option<&String>) -> (r:
    u8)
    requires
        ipc_policy@.len() == 0 || policy_maps_wf(ipc_policy@),
    ensures
        r == spec_ipc_get_policy(ipc_policy@, name@, opt_view(library_name)),
        // The caller's own policy, when it has one.
        ipc_policy@.len() != 0 && ipc_policy@[specific_index(library_name)].view().contains_key(
            ns_name(name@, opt_view(library_name)),
        ) ==> r == ipc_policy@[specific_index(library_name)].view()[ns_name(
            name@,
            opt_view(library_name),
        )],
        // Else, for a library function, its library's policy.
        ipc_policy@.len() != 0 && !ipc_policy@[specific_index(library_name)].view().contains_key(
            ns_name(name@, opt_view(library_name)),
        ) && opt_view(library_name) is Some && ipc_policy@[1].view().contains_key(
            opt_view(library_name)->0,
        ) ==> r == ipc_policy@[1].view()[opt_view(library_name)->0],
        // Else no IPC sandbox: every mechanism is allowed.
        ipc_policy@.len() == 0 || (!ipc_policy@[specific_index(library_name)].view().contains_key(
            ns_name(name@, opt_view(library_name)),
        ) && (opt_view(library_name) is Some ==> !ipc_policy@[1].view().contains_key(
            opt_view(library_name)->0,
        ))) ==> r == ALLOW_ALL,
{
    // Do not sandbox when no policy is given.
    if ipc_policy.len() == 0 {
        return ALLOW_ALL;
    }
    match lookup_policy(ipc_policy, name, library_name) {
        Some(policy) => *policy,
        // Do not sandbox when no policy is given for this caller.
        None => ALLOW_ALL,
    }
}

/// The filters to apply for the first `n` mechanisms, in order: one for each
/// mechanism whose bit is clear.
pub open spec fn blocked_filters(to_allow: u8, n: int) -> Seq<IpcFilter>
    decreases n,
{
    if n <= 0 {
        Seq::empty()
    } else if bit_set(to_allow, n - 1) {
        blocked_filters(to_allow, n - 1)
    } else {
        blocked_filters(to_allow, n - 1).push(spec_filter_of_bit(n - 1))
    }
}

/// The seccomp filters that enforce `to_allow`: none when everything is
/// allowed, else one per forbidden mechanism, in bit order.
pub open spec fn spec_filters_to_apply(to_allow: u8) -> Seq<IpcFilter> {
    if to_allow == ALLOW_ALL {
        Seq::empty()
    } else {
        blocked_filters(to_allow, MECHANISM_COUNT as int)
    }
}

/// The seccomp filters to apply so that only the mechanisms in `to_allow`
/// remain.
pub fn filters_to_apply(to_allow: u8) -> (r: Vec<IpcFilter>)
    ensures
        r@ == spec_filters_to_apply(to_allow),
{
    let mut filters: Vec<IpcFilter> = Vec::new();
    if to_allow != ALLOW_ALL {
        let mut i: usize = 0;
        while i < MECHANISM_COUNT
            invariant
                i <= MECHANISM_COUNT,
                filters@ == blocked_filters(to_allow, i as int),
            decreases MECHANISM_COUNT - i,
        {
            let ib: u8 = i as u8;
            let bit: u8 = (to_allow >> ib) & 1u8;
            assert(ib == (i as int) as u8);
            assert(((to_allow >> ib) & 1u8) == 0u8 || ((to_allow >> ib) & 1u8) == 1u8)
                by (bit_vector);
            assert(bit_set(to_allow, i as int) == (bit == 1));
            let ghost prev = filters@;
            if bit == 0 {
                filters.push(IpcFilter::of_bit(i));
            }
            assert(blocked_filters(to_allow, i + 1) == if bit_set(to_allow, i as int) {
                blocked_filters(to_allow, i as int)
            } else {
                blocked_filters(to_allow, i as int).push(spec_filter_of_bit(i as int))
            });
            i = i + 1;
        }
    }
    filters
}

proof fn lemma_blocked_filters_contains(to_allow: u8, n: int, i: int)
    requires
        0 <= i < MECHANISM_COUNT,
        0 <= n <= MECHANISM_COUNT,
    ensures
        blocked_filters(to_allow, n).contains(spec_filter_of_bit(i)) <==> (i < n && !bit_set(
            to_allow,
            i,
        )),
    decreases n,
{
    if n > 0 {
        lemma_blocked_filters_contains(to_allow, n - 1, i);
        let prev = blocked_filters(to_allow, n - 1);
        if !bit_set(to_allow, n - 1) {
            let next = prev.push(spec_filter_of_bit(n - 1));
            assert(next[prev.len() as int] == spec_filter_of_bit(n - 1));
            if next.contains(spec_filter_of_bit(i)) && i != n - 1 {
                let q = choose|q: int| 0 <= q < next.len() && next[q] == spec_filter_of_bit(i);
                assert(q < prev.len());
                assert(prev[q] == spec_filter_of_bit(i));
            }
            if prev.contains(spec_filter_of_bit(i)) {
                let q = choose|q: int| 0 <= q < prev.len() && prev[q] == spec_filter_of_bit(i);
                assert(next[q] == prev[q]);
            }
        }
    }
}

/// The seccomp filter of a mechanism is applied exactly when the policy does
/// not allow the mechanism: for the mask that `ipc_policy_encoding` gives a
/// policy, `filters_to_apply` holds the filter of each mechanism that the
/// policy forbids, and no other.
pub proof fn lemma_filters_enforce_policy(policy: Policy, mask: u8)
    requires
        mask <= ALLOW_ALL,
        forall|i: int| 0 <= i < MECHANISM_COUNT ==> bit_set(mask, i) == allows_mechanism(policy, i),
    ensures
        forall|i: int|
            0 <= i < MECHANISM_COUNT ==> (spec_filters_to_apply(mask).contains(
                #[trigger] spec_filter_of_bit(i),
            ) <==> !allows_mechanism(policy, i)),
{
    lemma_allow_all();
    lemma_all_and_none();
    assert forall|i: int|
        0 <= i < MECHANISM_COUNT implies (spec_filters_to_apply(mask).contains(
        #[trigger] spec_filter_of_bit(i),
    ) <==> !allows_mechanism(policy, i)) by {
        lemma_blocked_filters_contains(mask, MECHANISM_COUNT as int, i);
        if mask == ALLOW_ALL {
            assert(bit_set(mask, i)) by {
                assert((i as u8) < 6);
            }
        }
    }
}

/// The mechanisms are numbered in the order of the policy's fields: fifo,
/// message, semaphore, shared memory, signal, socket; each is allowed by
/// `true` in its own field.
pub proof fn lemma_mechanisms_are_the_fields(policy: Policy, ipc: IpcPolicy)
    requires
        policy.ipc == Some(IpcPolicyWrapper::IpcPolicy(ipc)),
    ensures
        allows_mechanism(policy, 0) == (ipc.fifo == Some(true)),
        allows_mechanism(policy, 1) == (ipc.message == Some(true)),
        allows_mechanism(policy, 2) == (ipc.semaphore == Some(true)),
        allows_mechanism(policy, 3) == (ipc.shmem == Some(true)),
        allows_mechanism(policy, 4) == (ipc.signal == Some(true)),
        allows_mechanism(policy, 5) == (ipc.socket == Some(true)),
{
}

/// The IPC programs are needed exactly when some loaded policy forbids fifos
/// or some loaded policy forbids sockets.
pub proof fn lemma_ipc_programs_needed(ipc_policy: Seq<StrMap<u8>>)
    ensures
        spec_need_ipc_progs(ipc_policy) <==> (exists|t: int, key: Seq<char>|
            0 <= t < ipc_policy.len() && #[trigger] ipc_policy[t].view().contains_key(key)
                && ipc_policy[t].view()[key] & FIFO == 0) || (exists|t: int, key: Seq<char>|
            0 <= t < ipc_policy.len() && #[trigger] ipc_policy[t].view().contains_key(key)
                && ipc_policy[t].view()[key] & SOCKET == 0),
{
}

/// A caller to which no policy applies is not sandboxed for IPC: every
/// mechanism stays allowed, for a library function as for a subprocess; a
/// caller with a policy gets exactly that policy's mechanisms.
pub proof fn lemma_ipc_no_policy_allows_all(
    ipc_policy: Seq<StrMap<u8>>,
    name: Seq<char>,
    library_name: Option<Seq<char>>,
)
    ensures
        spec_lookup_policy(ipc_policy, name, library_name) is None ==> spec_ipc_get_policy(
            ipc_policy,
            name,
            library_name,
        ) == ALLOW_ALL,
        ipc_policy.len() != 0 && spec_lookup_policy(ipc_policy, name, library_name) is Some
            ==> spec_ipc_get_policy(ipc_policy, name, library_name) == spec_lookup_policy(
            ipc_policy,
            name,
            library_name,
        )->0,
{
}

} // verus!
