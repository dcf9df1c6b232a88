use vstd::prelude::*;

verus! {

/// Whether unstable APIs were enabled.
pub struct Unstable(pub bool);

/// A test's pledge of a narrower set of permissions: the permissions in
/// force before it, kept with the token that restores them.
pub struct PermissionsPledge<P> {
    holder: Option<(u128, P)>,
}

/// Restoring permissions found no pledge.
#[derive(Copy, Clone, Debug, PartialEq, Eq, Structural)]
pub enum RestoreError {
    NoPermissionsToRestore,
}

impl<P> PermissionsPledge<P> {
    /// The token and permissions kept, if a pledge is in force.
    pub closed spec fn spec_holder(&self) -> Option<(u128, P)> {
        self.holder
    }

    pub fn new() -> (s: Self)
        ensures
            s.spec_holder() is None,
    {
        PermissionsPledge { holder: None }
    }

    /// Whether a pledge is in force.
    pub fn is_pledged(&self) -> (r: bool)
        ensures
            r == self.spec_holder() is Some,
    {
        self.holder.is_some()
    }

    /// Keeps the parent's permissions under `token` while the test runs with
    /// its own; only one pledge can be in force.
    pub fn pledge(&mut self, token: u128, parent_permissions: P)
        requires
            old(self).spec_holder() is None,
        ensures
            final(self).spec_holder() == Some((token, parent_permissions)),
    {
        self.holder = Some((token, parent_permissions));
    }

    /// Hands back the permissions kept by the pledge, which must have been
    /// made with `token`; fails when no pledge is in force.
    pub fn restore(&mut self, token: u128) -> (r: Result<P, RestoreError>)
        requires
            old(self).spec_holder() matches Some(h) ==> h.0 == token,
        ensures
            final(self).spec_holder() is None,
            match old(self).spec_holder() {
                Some(h) => r == Ok::<P, RestoreError>(h.1),
                None => r == Err::<P, RestoreError>(RestoreError::NoPermissionsToRestore),
            },
    {
        match self.holder.take() {
            Some(holder) => Ok(holder.1),
            None => Err(RestoreError::NoPermissionsToRestore),
        }
    }
}

/// Restoring with the token of a pledge hands back exactly the permissions
/// that were pledged, and leaves no pledge in force.
pub proof fn lemma_restore_returns_pledged<P>(
    start: PermissionsPledge<P>,
    pledged: PermissionsPledge<P>,
    restored: PermissionsPledge<P>,
    token: u128,
    parent: P,
    r: Result<P, RestoreError>,
)
    requires
        start.spec_holder() is None,
        pledged.spec_holder() == Some((token, parent)),
        restored.spec_holder() is None,
        match pledged.spec_holder() {
            Some(h) => r == Ok::<P, RestoreError>(h.1),
            None => r == Err::<P, RestoreError>(RestoreError::NoPermissionsToRestore),
        },
    ensures
        r == Ok::<P, RestoreError>(parent),
        restored.spec_holder() == start.spec_holder(),
{
}

/// The answer to registering a benchmark.
#[derive(Copy, Clone, Debug, PartialEq, Eq, Structural)]
pub struct BenchRegisterResult {
    pub id: usize,
    pub filtered_out: bool,
}

/// The benchmarks registered so far: the next identifier to hand out, and
/// how many benchmarks pass the filter.
pub struct BenchRegistry {
    pub next_id: usize,
    pub registered: u8,
}

impl BenchRegistry {
    pub fn new() -> (r: BenchRegistry)
        ensures
            r.next_id == 0,
            r.registered == 0,
    {
        BenchRegistry { next_id: 0, registered: 0 }
    }

    /// Registers a benchmark that the filter includes or not: it gets the
    /// next identifier, and counts when it is included.
    pub fn register(&mut self, included: bool) -> (r: BenchRegisterResult)
        requires
            included ==> old(self).registered < u8::MAX,
        ensures
            r.id == old(self).next_id,
            r.filtered_out == !included,
            final(self).next_id == old(self).next_id.wrapping_add(1),
            final(self).registered == if included {
                old(self).registered + 1
            } else {
                old(self).registered as int
            },
    {
        let id = self.next_id;
        self.next_id = self.next_id.wrapping_add(1);
        let filtered_out = !included;
        if !filtered_out {
            self.registered = self.registered + 1;
        }
        BenchRegisterResult { id, filtered_out }
    }
}

} // verus!
