//! The process-wide service cache: an explicit context object with a
//! defined lifecycle in place of ambient mutable statics. Entries are
//! owned references to service components, keyed by class identifier.
//! A lookup is answered only on the cache's owning thread and only
//! before teardown has begun — otherwise it fails fast rather than
//! hand out a stale or null reference. Teardown releases every cached
//! entry exactly once and is idempotent.
use vstd::prelude::*;

use crate::base::nsCID;
use crate::base::nsID;
use crate::refptr::RefPtr;
use crate::runtime::Runtime;
use crate::runtime::RuntimeModel;
use crate::runtime::lemma_owner_unique;
use crate::runtime::lemma_step_preserves_wf_release;

verus! {

/// Why a cache lookup refused to answer.
#[derive(Clone, Copy, PartialEq, Eq, Structural, Debug)]
pub enum ServiceError {
    /// The lookup did not come from the cache's owning thread.
    NotOnOwningThread,
    /// Teardown has begun; no further lookups are served.
    TornDown,
}

/// The mathematical image of the cache.
#[verifier::ext_equal]
pub ghost struct CacheModel {
    pub entries: Seq<(nsID, int)>,
    pub torn_down: bool,
}

/// First cached pointer filed under `cid`, if any.
pub open spec fn find_service(entries: Seq<(nsID, int)>, cid: nsID) -> Option<int>
    decreases entries.len(),
{
    if entries.len() == 0 {
        None
    } else if entries[0].0 == cid {
        Some(entries[0].1)
    } else {
        find_service(entries.drop_first(), cid)
    }
}

/// The runtime after releasing each address of `addrs` once, in
/// order.
pub open spec fn release_list(m: RuntimeModel, addrs: Seq<int>) -> RuntimeModel
    decreases addrs.len(),
{
    if addrs.len() == 0 {
        m
    } else {
        release_list(m.release_step(m.owner_of(addrs[0])), addrs.drop_first())
    }
}

/// Releasing one object leaves every interface pointer resolving as
/// before: owners are recovered from bases and layouts, which a
/// release does not touch.
pub proof fn lemma_release_keeps_resolution(m: RuntimeModel, k: int, p: int)
    requires
        m.wf(),
        0 <= k < m.objects.len(),
        m.objects[k].count > 0,
        m.valid_iface_ptr(p),
    ensures
        m.release_step(k).valid_iface_ptr(p),
        m.release_step(k).owner_of(p) == m.owner_of(p),
{
    let m2 = m.release_step(k);
    lemma_step_preserves_wf_release(m, k);
    assert forall|u: int| m2.owns(u, p) <==> m.owns(u, p) by {
        if 0 <= u < m.objects.len() {
            assert(m2.objects[u].base == m.objects[u].base);
            assert(m2.objects[u].class == m.objects[u].class);
            assert(m2.obj_n_direct(u) == m.obj_n_direct(u));
        }
    }
    let o = m.owner_of(p);
    assert(m.owns(o, p));
    assert(m2.owns(o, p));
    assert(m2.valid_iface_ptr(p));
    let o2 = m2.owner_of(p);
    assert(m2.owns(o2, p));
    assert(m.owns(o2, p));
    lemma_owner_unique(m, o, o2, p);
}

/// The service cache.
pub struct ServiceCache {
    entries: Vec<(nsID, usize)>,
    torn_down: bool,
}

impl View for ServiceCache {
    type V = CacheModel;

    closed spec fn view(&self) -> CacheModel {
        CacheModel {
            entries: self.entries@.map_values(|e: (nsID, usize)| (e.0, e.1 as int)),
            torn_down: self.torn_down,
        }
    }
}

impl ServiceCache {
    /// A fresh, empty cache; teardown has not begun.
    pub fn new() -> (c: ServiceCache)
        ensures
            c@.entries.len() == 0,
            !c@.torn_down,
    {
        ServiceCache { entries: Vec::new(), torn_down: false }
    }

    /// The fail-fast rule: a lookup is served only on the owning
    /// thread and only while teardown has not begun.
    pub fn lookup_allowed(&self, on_owning_thread: bool) -> (r: bool)
        ensures
            r == (on_owning_thread && !self@.torn_down),
    {
        on_owning_thread && !self.torn_down
    }

    /// Look a service up by class identifier. Refused — never a stale
    /// or null answer — off the owning thread or once teardown has
    /// begun; otherwise the first cached pointer under that
    /// identifier, or `None` for the caller to acquire and `insert`.
    pub fn get(&self, cid: &nsCID, on_owning_thread: bool) -> (r: Result<
        Option<usize>,
        ServiceError,
    >)
        ensures
            !on_owning_thread ==> r == Err::<Option<usize>, ServiceError>(
                ServiceError::NotOnOwningThread,
            ),
            on_owning_thread && self@.torn_down ==> r == Err::<Option<usize>, ServiceError>(
                ServiceError::TornDown,
            ),
            on_owning_thread && !self@.torn_down ==> match find_service(self@.entries, *cid) {
                Some(p) => r == Ok::<Option<usize>, ServiceError>(Some(p as usize)),
                None => r == Ok::<Option<usize>, ServiceError>(None),
            },
    {
        if !on_owning_thread {
            return Err(ServiceError::NotOnOwningThread);
        }
        if self.torn_down {
            return Err(ServiceError::TornDown);
        }
        let n = self.entries.len();
        let mut i: usize = 0;
        proof {
            assert(self@.entries.skip(0) == self@.entries);
        }
        while i < n
            invariant
                on_owning_thread,
                !self@.torn_down,
                n == self@.entries.len(),
                i <= n,
                find_service(self@.entries, *cid) == find_service(
                    self@.entries.skip(i as int),
                    *cid,
                ),
            decreases n - i,
        {
            proof {
                assert(self@.entries.skip(i as int)[0] == self@.entries[i as int]);
                assert(self@.entries.skip(i as int).drop_first() =~= self@.entries.skip(i + 1));
                assert(self@.entries[i as int] == (
                    self.entries@[i as int].0,
                    self.entries@[i as int].1 as int,
                ));
            }
            if self.entries[i].0.matches(cid) {
                return Ok(Some(self.entries[i].1));
            }
            i += 1;
        }
        proof {
            assert(self@.entries.skip(n as int).len() == 0);
        }
        Ok(None)
    }

    /// File an acquired service under its class identifier: the cache
    /// takes over the owned reference, with no retain or release.
    /// Refused once teardown has begun; the caller keeps the
    /// reference then.
    pub fn insert(&mut self, cid: nsCID, service: RefPtr) -> (r: Result<(), RefPtr>)
        ensures
            final(self)@.torn_down == old(self)@.torn_down,
            old(self)@.torn_down ==> r == Err::<(), RefPtr>(service) && final(self)@
                == old(self)@,
            !old(self)@.torn_down ==> r == Ok::<(), RefPtr>(()) && final(self)@.entries
                == old(self)@.entries.push((cid, service.raw as int)),
    {
        if self.torn_down {
            return Err(service);
        }
        let ghost prev = self@.entries;
        self.entries.push((cid, service.forget()));
        proof {
            assert(self@.entries =~~= prev.push((cid, self.entries@.last().1 as int)));
        }
        Ok(())
    }

    /// The single teardown: release every cached reference, exactly
    /// once each, empty the cache, and refuse all further lookups.
    /// Calling it again releases nothing: it is idempotent.
    pub fn teardown(&mut self, rt: &mut Runtime)
        requires
            old(rt)@.wf(),
            forall|i: int|
                0 <= i < old(self)@.entries.len() ==> old(rt)@.valid_iface_ptr(
                    (#[trigger] old(self)@.entries[i]).1,
                ),
            forall|i: int|
                0 <= i < old(self)@.entries.len() ==> old(rt)@.objects[old(rt)@.owner_of(
                    (#[trigger] old(self)@.entries[i]).1,
                )].live,
            forall|i1: int, i2: int|
                0 <= i1 < i2 < old(self)@.entries.len() ==> old(rt)@.owner_of(
                    (#[trigger] old(self)@.entries[i1]).1,
                ) != old(rt)@.owner_of((#[trigger] old(self)@.entries[i2]).1),
        ensures
            final(rt)@.wf(),
            final(self)@.entries.len() == 0,
            final(self)@.torn_down,
            final(rt)@ == release_list(
                old(rt)@,
                old(self)@.entries.map_values(|e: (nsID, int)| e.1),
            ),
    {
        let ghost m0 = rt@;
        let ghost addrs = self@.entries.map_values(|e: (nsID, int)| e.1);
        self.torn_down = true;
        let n = self.entries.len();
        let mut i: usize = 0;
        proof {
            assert(addrs.skip(0) == addrs);
        }
        while i < n
            invariant
                n == addrs.len(),
                i <= n,
                self@.entries.map_values(|e: (nsID, int)| e.1) == addrs,
                self@.entries.len() == n,
                rt@.wf(),
                release_list(m0, addrs) == release_list(rt@, addrs.skip(i as int)),
                forall|u: int|
                    i <= u < n ==> rt@.valid_iface_ptr(#[trigger] addrs[u]),
                forall|u: int|
                    i <= u < n ==> rt@.objects[rt@.owner_of(#[trigger] addrs[u])].live,
                forall|u1: int, u2: int|
                    i <= u1 < u2 < n ==> rt@.owner_of(#[trigger] addrs[u1]) != rt@.owner_of(
                        #[trigger] addrs[u2],
                    ),
            decreases n - i,
        {
            let p = self.entries[i].1;
            proof {
                assert(self@.entries[i as int] == (
                    self.entries@[i as int].0,
                    self.entries@[i as int].1 as int,
                ));
                assert(addrs[i as int] == p as int);
                assert(addrs.skip(i as int)[0] == addrs[i as int]);
                assert(addrs.skip(i as int).drop_first() =~= addrs.skip(i + 1));
            }
            let ghost mcur = rt@;
            let ghost kk = mcur.owner_of(p as int);
            rt.release(p);
            proof {
                assert(mcur.objects[kk].count > 0) by {
                    assert(mcur.object_wf(kk));
                }
                assert forall|u: int| i + 1 <= u < n implies rt@.valid_iface_ptr(
                    #[trigger] addrs[u],
                ) && rt@.objects[rt@.owner_of(addrs[u])].live by {
                    lemma_release_keeps_resolution(mcur, kk, addrs[u]);
                    assert(rt@.owner_of(addrs[u]) == mcur.owner_of(addrs[u]));
                    assert(mcur.owner_of(addrs[u]) != kk);
                    assert(rt@.objects[mcur.owner_of(addrs[u])] == mcur.objects[mcur.owner_of(
                        addrs[u],
                    )]);
                }
                assert forall|u1: int, u2: int| i + 1 <= u1 < u2 < n implies rt@.owner_of(
                    #[trigger] addrs[u1],
                ) != rt@.owner_of(#[trigger] addrs[u2]) by {
                    lemma_release_keeps_resolution(mcur, kk, addrs[u1]);
                    lemma_release_keeps_resolution(mcur, kk, addrs[u2]);
                }
            }
            i += 1;
        }
        self.entries.clear();
        proof {
            assert(addrs.skip(n as int).len() == 0);
        }
    }
}

} // verus!
