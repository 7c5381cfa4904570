//! Invasive reference counting and the owning smart pointers over it.
//! The counter discipline is one contract with two interchangeable
//! implementations: a non-atomic counter for single-owner use and an
//! atomic counter that may also be shared across threads in the host
//! ABI. Callers are agnostic to the kind.
use vstd::prelude::*;

use crate::generator::RefcntKind;
use crate::runtime::Runtime;

verus! {

/// The reference-count contract: `addref` yields a strictly positive
/// new count; `release` decrements. The holder of the counter is
/// responsible for deallocating its object when `release` reaches
/// zero; releasing again afterward is a caller-contract violation and
/// is excluded by precondition, not checked at run time.
pub trait RefCounted {
    /// The current count.
    spec fn count(&self) -> u64;

    /// Retain once; returns the new, strictly positive count.
    fn addref(&mut self) -> (n: u64)
        requires
            old(self).count() < u64::MAX,
        ensures
            final(self).count() == old(self).count() + 1,
            n == final(self).count(),
            n > 0,
    ;

    /// Release once; returns the new count. A result of zero obliges
    /// the caller to deallocate, exactly once.
    fn release(&mut self) -> (n: u64)
        requires
            old(self).count() > 0,
        ensures
            final(self).count() == old(self).count() - 1,
            n == final(self).count(),
    ;
}

/// The non-atomic counter: correct for a single logical owner or
/// thread; concurrent use is a caller-contract violation, deliberately
/// unguarded for zero overhead.
#[derive(Clone, Copy, PartialEq, Eq, Structural, Debug)]
pub struct Refcnt {
    value: u64,
}

impl Refcnt {
    /// A fresh counter at zero; the allocation routine retains it to
    /// one before handing the object out.
    pub fn new() -> (r: Refcnt)
        ensures
            r.count() == 0,
    {
        Refcnt { value: 0 }
    }

    /// Observe the current count.
    pub fn read(&self) -> (n: u64)
        ensures
            n == self.count(),
    {
        self.value
    }
}

impl RefCounted for Refcnt {
    closed spec fn count(&self) -> u64 {
        self.value
    }

    fn addref(&mut self) -> (n: u64) {
        self.value = self.value + 1;
        self.value
    }

    fn release(&mut self) -> (n: u64) {
        self.value = self.value - 1;
        self.value
    }
}

/// The atomic counter: same contract as `Refcnt`; in the host ABI its
/// operations are atomic, so it may be retained and released from
/// several threads at once. This model exercises the sequential
/// contract the two kinds share.
#[derive(Clone, Copy, PartialEq, Eq, Structural, Debug)]
pub struct AtomicRefcnt {
    value: u64,
}

impl AtomicRefcnt {
    /// A fresh counter at zero.
    pub fn new() -> (r: AtomicRefcnt)
        ensures
            r.count() == 0,
    {
        AtomicRefcnt { value: 0 }
    }

    /// Observe the current count.
    pub fn read(&self) -> (n: u64)
        ensures
            n == self.count(),
    {
        self.value
    }
}

impl RefCounted for AtomicRefcnt {
    closed spec fn count(&self) -> u64 {
        self.value
    }

    fn addref(&mut self) -> (n: u64) {
        self.value = self.value + 1;
        self.value
    }

    fn release(&mut self) -> (n: u64) {
        self.value = self.value - 1;
        self.value
    }
}

/// The counter actually embedded in a component: whichever of the two
/// supported kinds the class declared.
#[derive(Clone, Copy, PartialEq, Eq, Structural, Debug)]
pub enum RefcntCell {
    NonAtomic(Refcnt),
    Atomic(AtomicRefcnt),
}

impl RefcntCell {
    /// The current count, whichever kind is inside.
    pub open spec fn count(self) -> u64 {
        match self {
            RefcntCell::NonAtomic(c) => c.count(),
            RefcntCell::Atomic(c) => c.count(),
        }
    }

    /// The kind of counter inside.
    pub open spec fn kind(self) -> RefcntKind {
        match self {
            RefcntCell::NonAtomic(_) => RefcntKind::NonAtomic,
            RefcntCell::Atomic(_) => RefcntKind::Atomic,
        }
    }

    /// A fresh counter of the kind the class declared, at zero.
    pub fn new_of_kind(kind: RefcntKind) -> (r: RefcntCell)
        requires
            kind != RefcntKind::CycleCollected,
        ensures
            r.count() == 0,
            r.kind() == kind,
    {
        match kind {
            RefcntKind::Atomic => RefcntCell::Atomic(AtomicRefcnt::new()),
            _ => RefcntCell::NonAtomic(Refcnt::new()),
        }
    }

    /// Retain once through the common contract.
    pub fn addref(&mut self) -> (n: u64)
        requires
            old(self).count() < u64::MAX,
        ensures
            final(self).count() == old(self).count() + 1,
            final(self).kind() == old(self).kind(),
            n == final(self).count(),
            n > 0,
    {
        match self {
            RefcntCell::NonAtomic(c) => c.addref(),
            RefcntCell::Atomic(c) => c.addref(),
        }
    }

    /// Release once through the common contract.
    pub fn release(&mut self) -> (n: u64)
        requires
            old(self).count() > 0,
        ensures
            final(self).count() == old(self).count() - 1,
            final(self).kind() == old(self).kind(),
            n == final(self).count(),
    {
        match self {
            RefcntCell::NonAtomic(c) => c.release(),
            RefcntCell::Atomic(c) => c.release(),
        }
    }
}

/// The owning smart pointer: a handle over an interface pointer whose
/// holder owns one reference to the component behind it. Constructing
/// one retains the component; releasing it releases the component,
/// exactly once. The pointer it holds is never null.
#[derive(PartialEq, Eq, Structural, Debug)]
pub struct RefPtr {
    /// The interface pointer held; treat it as opaque.
    pub raw: usize,
}

impl RefPtr {
    /// An owning pointer over a borrowed component reference: retains
    /// it. The count after construction is strictly positive.
    pub fn new(rt: &mut Runtime, p: usize) -> (r: RefPtr)
        requires
            old(rt)@.wf(),
            old(rt)@.valid_iface_ptr(p as int),
            old(rt)@.objects[old(rt)@.owner_of(p as int)].live,
            old(rt)@.objects[old(rt)@.owner_of(p as int)].count < u64::MAX,
        ensures
            final(rt)@.wf(),
            final(rt)@ == old(rt)@.addref_step(old(rt)@.owner_of(p as int)),
            r.raw == p,
    {
        rt.addref(p);
        RefPtr { raw: p }
    }

    /// An owning pointer from a raw pointer, retaining it; a null
    /// pointer yields nothing and changes nothing.
    pub fn from_raw(rt: &mut Runtime, p: usize) -> (r: Option<RefPtr>)
        requires
            old(rt)@.wf(),
            p != 0 ==> old(rt)@.valid_iface_ptr(p as int) && old(rt)@.objects[old(rt)@.owner_of(
                p as int,
            )].live && old(rt)@.objects[old(rt)@.owner_of(p as int)].count < u64::MAX,
        ensures
            final(rt)@.wf(),
            p == 0 ==> r is None && final(rt)@ == old(rt)@,
            p != 0 ==> r == Some(RefPtr { raw: p }) && final(rt)@ == old(rt)@.addref_step(
                old(rt)@.owner_of(p as int),
            ),
    {
        if p == 0 {
            return None;
        }
        rt.addref(p);
        Some(RefPtr { raw: p })
    }

    /// An owning pointer from a raw pointer *without* retaining it:
    /// adopt a reference that is already owned (for example one just
    /// allocated, or one transferred through an out-parameter). A null
    /// pointer yields nothing. The reference count is untouched.
    pub fn from_raw_dont_addref(p: usize) -> (r: Option<RefPtr>)
        ensures
            p == 0 ==> r is None,
            p != 0 ==> r == Some(RefPtr { raw: p }),
    {
        if p == 0 {
            None
        } else {
            Some(RefPtr { raw: p })
        }
    }

    /// The interface pointer held: the dereference of the smart
    /// pointer. Never null.
    pub fn get(&self) -> (p: usize)
        ensures
            p == self.raw,
    {
        self.raw
    }

    /// A second owning pointer to the same component: retains it, so
    /// the live count rises by exactly one. The component is freed
    /// only when the last owning pointer is released.
    pub fn clone_ref(&self, rt: &mut Runtime) -> (r: RefPtr)
        requires
            old(rt)@.wf(),
            old(rt)@.valid_iface_ptr(self.raw as int),
            old(rt)@.objects[old(rt)@.owner_of(self.raw as int)].live,
            old(rt)@.objects[old(rt)@.owner_of(self.raw as int)].count < u64::MAX,
        ensures
            final(rt)@.wf(),
            final(rt)@ == old(rt)@.addref_step(old(rt)@.owner_of(self.raw as int)),
            r.raw == self.raw,
    {
        rt.addref(self.raw);
        RefPtr { raw: self.raw }
    }

    /// Destruction: release the owned reference, exactly once. Drives
    /// the count down by one; at zero the component is deallocated.
    pub fn release(self, rt: &mut Runtime) -> (n: u64)
        requires
            old(rt)@.wf(),
            old(rt)@.valid_iface_ptr(self.raw as int),
            old(rt)@.objects[old(rt)@.owner_of(self.raw as int)].live,
        ensures
            final(rt)@.wf(),
            final(rt)@ == old(rt)@.release_step(old(rt)@.owner_of(self.raw as int)),
            n == old(rt)@.objects[old(rt)@.owner_of(self.raw as int)].count - 1,
    {
        rt.release(self.raw)
    }

    /// Hand the owned reference out as a raw pointer without releasing
    /// it: ownership moves to the caller, the count is untouched.
    pub fn forget(self) -> (p: usize)
        ensures
            p == self.raw,
    {
        self.raw
    }
}

/// The out-parameter holder: a scoped temporary owning a
/// not-yet-claimed pointer. It starts null, is filled in by an
/// external call through its exposed slot, and either transfers its
/// pointer into an owning smart pointer (no retain, no release) or
/// releases it exactly once when discarded unclaimed — so an early
/// error return cannot leak the reference.
#[derive(PartialEq, Eq, Structural, Debug)]
pub struct GetterAddrefs {
    /// The raw out-parameter slot an external call fills in.
    pub raw: usize,
}

impl GetterAddrefs {
    /// A fresh holder, initialized to the null pointer.
    pub fn new() -> (g: GetterAddrefs)
        ensures
            g.raw == 0,
    {
        GetterAddrefs { raw: 0 }
    }

    /// Expose the raw slot's address for an external call to fill in
    /// with a pointer it hands over.
    pub fn ptr(&mut self) -> (r: &mut usize)
        ensures
            *r == old(self).raw,
            final(self).raw == *final(r),
    {
        &mut self.raw
    }

    /// Claim the held pointer as an owning smart pointer, with no
    /// retain and no release: ownership moves, the count is unchanged.
    /// A still-null holder yields nothing.
    pub fn refptr(self) -> (r: Option<RefPtr>)
        ensures
            self.raw == 0 ==> r is None,
            self.raw != 0 ==> r == Some(RefPtr { raw: self.raw }),
    {
        RefPtr::from_raw_dont_addref(self.raw)
    }

    /// Scope exit without transfer: if the slot still holds a pointer,
    /// release it, exactly once; a null slot releases nothing.
    pub fn discard(self, rt: &mut Runtime)
        requires
            old(rt)@.wf(),
            self.raw != 0 ==> old(rt)@.valid_iface_ptr(self.raw as int) && old(rt)@.objects[old(
                rt,
            )@.owner_of(self.raw as int)].live,
        ensures
            final(rt)@.wf(),
            self.raw == 0 ==> final(rt)@ == old(rt)@,
            self.raw != 0 ==> final(rt)@ == old(rt)@.release_step(
                old(rt)@.owner_of(self.raw as int),
            ),
    {
        if self.raw != 0 {
            rt.release(self.raw);
        }
    }
}

} // verus!
