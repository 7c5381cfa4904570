//! The two interchangeable reference-count kinds behind one contract.
use xpcom::AtomicRefcnt;
use xpcom::RefCounted;
use xpcom::Refcnt;
use xpcom::RefcntCell;
use xpcom::RefcntKind;

#[test]
fn nonatomic_counter_counts() {
    let mut c = Refcnt::new();
    assert_eq!(c.read(), 0);
    assert_eq!(c.addref(), 1);
    assert_eq!(c.addref(), 2);
    assert_eq!(c.release(), 1);
    assert_eq!(c.release(), 0);
}

#[test]
fn atomic_counter_counts() {
    let mut c = AtomicRefcnt::new();
    assert_eq!(c.read(), 0);
    assert_eq!(c.addref(), 1);
    assert_eq!(c.release(), 0);
}

#[test]
fn cell_wraps_the_declared_kind() {
    let mut n = RefcntCell::new_of_kind(RefcntKind::NonAtomic);
    let mut a = RefcntCell::new_of_kind(RefcntKind::Atomic);
    assert!(matches!(n, RefcntCell::NonAtomic(_)));
    assert!(matches!(a, RefcntCell::Atomic(_)));
    assert_eq!(n.addref(), 1);
    assert_eq!(a.addref(), 1);
    assert_eq!(n.release(), 0);
    assert_eq!(a.release(), 0);
}
