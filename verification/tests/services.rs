//! The process-wide service cache: fail-fast lookups and the single
//! idempotent teardown.
use xpcom::AttrKind;
use xpcom::Attribute;
use xpcom::ISupports;
use xpcom::InitDescriptor;
use xpcom::RefPtr;
use xpcom::Registry;
use xpcom::Runtime;
use xpcom::ServiceCache;
use xpcom::ServiceError;
use xpcom::generate;
use xpcom::nsID;

fn service_cid() -> nsID {
    nsID(0x9ac9e770, 0x18bc, 0x11d3, [0x93, 0x37, 0x00, 0x10, 0x4b, 0xa0, 0xfd, 0x40])
}

fn runtime_with_service() -> (Runtime, RefPtr) {
    let mut reg = Registry::new();
    assert!(reg.add(ISupports::interface()));
    let init = InitDescriptor {
        name: "InitIoService".to_string(),
        attrs: vec![
            Attribute {
                name: "xpimplements".to_string(),
                kind: AttrKind::List(vec!["ISupports".to_string()]),
            },
            Attribute {
                name: "refcnt".to_string(),
                kind: AttrKind::NameValue("atomic".to_string()),
            },
        ],
        fields: vec![],
        generic_params: 0,
    };
    let class = generate(&reg, &init).expect("generation succeeds");
    let mut rt = Runtime::new(reg);
    let class_idx = rt.register_class(class);
    let owner = rt.allocate(class_idx, vec![]);
    (rt, owner)
}

#[test]
fn lookup_fails_fast_off_the_owning_thread() {
    let cache = ServiceCache::new();
    assert!(cache.lookup_allowed(true));
    assert!(!cache.lookup_allowed(false));
    assert_eq!(cache.get(&service_cid(), false), Err(ServiceError::NotOnOwningThread));
}

#[test]
fn cache_miss_then_hit() {
    let (mut rt, owner) = runtime_with_service();
    let base = owner.get();
    let mut cache = ServiceCache::new();
    assert_eq!(cache.get(&service_cid(), true), Ok(None));

    // The caller acquires the service and files it: ownership moves
    // into the cache, with no extra retain.
    let for_cache = owner.clone_ref(&mut rt);
    assert_eq!(rt.refcount_of(base), 2);
    assert!(cache.insert(service_cid(), for_cache).is_ok());
    assert_eq!(rt.refcount_of(base), 2);
    assert_eq!(cache.get(&service_cid(), true), Ok(Some(base)));

    // An unrelated identifier still misses.
    let other = nsID(1, 2, 3, [0; 8]);
    assert_eq!(cache.get(&other, true), Ok(None));
    drop(owner);
}

#[test]
fn teardown_releases_and_closes_the_cache() {
    let (mut rt, owner) = runtime_with_service();
    let base = owner.get();
    let mut cache = ServiceCache::new();
    let for_cache = owner.clone_ref(&mut rt);
    assert!(cache.insert(service_cid(), for_cache).is_ok());
    assert_eq!(rt.refcount_of(base), 2);

    // Teardown releases every cached entry exactly once and refuses
    // further lookups.
    cache.teardown(&mut rt);
    assert_eq!(rt.refcount_of(base), 1);
    assert!(rt.is_live(base));
    assert_eq!(cache.get(&service_cid(), true), Err(ServiceError::TornDown));
    assert!(!cache.lookup_allowed(true));

    // A second teardown releases nothing: idempotent.
    cache.teardown(&mut rt);
    assert_eq!(rt.refcount_of(base), 1);

    // Insertion after teardown hands the reference back.
    let late = owner.clone_ref(&mut rt);
    assert_eq!(rt.refcount_of(base), 2);
    let refused = cache.insert(service_cid(), late).expect_err("cache is closed");
    assert_eq!(refused.release(&mut rt), 1);
    assert_eq!(owner.release(&mut rt), 0);
    assert!(!rt.is_live(base));
}
