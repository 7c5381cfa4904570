//! Runtime behavior of generated components: layout, interface
//! discovery, dispatch through embedded base tables, reference
//! counting, owning pointers and the out-parameter holder.
use xpcom::AttrKind;
use xpcom::Attribute;
use xpcom::FieldDecl;
use xpcom::GetterAddrefs;
use xpcom::ISupports;
use xpcom::IURI;
use xpcom::InitDescriptor;
use xpcom::RefPtr;
use xpcom::Registry;
use xpcom::Runtime;
use xpcom::RuntimeError;
use xpcom::XpCom;
use xpcom::generate;
use xpcom::nsID;

/// A runtime holding one registered class that directly declares
/// `ISupports` (no base) and `IURI` (base `ISupports`), plus one
/// component of it, owned by the returned pointer.
fn scenario() -> (Runtime, usize, RefPtr) {
    let mut reg = Registry::new();
    assert!(reg.add(ISupports::interface()));
    assert!(reg.add(IURI::interface()));
    let init = InitDescriptor {
        name: "InitResource".to_string(),
        attrs: vec![
            Attribute {
                name: "xpimplements".to_string(),
                kind: AttrKind::List(vec!["ISupports".to_string(), "IURI".to_string()]),
            },
            Attribute {
                name: "refcnt".to_string(),
                kind: AttrKind::NameValue("nonatomic".to_string()),
            },
        ],
        fields: vec![FieldDecl { name: "value".to_string(), ty: "u64".to_string() }],
        generic_params: 0,
    };
    let class = generate(&reg, &init).expect("generation succeeds");
    let mut rt = Runtime::new(reg);
    let class_idx = rt.register_class(class);
    let owner = rt.allocate(class_idx, vec![7]);
    (rt, class_idx, owner)
}

#[test]
fn allocation_starts_at_count_one() {
    let (rt, _, owner) = scenario();
    let base = owner.get();
    assert!(base != 0);
    assert_eq!(rt.refcount_of(base), 1);
    assert!(rt.is_live(base));
}

#[test]
fn addref_release_restores_count() {
    let (mut rt, _, owner) = scenario();
    let base = owner.get();
    let up = rt.addref(base);
    assert_eq!(up, 2);
    let down = rt.release(base);
    assert_eq!(down, 1);
    assert_eq!(rt.refcount_of(base), 1);
    assert!(rt.is_live(base));
}

#[test]
fn release_to_zero_deallocates_once() {
    let (mut rt, _, owner) = scenario();
    let base = owner.get();
    let n = rt.release(base);
    assert_eq!(n, 0);
    assert!(!rt.is_live(base));
    assert_eq!(rt.refcount_of(base), 0);
}

#[test]
fn query_interface_hits_direct_and_base() {
    let (mut rt, _, owner) = scenario();
    let base = owner.get();

    // The derived interface resolves to its own field, the second
    // word of the component.
    let p_uri = rt.query_interface(base, &IURI::iid()).expect("IURI is implemented");
    assert_eq!(p_uri, base + 1);
    assert_eq!(rt.refcount_of(base), 2);

    // The root resolves to the first field, and counts up again.
    let p_sup = rt.query_interface(base, &ISupports::iid()).expect("root is implemented");
    assert_eq!(p_sup, base);
    assert_eq!(rt.refcount_of(base), 3);

    // Discovery works from any interface pointer of the object, not
    // only its base address.
    let p_again = rt.query_interface(p_uri, &IURI::iid()).expect("IURI via IURI pointer");
    assert_eq!(p_again, base + 1);
    assert_eq!(rt.refcount_of(base), 4);
}

#[test]
fn typed_discovery_claims_without_extra_retain() {
    let (mut rt, _, owner) = scenario();
    let base = owner.get();

    let uri = rt.query_interface_refptr(base, &IURI::iid()).expect("IURI is implemented");
    assert_eq!(uri.get(), base + 1);
    assert_eq!(rt.refcount_of(base), 2);

    let absent = nsID(0xfeedface, 0, 0, [0; 8]);
    assert!(rt.query_interface_refptr(base, &absent).is_none());
    assert_eq!(rt.refcount_of(base), 2);

    // Discovery by marker type goes through the same path.
    let root = xpcom::query_interface::<ISupports>(&mut rt, base).expect("root is implemented");
    assert_eq!(root.get(), base);
    assert_eq!(rt.refcount_of(base), 3);

    assert_eq!(root.release(&mut rt), 2);
    assert_eq!(uri.release(&mut rt), 1);
}

#[test]
fn query_interface_miss_leaves_count_alone() {
    let (mut rt, _, owner) = scenario();
    let base = owner.get();
    let absent = nsID(0xdeadbeef, 0x1234, 0x5678, [1, 2, 3, 4, 5, 6, 7, 8]);
    assert_eq!(rt.query_interface(base, &absent), Err(RuntimeError::NoInterfaceMatch));
    assert_eq!(rt.refcount_of(base), 1);
    assert!(rt.is_live(base));
}

#[test]
fn layout_and_vtable_words_are_canonical() {
    let (mut rt, class_idx, owner) = scenario();
    let base = owner.get();

    // The component's first words are its vtable pointers in
    // declaration order; the word each interface pointer addresses
    // holds that field's canonical static table address.
    let a_table = rt.class_table_addr(class_idx, 0);
    let b_table = rt.class_table_addr(class_idx, 1);
    assert!(a_table != b_table);
    assert_eq!(rt.get_vtable(base), a_table);
    assert_eq!(rt.get_vtable(base + 1), b_table);

    // Both discovery paths for the root yield a pointer whose first
    // machine word is the single canonical root table address.
    let p_sup = rt.query_interface(base, &ISupports::iid()).expect("root is implemented");
    assert_eq!(rt.get_vtable(p_sup), a_table);
}

#[test]
fn dispatch_through_base_prefix_agrees() {
    let (rt, _, owner) = scenario();
    let base = owner.get();

    // The root declares three methods; its table is a structural
    // prefix of the derived table, so slots 0..3 dispatch identically
    // through either interface pointer: same recovered component,
    // same method implementation.
    for slot in 0..3 {
        let via_root = rt.dispatch(base, slot).expect("dispatch through the root field");
        let via_derived = rt.dispatch(base + 1, slot).expect("dispatch through the derived field");
        assert_eq!(via_root, via_derived);
        assert_eq!(via_root.this, base);
        assert_eq!(via_root.iface, 0);
        assert_eq!(via_root.method, slot);
    }

    // Beyond the shared prefix, the derived table dispatches the
    // derived interface's own methods, still landing on the component.
    let own = rt.dispatch(base + 1, 3).expect("first derived method");
    assert_eq!(own.this, base);
    assert_eq!(own.iface, 1);
    assert_eq!(own.method, 0);
}

#[test]
fn dispatch_rejects_null() {
    let (rt, _, _owner) = scenario();
    assert_eq!(rt.dispatch(0, 0), Err(RuntimeError::NullArgument));
}

#[test]
fn coerce_is_static_and_count_neutral() {
    let (rt, _, owner) = scenario();
    let base = owner.get();
    // Registry index 0 is the root, 1 the derived interface.
    assert_eq!(rt.coerce(base, 0), base);
    assert_eq!(rt.coerce(base, 1), base + 1);
    assert_eq!(rt.coerce(base + 1, 0), base);
    assert_eq!(rt.refcount_of(base), 1);
}

#[test]
fn owning_pointers_track_the_live_count() {
    let (mut rt, _, owner) = scenario();
    let base = owner.get();

    let second = owner.clone_ref(&mut rt);
    assert_eq!(rt.refcount_of(base), 2);
    assert_eq!(second.get(), base);

    let third = RefPtr::new(&mut rt, base + 1);
    assert_eq!(rt.refcount_of(base), 3);

    assert_eq!(third.release(&mut rt), 2);
    assert_eq!(second.release(&mut rt), 1);
    assert!(rt.is_live(base));
    assert_eq!(owner.release(&mut rt), 0);
    assert!(!rt.is_live(base));
    assert_eq!(rt.refcount_of(base), 0);
}

#[test]
fn from_raw_retains_and_rejects_null() {
    let (mut rt, _, owner) = scenario();
    let base = owner.get();

    assert!(RefPtr::from_raw(&mut rt, 0).is_none());
    assert_eq!(rt.refcount_of(base), 1);

    let extra = RefPtr::from_raw(&mut rt, base).expect("non-null pointer is adopted");
    assert_eq!(rt.refcount_of(base), 2);
    assert_eq!(extra.get(), base);

    // Adoption without retaining: count stays put, and the forgotten
    // reference hands its pointer back unchanged.
    let adopted = RefPtr::from_raw_dont_addref(extra.forget()).expect("non-null");
    assert_eq!(rt.refcount_of(base), 2);
    assert_eq!(adopted.release(&mut rt), 1);
}

#[test]
fn getter_addrefs_transfers_without_retaining() {
    let (mut rt, _, owner) = scenario();
    let base = owner.get();

    // An external call fills the slot with a reference it already
    // owns: here, one we manufacture by retaining explicitly.
    rt.addref(base);
    let mut g = GetterAddrefs::new();
    assert_eq!(g.raw, 0);
    *g.ptr() = base;

    // Transfer: no retain, no release.
    let claimed = g.refptr().expect("slot was filled");
    assert_eq!(claimed.get(), base);
    assert_eq!(rt.refcount_of(base), 2);
    assert_eq!(claimed.release(&mut rt), 1);
}

#[test]
fn getter_addrefs_releases_unclaimed_exactly_once() {
    let (mut rt, _, owner) = scenario();
    let base = owner.get();

    rt.addref(base);
    assert_eq!(rt.refcount_of(base), 2);
    let mut g = GetterAddrefs::new();
    *g.ptr() = base;
    // Scope exit without transfer: the held reference is released.
    g.discard(&mut rt);
    assert_eq!(rt.refcount_of(base), 1);
    assert!(rt.is_live(base));

    // A never-filled holder releases nothing.
    let empty = GetterAddrefs::new();
    empty.discard(&mut rt);
    assert_eq!(rt.refcount_of(base), 1);
    drop(owner);
}

#[test]
fn two_components_count_independently() {
    let (mut rt, class_idx, first) = scenario();
    let second = rt.allocate(class_idx, vec![9]);
    let b1 = first.get();
    let b2 = second.get();
    assert!(b1 != b2);
    rt.addref(b2);
    assert_eq!(rt.refcount_of(b1), 1);
    assert_eq!(rt.refcount_of(b2), 2);
    assert_eq!(first.release(&mut rt), 0);
    assert!(!rt.is_live(b1));
    assert!(rt.is_live(b2));
}
