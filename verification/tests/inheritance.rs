//! A three-level base chain: the leaf's dispatch table embeds its
//! whole ancestry, and discovery reaches every level through the one
//! declared field.
use xpcom::AttrKind;
use xpcom::Attribute;
use xpcom::GenError;
use xpcom::InitDescriptor;
use xpcom::Interface;
use xpcom::InterfaceMethods;
use xpcom::Method;
use xpcom::Registry;
use xpcom::Runtime;
use xpcom::RuntimeError;
use xpcom::generate;
use xpcom::nsID;

fn iface(name: &str, seg: u32, base: Option<&str>, methods: &[&str]) -> Interface {
    Interface {
        name: name.to_string(),
        iid: nsID(seg, 0, 0, [0; 8]),
        base: base.map(|b| b.to_string()),
        methods: InterfaceMethods::Supported(
            methods
                .iter()
                .map(|m| Method {
                    name: m.to_string(),
                    params: Vec::new(),
                    ret: "nsresult".to_string(),
                })
                .collect(),
        ),
    }
}

fn deep_registry() -> Registry {
    let mut reg = Registry::new();
    assert!(reg.add(iface("IBase", 0xb0, None, &["first", "second"])));
    assert!(reg.add(iface("IMid", 0xb1, Some("IBase"), &["third"])));
    assert!(reg.add(iface("ILeaf", 0xb2, Some("IMid"), &["fourth", "fifth"])));
    reg
}

fn leaf_init() -> InitDescriptor {
    InitDescriptor {
        name: "InitDeep".to_string(),
        attrs: vec![
            Attribute {
                name: "xpimplements".to_string(),
                kind: AttrKind::List(vec!["ILeaf".to_string()]),
            },
            Attribute {
                name: "refcnt".to_string(),
                kind: AttrKind::NameValue("nonatomic".to_string()),
            },
        ],
        fields: vec![],
        generic_params: 0,
    }
}

#[test]
fn leaf_table_embeds_the_whole_ancestry() {
    let reg = deep_registry();
    let class = generate(&reg, &leaf_init()).expect("generation succeeds");
    assert_eq!(class.chains, vec![vec![2, 1, 0]]);

    // Root's methods first, then each level down, all trampolines
    // recovering through the single declared field.
    let slots = &class.vtables[0].slots;
    let ids: Vec<(usize, usize)> = slots.iter().map(|s| (s.iface, s.method)).collect();
    assert_eq!(ids, vec![(0, 0), (0, 1), (1, 0), (2, 0), (2, 1)]);
    assert!(slots.iter().all(|s| s.owner_field == 0));
}

#[test]
fn discovery_reaches_every_ancestor() {
    let reg = deep_registry();
    let base_iid = reg.get(0).iid;
    let mid_iid = reg.get(1).iid;
    let leaf_iid = reg.get(2).iid;
    let class = generate(&reg, &leaf_init()).expect("generation succeeds");
    let mut rt = Runtime::new(reg);
    let class_idx = rt.register_class(class);
    let owner = rt.allocate(class_idx, vec![]);
    let base = owner.get();

    // Every level of the chain resolves — to the one declared field.
    assert_eq!(rt.query_interface(base, &leaf_iid), Ok(base));
    assert_eq!(rt.query_interface(base, &mid_iid), Ok(base));
    assert_eq!(rt.query_interface(base, &base_iid), Ok(base));
    assert_eq!(rt.refcount_of(base), 4);

    // A stranger still misses.
    let absent = nsID(0xb3, 0, 0, [0; 8]);
    assert_eq!(rt.query_interface(base, &absent), Err(RuntimeError::NoInterfaceMatch));
    assert_eq!(rt.refcount_of(base), 4);

    // Dispatching any inherited slot lands on the component with the
    // declaring interface's identity.
    let second = rt.dispatch(base, 1).expect("root-declared slot");
    assert_eq!((second.this, second.iface, second.method), (base, 0, 1));
    let third = rt.dispatch(base, 2).expect("middle-declared slot");
    assert_eq!((third.this, third.iface, third.method), (base, 1, 0));
    let fifth = rt.dispatch(base, 4).expect("leaf-declared slot");
    assert_eq!((fifth.this, fifth.iface, fifth.method), (base, 2, 1));
}

#[test]
fn missing_middle_link_fails_generation() {
    let mut reg = Registry::new();
    assert!(reg.add(iface("IBase", 0xb0, None, &["first"])));
    assert!(reg.add(iface("ILeaf", 0xb2, Some("IMid"), &["fourth"])));
    assert_eq!(generate(&reg, &leaf_init()).err(), Some(GenError::UnknownInterface));
}
