//! Generation-time behavior: registry lookups, base-chain resolution,
//! attribute scanning, layout, and each generation error.
use xpcom::AttrKind;
use xpcom::Attribute;
use xpcom::FieldDecl;
use xpcom::GenError;
use xpcom::ISupports;
use xpcom::IURI;
use xpcom::InitDescriptor;
use xpcom::InterfaceMethods;
use xpcom::LayoutField;
use xpcom::RefcntKind;
use xpcom::Registry;
use xpcom::XpCom;
use xpcom::build_layout;
use xpcom::generate;
use xpcom::get_bases;
use xpcom::get_refcnt_type;
use xpcom::nsID;

fn sample_registry() -> Registry {
    let mut reg = Registry::new();
    assert!(reg.add(ISupports::interface()));
    assert!(reg.add(IURI::interface()));
    reg
}

fn attrs_for(bases: &[&str], refcnt: &str) -> Vec<Attribute> {
    let mut attrs = Vec::new();
    attrs.push(Attribute {
        name: "xpimplements".to_string(),
        kind: AttrKind::List(bases.iter().map(|s| s.to_string()).collect()),
    });
    attrs.push(Attribute {
        name: "refcnt".to_string(),
        kind: AttrKind::NameValue(refcnt.to_string()),
    });
    attrs
}

fn sample_init(bases: &[&str], refcnt: &str) -> InitDescriptor {
    InitDescriptor {
        name: "InitSample".to_string(),
        attrs: attrs_for(bases, refcnt),
        fields: vec![
            FieldDecl { name: "payload_a".to_string(), ty: "u64".to_string() },
            FieldDecl { name: "payload_b".to_string(), ty: "u64".to_string() },
        ],
        generic_params: 0,
    }
}

#[test]
fn registry_lookup_finds_entries() {
    let reg = sample_registry();
    assert_eq!(reg.len(), 2);
    assert_eq!(reg.lookup(&"ISupports".to_string()), Some(0));
    assert_eq!(reg.lookup(&"IURI".to_string()), Some(1));
    assert_eq!(reg.lookup(&"IAbsent".to_string()), None);
}

#[test]
fn registry_rejects_duplicates() {
    let mut reg = sample_registry();
    // Same name again.
    assert!(!reg.add(ISupports::interface()));
    // Fresh name, colliding identifier.
    let mut clash = IURI::interface();
    clash.name = "IOther".to_string();
    assert!(!reg.add(clash));
    assert_eq!(reg.len(), 2);
}

#[test]
fn resolve_chain_walks_to_root() {
    let reg = sample_registry();
    let chain = reg.resolve_chain(1).expect("IURI chain resolves");
    assert_eq!(chain, vec![1, 0]);
    let root_chain = reg.resolve_chain(0).expect("root chain resolves");
    assert_eq!(root_chain, vec![0]);
}

#[test]
fn resolve_chain_reports_unknown_base() {
    let mut reg = Registry::new();
    let mut orphan = IURI::interface();
    orphan.name = "IOrphan".to_string();
    orphan.iid = nsID(0x1, 0x2, 0x3, [0, 1, 2, 3, 4, 5, 6, 7]);
    // Base name "ISupports" is not present in this registry.
    assert!(reg.add(orphan));
    assert_eq!(reg.resolve_chain(0), Err(GenError::UnknownInterface));
}

#[test]
fn resolve_chain_reports_unsupported() {
    let mut reg = Registry::new();
    assert!(reg.add(ISupports::interface()));
    let mut scripted = IURI::interface();
    scripted.name = "IScripted".to_string();
    scripted.iid = nsID(0x10, 0x20, 0x30, [0, 1, 2, 3, 4, 5, 6, 7]);
    scripted.methods = InterfaceMethods::Unsupported("scriptable-only".to_string());
    assert!(reg.add(scripted));
    assert_eq!(reg.resolve_chain(1), Err(GenError::UnsupportedInterface));
}

#[test]
fn resolve_chain_reports_cycles() {
    let mut reg = Registry::new();
    let mut a = ISupports::interface();
    a.name = "ILeft".to_string();
    a.iid = nsID(0xa, 0, 0, [0; 8]);
    a.base = Some("IRight".to_string());
    let mut b = ISupports::interface();
    b.name = "IRight".to_string();
    b.iid = nsID(0xb, 0, 0, [0; 8]);
    b.base = Some("ILeft".to_string());
    assert!(reg.add(a));
    assert!(reg.add(b));
    assert_eq!(reg.resolve_chain(0), Err(GenError::CyclicBase));
}

#[test]
fn get_bases_collects_in_order() {
    let attrs = attrs_for(&["ISupports", "IURI"], "nonatomic");
    let bases = get_bases(&attrs);
    assert_eq!(bases, vec!["ISupports".to_string(), "IURI".to_string()]);
}

#[test]
fn get_bases_ignores_other_attributes() {
    let mut attrs = attrs_for(&["IURI"], "atomic");
    attrs.push(Attribute { name: "doc".to_string(), kind: AttrKind::Word });
    attrs.push(Attribute {
        name: "implements".to_string(),
        kind: AttrKind::List(vec!["INotThis".to_string()]),
    });
    assert_eq!(get_bases(&attrs), vec!["IURI".to_string()]);
}

#[test]
fn get_refcnt_type_parses_each_kind() {
    assert_eq!(get_refcnt_type(&attrs_for(&[], "nonatomic")), Ok(RefcntKind::NonAtomic));
    assert_eq!(get_refcnt_type(&attrs_for(&[], "atomic")), Ok(RefcntKind::Atomic));
    assert_eq!(get_refcnt_type(&attrs_for(&[], "cyclecollected")), Ok(RefcntKind::CycleCollected));
    assert_eq!(
        get_refcnt_type(&attrs_for(&[], "refcounted")),
        Err(GenError::MalformedAttribute)
    );
    let no_refcnt = vec![Attribute {
        name: "xpimplements".to_string(),
        kind: AttrKind::List(vec!["IURI".to_string()]),
    }];
    assert_eq!(get_refcnt_type(&no_refcnt), Err(GenError::MissingRequiredAttribute));
}

#[test]
fn layout_is_vtables_then_refcnt_then_payload() {
    let fields = vec![
        FieldDecl { name: "first".to_string(), ty: "u64".to_string() },
        FieldDecl { name: "second".to_string(), ty: "u64".to_string() },
    ];
    let layout = build_layout(2, &fields);
    assert_eq!(layout.len(), 5);
    assert!(matches!(layout[0], LayoutField::VTablePtr { direct_index: 0 }));
    assert!(matches!(layout[1], LayoutField::VTablePtr { direct_index: 1 }));
    assert!(matches!(layout[2], LayoutField::RefcntField));
    match &layout[3] {
        LayoutField::Payload { name } => assert_eq!(name, "first"),
        other => panic!("unexpected field {:?}", other),
    }
    match &layout[4] {
        LayoutField::Payload { name } => assert_eq!(name, "second"),
        other => panic!("unexpected field {:?}", other),
    }
}

#[test]
fn generate_rejects_generics_first() {
    let reg = sample_registry();
    let mut init = sample_init(&["ISupports"], "nonatomic");
    init.generic_params = 1;
    assert_eq!(generate(&reg, &init).err(), Some(GenError::GenericTypeRejected));
}

#[test]
fn generate_requires_an_interface() {
    let reg = sample_registry();
    let init = sample_init(&[], "nonatomic");
    assert_eq!(generate(&reg, &init).err(), Some(GenError::MissingRequiredAttribute));
}

#[test]
fn generate_requires_the_refcnt_attribute() {
    let reg = sample_registry();
    let mut init = sample_init(&["ISupports"], "nonatomic");
    init.attrs.retain(|a| a.name != "refcnt");
    assert_eq!(generate(&reg, &init).err(), Some(GenError::MissingRequiredAttribute));
}

#[test]
fn generate_rejects_bad_refcnt_value() {
    let reg = sample_registry();
    let init = sample_init(&["ISupports"], "shared");
    assert_eq!(generate(&reg, &init).err(), Some(GenError::MalformedAttribute));
}

#[test]
fn generate_rejects_cycle_collected() {
    let reg = sample_registry();
    let init = sample_init(&["ISupports"], "cyclecollected");
    assert_eq!(generate(&reg, &init).err(), Some(GenError::UnsupportedRefcnt));
}

#[test]
fn generate_requires_init_prefix() {
    let reg = sample_registry();
    let mut init = sample_init(&["ISupports"], "nonatomic");
    init.name = "Sample".to_string();
    assert_eq!(generate(&reg, &init).err(), Some(GenError::BadComponentName));
    init.name = "Init".to_string();
    assert_eq!(generate(&reg, &init).err(), Some(GenError::BadComponentName));
}

#[test]
fn generate_rejects_unknown_interface() {
    let reg = sample_registry();
    let init = sample_init(&["IAbsent"], "nonatomic");
    assert_eq!(generate(&reg, &init).err(), Some(GenError::UnknownInterface));
}

#[test]
fn generate_builds_the_declared_class() {
    let reg = sample_registry();
    let init = sample_init(&["ISupports", "IURI"], "nonatomic");
    let class = generate(&reg, &init).expect("generation succeeds");
    assert_eq!(class.name, "Sample");
    assert_eq!(class.direct, vec![0, 1]);
    assert_eq!(class.chains, vec![vec![0], vec![1, 0]]);
    assert_eq!(class.payload_fields, 2);
    assert_eq!(class.refcnt_kind, RefcntKind::NonAtomic);
    assert_eq!(class.layout.len(), 5);

    // The root's table holds exactly its three methods.
    assert_eq!(class.vtables[0].slots.len(), 3);
    for (s, slot) in class.vtables[0].slots.iter().enumerate() {
        assert_eq!(slot.iface, 0);
        assert_eq!(slot.method, s);
        assert_eq!(slot.owner_field, 0);
    }

    // The derived table embeds the root's table as a structural
    // prefix, then appends the derived methods — and its trampolines
    // carry the derived field's offset.
    assert_eq!(class.vtables[1].slots.len(), 10);
    for (s, slot) in class.vtables[1].slots.iter().enumerate() {
        if s < 3 {
            assert_eq!(slot.iface, 0);
            assert_eq!(slot.method, s);
        } else {
            assert_eq!(slot.iface, 1);
            assert_eq!(slot.method, s - 3);
        }
        assert_eq!(slot.owner_field, 1);
    }
}

#[test]
fn chain_iids_mirror_the_registry() {
    let reg = sample_registry();
    let init = sample_init(&["IURI"], "atomic");
    let class = generate(&reg, &init).expect("generation succeeds");
    assert_eq!(class.chains, vec![vec![1, 0]]);
    assert_eq!(class.chain_iids[0][0], IURI::iid());
    assert_eq!(class.chain_iids[0][1], ISupports::iid());
}

#[test]
fn interface_descriptors_are_fixed() {
    let root = ISupports::interface();
    assert_eq!(root.name, "ISupports");
    assert!(root.base.is_none());
    assert_eq!(
        root.iid,
        nsID(0x00000000, 0x0000, 0x0000, [0xc0, 0x00, 0x00, 0x00, 0x00, 0x00, 0x00, 0x46])
    );
    match &root.methods {
        InterfaceMethods::Supported(ms) => {
            let names: Vec<&str> = ms.iter().map(|m| m.name.as_str()).collect();
            assert_eq!(names, vec!["QueryInterface", "AddRef", "Release"]);
        }
        InterfaceMethods::Unsupported(_) => panic!("root must be implementable"),
    }

    let uri = IURI::interface();
    assert_eq!(uri.name, "IURI");
    assert_eq!(uri.base.as_deref(), Some("ISupports"));
    assert_eq!(uri.iid, nsID(0x92073a54, 0x6d78, 0x4f30, [0x91, 0x3a, 0xb8, 0x71, 0x81, 0x32, 0x08, 0xc6]));
    match &uri.methods {
        InterfaceMethods::Supported(ms) => assert_eq!(ms.len(), 7),
        InterfaceMethods::Unsupported(_) => panic!("sample interface must be implementable"),
    }
}

#[test]
fn identifiers_compare_bitwise() {
    let a = nsID(1, 2, 3, [4, 5, 6, 7, 8, 9, 10, 11]);
    let b = nsID(1, 2, 3, [4, 5, 6, 7, 8, 9, 10, 11]);
    let c = nsID(1, 2, 3, [4, 5, 6, 7, 8, 9, 10, 12]);
    assert!(a.matches(&b));
    assert!(a == b);
    assert!(!a.matches(&c));
    assert!(a != c);
}
