//! The component generator: from a payload record declaration and the
//! attributes naming its directly-implemented interfaces, produce the
//! component class — the concrete storage layout (vtable-pointer fields
//! in declaration order, then the reference-count field, then the
//! payload fields), the resolved base chain of every declared
//! interface, and one synthesized dispatch table per declared
//! interface. Generation validates everything against the registry and
//! aborts eagerly on the first inconsistency.
use vstd::prelude::*;

use crate::base::nsID;
use crate::registry::GenError;
use crate::registry::Registry;
use crate::registry::chain_ok;
use crate::registry::find_name;
use crate::registry::lemma_walk_chain_ok;
use crate::registry::walk_chain;
use crate::vtable::VTable;
use crate::vtable::flatten_ids;
use crate::vtable::synthesize_vtable;
use crate::vtable::table_ids;

verus! {

/// The payload of one attribute on the payload record.
#[derive(Clone, Debug)]
pub enum AttrKind {
    /// A bare attribute word.
    Word,
    /// A `name = "value"` attribute.
    NameValue(String),
    /// A `name(item, item, ...)` attribute.
    List(Vec<String>),
}

/// One attribute on the payload record declaration.
#[derive(Clone, Debug)]
pub struct Attribute {
    pub name: String,
    pub kind: AttrKind,
}

/// One payload field of the record: a name and a type name.
#[derive(Clone, Debug)]
pub struct FieldDecl {
    pub name: String,
    pub ty: String,
}

/// The declaration the generator consumes: the initializer record's
/// name (which must begin with `Init`), its attributes, its payload
/// fields, and the number of type parameters it was declared with.
#[derive(Clone, Debug)]
pub struct InitDescriptor {
    pub name: String,
    pub attrs: Vec<Attribute>,
    pub fields: Vec<FieldDecl>,
    pub generic_params: usize,
}

/// Which reference-count discipline the component uses. The atomic and
/// non-atomic kinds satisfy one interface; only the atomic kind may be
/// shared across threads. The cycle-collected kind is recognized but
/// unsupported.
#[derive(Clone, Copy, PartialEq, Eq, Structural, Debug)]
pub enum RefcntKind {
    Atomic,
    NonAtomic,
    CycleCollected,
}

impl RefcntKind {
    /// Whether a component of this kind can be generated.
    pub fn supported(&self) -> (r: bool)
        ensures
            r == (*self != RefcntKind::CycleCollected),
    {
        match *self {
            RefcntKind::CycleCollected => false,
            _ => true,
        }
    }
}

/// One field of the generated concrete layout, in layout order. Word
/// `k` of a component holds the field `layout[k]` describes.
#[derive(Clone, Debug)]
pub enum LayoutField {
    /// The vtable pointer of the component's `direct_index`-th directly
    /// declared interface.
    VTablePtr { direct_index: usize },
    /// The invasive reference-count field.
    RefcntField,
    /// One payload field, moved over from the initializer record.
    Payload { name: String },
}

/// The interface names declared by `xpimplements` attributes, in
/// attribute and item order.
pub open spec fn bases_of(attrs: Seq<Attribute>) -> Seq<Seq<char>>
    decreases attrs.len(),
{
    if attrs.len() == 0 {
        Seq::empty()
    } else {
        let rest = bases_of(attrs.drop_first());
        match attrs[0].kind {
            AttrKind::List(items) => {
                if attrs[0].name@ == "xpimplements"@ {
                    items@.map_values(|s: String| s@) + rest
                } else {
                    rest
                }
            },
            _ => rest,
        }
    }
}

/// The value of the first `refcnt` name-value attribute, if any.
pub open spec fn refcnt_attr(attrs: Seq<Attribute>) -> Option<Seq<char>>
    decreases attrs.len(),
{
    if attrs.len() == 0 {
        None
    } else {
        match attrs[0].kind {
            AttrKind::NameValue(v) => {
                if attrs[0].name@ == "refcnt"@ {
                    Some(v@)
                } else {
                    refcnt_attr(attrs.drop_first())
                }
            },
            _ => refcnt_attr(attrs.drop_first()),
        }
    }
}

/// The counter kind a `refcnt` attribute value names, if it names one.
pub open spec fn refcnt_kind_of(v: Seq<char>) -> Option<RefcntKind> {
    if v == "nonatomic"@ {
        Some(RefcntKind::NonAtomic)
    } else if v == "atomic"@ {
        Some(RefcntKind::Atomic)
    } else if v == "cyclecollected"@ {
        Some(RefcntKind::CycleCollected)
    } else {
        None
    }
}

/// Whether `name` begins with the `Init` prefix and carries a nonempty
/// component name after it.
pub open spec fn init_named(name: Seq<char>) -> bool {
    name.len() > 4 && name.subrange(0, 4) == "Init"@
}

/// The validation outcome of resolving the declared interface names in
/// order: the first failure (unknown name, unimplementable descriptor,
/// or cyclic base link), or success.
pub open spec fn chains_outcome(reg: Seq<crate::registry::Interface>, names: Seq<Seq<char>>, k: int) -> Result<(), GenError>
    decreases names.len() - k,
{
    if k < 0 || k >= names.len() {
        Ok(())
    } else {
        let i = find_name(reg, names[k]);
        if i < 0 {
            Err(GenError::UnknownInterface)
        } else {
            match walk_chain(reg, i, reg.len()) {
                Ok(_) => chains_outcome(reg, names, k + 1),
                Err(e) => Err(e),
            }
        }
    }
}

/// Which error, if any, generating from `init` against `reg` runs
/// into, checking in the order the generator checks: generic payload,
/// empty interface list, reference-count attribute, record name,
/// counter kind, then each declared interface in order.
pub open spec fn generate_outcome(reg: Seq<crate::registry::Interface>, init: InitDescriptor) -> Result<
    (),
    GenError,
> {
    if init.generic_params != 0 {
        Err(GenError::GenericTypeRejected)
    } else if bases_of(init.attrs@).len() == 0 {
        Err(GenError::MissingRequiredAttribute)
    } else if refcnt_attr(init.attrs@) is None {
        Err(GenError::MissingRequiredAttribute)
    } else if refcnt_kind_of(refcnt_attr(init.attrs@)->Some_0) is None {
        Err(GenError::MalformedAttribute)
    } else if !init_named(init.name@) {
        Err(GenError::BadComponentName)
    } else if refcnt_kind_of(refcnt_attr(init.attrs@)->Some_0)->Some_0 == RefcntKind::CycleCollected {
        Err(GenError::UnsupportedRefcnt)
    } else {
        chains_outcome(reg, bases_of(init.attrs@), 0)
    }
}

/// The generated component class: everything the runtime needs to
/// instantiate and dispatch components of one concrete type. A
/// component of this class occupies `direct.len() + 1 + payload_fields`
/// words: its vtable pointers in declaration order, its reference
/// count, then its payload.
#[derive(Clone, Debug)]
pub struct ComponentClass {
    /// The component type's name (the initializer's name with `Init`
    /// stripped).
    pub name: String,
    /// Registry indices of the directly declared interfaces, in
    /// declaration order.
    pub direct: Vec<usize>,
    /// The resolved base chain of each directly declared interface,
    /// derived interface first.
    pub chains: Vec<Vec<usize>>,
    /// The identifiers of the interfaces along each chain, parallel to
    /// `chains`.
    pub chain_iids: Vec<Vec<nsID>>,
    /// One synthesized dispatch table per directly declared interface;
    /// the table at index `j` is installed at word offset `j`.
    pub vtables: Vec<VTable>,
    /// The concrete field layout, in word order.
    pub layout: Vec<LayoutField>,
    /// How many payload fields follow the reference-count field.
    pub payload_fields: usize,
    /// The reference-count discipline of this class.
    pub refcnt_kind: RefcntKind,
}

impl ComponentClass {
    /// The chain of direct interface `j`, as mathematical integers.
    pub open spec fn chain_ints(self, j: int) -> Seq<int> {
        self.chains@[j]@.map_values(|x: usize| x as int)
    }

    /// Number of directly declared interfaces, i.e. of vtable-pointer
    /// fields.
    pub open spec fn n_direct(self) -> nat {
        self.direct@.len()
    }

    /// Total size of a component of this class, in words.
    pub open spec fn spec_size(self) -> nat {
        (self.n_direct() + 1 + self.payload_fields) as nat
    }

    /// Well-formedness of the class against the registry it was
    /// generated from: parallel tables, well-formed chains whose
    /// identifiers come from the registry, dispatch tables that flatten
    /// their chain with the owning field's offset precomputed into
    /// every trampoline, and the fixed layout order.
    pub open spec fn wf(self, reg: Seq<crate::registry::Interface>) -> bool {
        let n = self.n_direct() as int;
        &&& 1 <= n
        &&& self.refcnt_kind != RefcntKind::CycleCollected
        &&& self.chains@.len() == n
        &&& self.chain_iids@.len() == n
        &&& self.vtables@.len() == n
        &&& forall|j: int| 0 <= j < n ==> #[trigger] self.chain_ints(j).len() >= 1
        &&& forall|j: int|
            0 <= j < n ==> chain_ok(reg, self.direct@[j] as int, #[trigger] self.chain_ints(j))
        &&& forall|j: int|
            0 <= j < n ==> (#[trigger] self.chain_iids@[j])@.len() == self.chain_ints(j).len()
        &&& forall|j: int, t: int|
            0 <= j < n && 0 <= t < self.chain_ints(j).len() ==> (#[trigger] self.chain_iids@[j]@[t])
                == reg[self.chain_ints(j)[t]].iid
        &&& forall|j: int|
            0 <= j < n ==> table_ids(#[trigger] self.vtables@[j]@) == flatten_ids(
                reg,
                self.chain_ints(j),
            )
        &&& forall|j: int, s: int|
            0 <= j < n && 0 <= s < self.vtables@[j]@.len() ==> (#[trigger] self.vtables@[j]@[s]).owner_field == j
        &&& self.layout@.len() == self.spec_size()
        &&& forall|k: int|
            0 <= k < n ==> ((#[trigger] self.layout@[k]) matches LayoutField::VTablePtr {
                direct_index,
            } && direct_index == k)
        &&& self.layout@[n] is RefcntField
        &&& forall|k: int|
            n + 1 <= k < self.layout@.len() ==> (#[trigger] self.layout@[k]) is Payload
    }
}

/// True when `s` reads exactly as the literal `lit`.
fn str_is(s: &String, lit: &str) -> (r: bool)
    ensures
        r == (s@ == lit@),
{
    let owned: String = lit.to_owned();
    s.eq(&owned)
}

/// Scan the attributes for `xpimplements(...)` lists and collect the
/// named interfaces, in order: the interfaces the record directly
/// implements.
pub fn get_bases(attrs: &Vec<Attribute>) -> (r: Vec<String>)
    ensures
        r@.map_values(|s: String| s@) == bases_of(attrs@),
{
    let mut out: Vec<String> = Vec::new();
    let n = attrs.len();
    let mut i: usize = 0;
    while i < n
        invariant
            n == attrs@.len(),
            i <= n,
            out@.map_values(|s: String| s@) == bases_of(attrs@.subrange(0, i as int)),
        decreases n - i,
    {
        let ghost prefix = attrs@.subrange(0, i as int);
        match &attrs[i].kind {
            AttrKind::List(items) => {
                if str_is(&attrs[i].name, "xpimplements") {
                    let m = items.len();
                    let mut k: usize = 0;
                    while k < m
                        invariant
                            m == items@.len(),
                            k <= m,
                            i < n,
                            n == attrs@.len(),
                            out@.map_values(|s: String| s@) == bases_of(
                                attrs@.subrange(0, i as int),
                            ) + items@.subrange(0, k as int).map_values(|s: String| s@),
                            attrs@[i as int].kind matches AttrKind::List(it) && it@ == items@,
                        decreases m - k,
                    {
                        let ghost prevout = out@;
                        out.push(items[k].clone());
                        proof {
                            assert(out@ == prevout.push(items@[k as int]));
                            assert(out@.map_values(|s: String| s@) =~= prevout.map_values(
                                |s: String| s@,
                            ).push(items@[k as int]@));
                            assert(items@.subrange(0, k + 1).map_values(|s: String| s@)
                                =~= items@.subrange(0, k as int).map_values(|s: String| s@).push(
                                items@[k as int]@,
                            ));
                            assert(out@.map_values(|s: String| s@) =~= bases_of(
                                attrs@.subrange(0, i as int),
                            ) + items@.subrange(0, k + 1).map_values(|s: String| s@));
                        }
                        k += 1;
                    }
                    proof {
                        assert(items@.subrange(0, m as int) =~= items@);
                    }
                }
            },
            _ => {},
        }
        i += 1;
        proof {
            lemma_bases_of_snoc(attrs@, i as int);
        }
    }
    proof {
        assert(attrs@.subrange(0, n as int) =~= attrs@);
    }
    out
}

/// Unfolding `bases_of` one attribute at the end: the names declared by
/// the first `i` attributes are those of the first `i - 1` plus
/// whatever attribute `i - 1` contributes.
proof fn lemma_bases_of_snoc(attrs: Seq<Attribute>, i: int)
    requires
        0 < i <= attrs.len(),
    ensures
        bases_of(attrs.subrange(0, i)) == bases_of(attrs.subrange(0, i - 1)) + (
        match attrs[i - 1].kind {
            AttrKind::List(items) => {
                if attrs[i - 1].name@ == "xpimplements"@ {
                    items@.map_values(|s: String| s@)
                } else {
                    Seq::empty()
                }
            },
            _ => Seq::empty(),
        }),
    decreases i,
{
    let pre = attrs.subrange(0, i);
    if i == 1 {
        assert(pre.drop_first() =~= attrs.subrange(0, 0));
        assert(bases_of(attrs.subrange(0, 0)) == Seq::<Seq<char>>::empty());
        match attrs[0].kind {
            AttrKind::List(items) => {
                if attrs[0].name@ == "xpimplements"@ {
                    assert(bases_of(pre) =~= Seq::<Seq<char>>::empty() + items@.map_values(
                        |s: String| s@,
                    ));
                    assert(bases_of(pre) =~= items@.map_values(|s: String| s@));
                    assert(bases_of(attrs.subrange(0, 0)) + items@.map_values(|s: String| s@)
                        =~= items@.map_values(|s: String| s@));
                } else {
                    assert(bases_of(pre) =~= Seq::<Seq<char>>::empty());
                }
            },
            _ => {
                assert(bases_of(pre) =~= Seq::<Seq<char>>::empty());
            },
        }
    } else {
        lemma_bases_of_snoc(attrs.drop_first(), i - 1);
        assert(pre.drop_first() =~= attrs.drop_first().subrange(0, i - 1));
        assert(attrs.subrange(0, i - 1).drop_first() =~= attrs.drop_first().subrange(0, i - 2));
        assert(pre[0] == attrs[0]);
        assert(attrs.subrange(0, i - 1)[0] == attrs[0]);
        assert(attrs.drop_first()[i - 2] == attrs[i - 1]);
    }
}

/// Scan the attributes for the required `refcnt = "..."` attribute and
/// parse which counter kind it names. Absent: the record lacks a
/// required attribute. A value naming no kind: the attribute is
/// malformed.
pub fn get_refcnt_type(attrs: &Vec<Attribute>) -> (r: Result<RefcntKind, GenError>)
    ensures
        match refcnt_attr(attrs@) {
            None => r == Err::<RefcntKind, GenError>(GenError::MissingRequiredAttribute),
            Some(v) => match refcnt_kind_of(v) {
                Some(k) => r == Ok::<RefcntKind, GenError>(k),
                None => r == Err::<RefcntKind, GenError>(GenError::MalformedAttribute),
            },
        },
{
    let n = attrs.len();
    let mut i: usize = 0;
    proof {
        assert(attrs@.skip(0) == attrs@);
    }
    while i < n
        invariant
            n == attrs@.len(),
            i <= n,
            refcnt_attr(attrs@) == refcnt_attr(attrs@.skip(i as int)),
        decreases n - i,
    {
        match &attrs[i].kind {
            AttrKind::NameValue(value) => {
                if str_is(&attrs[i].name, "refcnt") {
                    proof {
                        assert(attrs@.skip(i as int)[0] == attrs@[i as int]);
                        assert(refcnt_attr(attrs@) == Some(value@));
                    }
                    return if str_is(value, "nonatomic") {
                        Ok(RefcntKind::NonAtomic)
                    } else if str_is(value, "atomic") {
                        Ok(RefcntKind::Atomic)
                    } else if str_is(value, "cyclecollected") {
                        Ok(RefcntKind::CycleCollected)
                    } else {
                        Err(GenError::MalformedAttribute)
                    };
                }
            },
            _ => {},
        }
        proof {
            assert(attrs@.skip(i as int)[0] == attrs@[i as int]);
            assert(attrs@.skip(i as int).drop_first() =~= attrs@.skip(i + 1));
        }
        i += 1;
    }
    proof {
        assert(attrs@.skip(n as int).len() == 0);
    }
    Err(GenError::MissingRequiredAttribute)
}

/// Lay the concrete type out: one vtable-pointer field per directly
/// declared interface, in declaration order, then the reference-count
/// field, then the payload fields in declaration order. This fixed
/// order is the ABI contract external callers compiled against.
pub fn build_layout(n_direct: usize, fields: &Vec<FieldDecl>) -> (r: Vec<LayoutField>)
    requires
        n_direct + 1 + fields@.len() <= usize::MAX,
    ensures
        r@.len() == n_direct + 1 + fields@.len(),
        forall|k: int|
            0 <= k < n_direct ==> ((#[trigger] r@[k]) matches LayoutField::VTablePtr { direct_index }
                && direct_index == k),
        r@[n_direct as int] is RefcntField,
        forall|k: int|
            0 <= k < fields@.len() ==> ((#[trigger] r@[n_direct + 1 + k]) matches LayoutField::Payload {
                name,
            } && name@ == fields@[k].name@),
{
    let mut out: Vec<LayoutField> = Vec::new();
    let mut j: usize = 0;
    while j < n_direct
        invariant
            j <= n_direct,
            out@.len() == j,
            forall|k: int|
                0 <= k < j ==> ((#[trigger] out@[k]) matches LayoutField::VTablePtr { direct_index }
                    && direct_index == k),
        decreases n_direct - j,
    {
        out.push(LayoutField::VTablePtr { direct_index: j });
        j += 1;
    }
    out.push(LayoutField::RefcntField);
    let m = fields.len();
    let mut k: usize = 0;
    while k < m
        invariant
            m == fields@.len(),
            k <= m,
            n_direct + 1 + m <= usize::MAX,
            out@.len() == n_direct + 1 + k,
            forall|u: int|
                0 <= u < n_direct ==> ((#[trigger] out@[u]) matches LayoutField::VTablePtr {
                    direct_index,
                } && direct_index == u),
            out@[n_direct as int] is RefcntField,
            forall|u: int|
                0 <= u < k ==> ((#[trigger] out@[n_direct + 1 + u]) matches LayoutField::Payload {
                    name,
                } && name@ == fields@[u].name@),
        decreases m - k,
    {
        out.push(LayoutField::Payload { name: fields[k].name.clone() });
        k += 1;
    }
    out
}

/// Generate the component class for `init` against `reg`: validate the
/// declaration, resolve every declared interface's base chain, lay out
/// the concrete type, and synthesize its dispatch tables. Fails with
/// exactly the error `generate_outcome` names, in that checking order.
pub fn generate(reg: &Registry, init: &InitDescriptor) -> (r: Result<ComponentClass, GenError>)
    requires
        bases_of(init.attrs@).len() + 1 + init.fields@.len() <= usize::MAX,
    ensures
        r is Ok <==> generate_outcome(reg@, *init) is Ok,
        r matches Err(e) ==> generate_outcome(reg@, *init) == Err::<(), GenError>(e),
        r matches Ok(c) ==> {
            let names = bases_of(init.attrs@);
            &&& c.wf(reg@)
            &&& c.n_direct() == names.len()
            &&& forall|j: int|
                0 <= j < names.len() ==> #[trigger] c.direct@[j] == find_name(reg@, names[j])
            &&& forall|j: int|
                0 <= j < names.len() ==> Ok::<Seq<int>, GenError>(#[trigger] c.chain_ints(j))
                    == walk_chain(reg@, find_name(reg@, names[j]), reg@.len())
            &&& c.name@ == init.name@.skip(4)
            &&& c.payload_fields == init.fields@.len()
            &&& Some(c.refcnt_kind) == refcnt_kind_of(refcnt_attr(init.attrs@)->Some_0)
            &&& forall|k: int|
                0 <= k < init.fields@.len() ==> ((#[trigger] c.layout@[c.n_direct() + 1 + k]) matches LayoutField::Payload {
                    name,
                } && name@ == init.fields@[k].name@)
        },
{
    if init.generic_params != 0 {
        return Err(GenError::GenericTypeRejected);
    }
    let bases = get_bases(&init.attrs);
    if bases.len() == 0 {
        return Err(GenError::MissingRequiredAttribute);
    }
    let refcnt_kind = match get_refcnt_type(&init.attrs) {
        Ok(k) => k,
        Err(e) => {
            return Err(e);
        },
    };
    let name_len = init.name.as_str().unicode_len();
    let prefix_ok = name_len > 4 && init.name.as_str().get_char(0) == 'I'
        && init.name.as_str().get_char(1) == 'n' && init.name.as_str().get_char(2) == 'i'
        && init.name.as_str().get_char(3) == 't';
    proof {
        reveal_strlit("Init");
        assert("Init"@.len() == 4 && "Init"@[0] == 'I' && "Init"@[1] == 'n' && "Init"@[2] == 'i'
            && "Init"@[3] == 't');
        if prefix_ok {
            assert(init.name@.subrange(0, 4) =~= "Init"@);
        } else if name_len > 4 {
            if init.name@.subrange(0, 4) == "Init"@ {
                assert(init.name@[0] == init.name@.subrange(0, 4)[0]);
                assert(init.name@[1] == init.name@.subrange(0, 4)[1]);
                assert(init.name@[2] == init.name@.subrange(0, 4)[2]);
                assert(init.name@[3] == init.name@.subrange(0, 4)[3]);
            }
            assert(init.name@.subrange(0, 4) != "Init"@);
        }
    }
    if !prefix_ok {
        return Err(GenError::BadComponentName);
    }
    if !refcnt_kind.supported() {
        return Err(GenError::UnsupportedRefcnt);
    }
    let name = init.name.as_str().substring_char(4, name_len).to_owned();

    let nb = bases.len();
    let mut direct: Vec<usize> = Vec::new();
    let mut chains: Vec<Vec<usize>> = Vec::new();
    let mut chain_iids: Vec<Vec<nsID>> = Vec::new();
    let mut vtables: Vec<VTable> = Vec::new();
    let ghost names = bases_of(init.attrs@);
    proof {
        assert(generate_outcome(reg@, *init) == chains_outcome(reg@, names, 0));
    }
    let mut j: usize = 0;
    while j < nb
        invariant
            generate_outcome(reg@, *init) == chains_outcome(reg@, names, 0),
            nb == names.len(),
            bases@.map_values(|s: String| s@) == names,
            j <= nb,
            direct@.len() == j,
            chains@.len() == j,
            chain_iids@.len() == j,
            vtables@.len() == j,
            chains_outcome(reg@, names, 0) == chains_outcome(reg@, names, j as int),
            forall|u: int| 0 <= u < j ==> #[trigger] direct@[u] == find_name(reg@, names[u]),
            forall|u: int|
                0 <= u < j ==> Ok::<Seq<int>, GenError>(
                    (#[trigger] chains@[u])@.map_values(|x: usize| x as int),
                ) == walk_chain(reg@, find_name(reg@, names[u]), reg@.len()),
            forall|u: int|
                0 <= u < j ==> chain_ok(
                    reg@,
                    direct@[u] as int,
                    (#[trigger] chains@[u])@.map_values(|x: usize| x as int),
                ),
            forall|u: int| 0 <= u < j ==> #[trigger] chains@[u]@.len() >= 1,
            forall|u: int|
                0 <= u < j ==> (#[trigger] chain_iids@[u])@.len() == chains@[u]@.len(),
            forall|u: int, t: int|
                0 <= u < j && 0 <= t < chains@[u]@.len() ==> (#[trigger] chain_iids@[u]@[t])
                    == reg@[chains@[u]@[t] as int].iid,
            forall|u: int|
                0 <= u < j ==> table_ids((#[trigger] vtables@[u])@) == flatten_ids(
                    reg@,
                    chains@[u]@.map_values(|x: usize| x as int),
                ),
            forall|u: int, s: int|
                0 <= u < j && 0 <= s < vtables@[u]@.len() ==> (#[trigger] vtables@[u]@[s]).owner_field == u,
        decreases nb - j,
    {
        let idx_opt = reg.lookup(&bases[j]);
        let idx = match idx_opt {
            None => {
                proof {
                    lemma_chains_outcome_err(reg@, names, j as int, GenError::UnknownInterface);
                }
                return Err(GenError::UnknownInterface);
            },
            Some(i) => i,
        };
        let chain = match reg.resolve_chain(idx) {
            Ok(c) => c,
            Err(e) => {
                proof {
                    lemma_chains_outcome_err(reg@, names, j as int, e);
                }
                return Err(e);
            },
        };
        proof {
            lemma_walk_chain_ok(reg@, idx as int, reg@.len());
        }
        let vt = synthesize_vtable(reg, &chain, j);
        let cl = chain.len();
        let mut iids: Vec<nsID> = Vec::new();
        proof {
            let ints = chain@.map_values(|x: usize| x as int);
            assert forall|u: int| 0 <= u < chain@.len() implies #[trigger] chain@[u] < reg@.len() by {
                assert(ints[u] == chain@[u] as int);
            }
        }
        let mut t: usize = 0;
        while t < cl
            invariant
                cl == chain@.len(),
                t <= cl,
                iids@.len() == t,
                forall|u: int| 0 <= u < chain@.len() ==> #[trigger] chain@[u] < reg@.len(),
                forall|u: int| 0 <= u < t ==> #[trigger] iids@[u] == reg@[chain@[u] as int].iid,
            decreases cl - t,
        {
            let e = reg.get(chain[t]);
            iids.push(e.iid);
            t += 1;
        }
        direct.push(idx);
        chains.push(chain);
        chain_iids.push(iids);
        vtables.push(vt);
        j += 1;
        proof {
            assert(chains_outcome(reg@, names, j - 1) == chains_outcome(reg@, names, j as int));
        }
    }
    let n_direct = direct.len();
    let pf = init.fields.len();
    let layout = build_layout(n_direct, &init.fields);
    let class = ComponentClass {
        name,
        direct,
        chains,
        chain_iids,
        vtables,
        layout,
        payload_fields: pf,
        refcnt_kind,
    };
    proof {
        assert(class.name@ =~= init.name@.skip(4));
        assert(forall|u: int| 0 <= u < nb ==> #[trigger] class.chain_ints(u) == chains@[u]@.map_values(|x: usize| x as int));
        let n = class.n_direct() as int;
        assert(1 <= n);
        assert(class.chains@.len() == n && class.chain_iids@.len() == n && class.vtables@.len() == n);
        assert(forall|j2: int| 0 <= j2 < n ==> #[trigger] class.chain_ints(j2).len() >= 1);
        assert(forall|j2: int|
            0 <= j2 < n ==> chain_ok(reg@, class.direct@[j2] as int, #[trigger] class.chain_ints(j2)));
        assert(forall|j2: int|
            0 <= j2 < n ==> (#[trigger] class.chain_iids@[j2])@.len() == class.chain_ints(j2).len());
        assert forall|j2: int, t2: int|
            0 <= j2 < n && 0 <= t2 < class.chain_ints(j2).len() implies (
        #[trigger] class.chain_iids@[j2]@[t2]) == reg@[class.chain_ints(j2)[t2]].iid by {
            assert(class.chain_ints(j2)[t2] == chains@[j2]@[t2] as int);
        }
        assert(forall|j2: int|
            0 <= j2 < n ==> table_ids((#[trigger] class.vtables@[j2])@) == flatten_ids(
                reg@,
                class.chain_ints(j2),
            ));
        assert(forall|j2: int, s2: int|
            0 <= j2 < n && 0 <= s2 < class.vtables@[j2]@.len() ==> (
            #[trigger] class.vtables@[j2]@[s2]).owner_field == j2);
        assert(class.layout@.len() == class.spec_size());
        assert(forall|k2: int|
            0 <= k2 < n ==> ((#[trigger] class.layout@[k2]) matches LayoutField::VTablePtr {
                direct_index,
            } && direct_index == k2));
        assert(class.layout@[n] is RefcntField);
        assert forall|k2: int| n + 1 <= k2 < class.layout@.len() implies (
        #[trigger] class.layout@[k2]) is Payload by {
            assert((class.layout@[n_direct + 1 + (k2 - n - 1)]) matches LayoutField::Payload { name: pn }
                && pn@ == init.fields@[k2 - n - 1].name@);
        }
        assert(class.wf(reg@));
    }
    Ok(class)
}

/// `chains_outcome` reports the first failure: with the names before
/// `k` resolved, a failure at `k` is the outcome from 0.
proof fn lemma_chains_outcome_err(
    reg: Seq<crate::registry::Interface>,
    names: Seq<Seq<char>>,
    k: int,
    e: GenError,
)
    requires
        0 <= k < names.len(),
        chains_outcome(reg, names, 0) == chains_outcome(reg, names, k),
        ({
            let i = find_name(reg, names[k]);
            if i < 0 {
                e == GenError::UnknownInterface
            } else {
                walk_chain(reg, i, reg.len()) == Err::<Seq<int>, GenError>(e)
            }
        }),
    ensures
        chains_outcome(reg, names, 0) == Err::<(), GenError>(e),
{
}

} // verus!
