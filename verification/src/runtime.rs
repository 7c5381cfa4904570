//! The runtime: a word-addressed machine holding the static dispatch
//! tables of every registered component class and the live component
//! instances. Addresses are allocated from one monotone counter, so
//! every static table and every object occupies its own range. A
//! component of class `c` occupies `c.spec_size()` words at its base
//! address: one vtable-pointer word per directly declared interface, in
//! declaration order, then the reference-count word, then the payload.
//! An *interface pointer* is the address of one of the vtable-pointer
//! words; dispatch, reference counting and interface discovery all
//! start from such a pointer.
use vstd::prelude::*;

use crate::base::nsID;
use crate::generator::ComponentClass;
use crate::refptr::RefcntCell;
use crate::registry::Interface;
use crate::registry::chain_ok;
use crate::registry::Registry;
use crate::vtable::VTable;
use crate::vtable::VTableSlot;

verus! {

/// A status a runtime operation can report to its caller. These are
/// checkable values, never unwinding.
#[derive(Clone, Copy, PartialEq, Eq, Structural, Debug)]
pub enum RuntimeError {
    /// The requested identifier is implemented nowhere in the
    /// component's interface chains.
    NoInterfaceMatch,
    /// A caller-supplied pointer argument was null.
    NullArgument,
}

/// One registered class: the generator's output plus the addresses the
/// runtime assigned to its static dispatch tables, and the indices of
/// those tables in the runtime's table list.
pub struct RegisteredClass {
    pub class: ComponentClass,
    pub table_addrs: Vec<usize>,
    pub table_idxs: Vec<usize>,
}

/// One static dispatch table instance, pinned at `addr`: the table
/// occupies one word per slot.
pub struct StaticTable {
    pub addr: usize,
    pub table: VTable,
}

/// One component instance.
pub struct Object {
    pub class: usize,
    pub base: usize,
    pub refcnt: RefcntCell,
    pub live: bool,
    pub payload: Vec<u64>,
}

/// The mathematical image of a static table.
#[verifier::ext_equal]
pub ghost struct TableModel {
    pub addr: int,
    pub slots: Seq<VTableSlot>,
}

/// The mathematical image of a registered class.
#[verifier::ext_equal]
pub ghost struct ClassModel {
    pub class: ComponentClass,
    pub table_addrs: Seq<int>,
    pub table_idxs: Seq<int>,
}

/// The mathematical image of a component instance.
#[verifier::ext_equal]
pub ghost struct ObjectModel {
    pub class: int,
    pub base: int,
    pub count: u64,
    pub live: bool,
    pub payload: Seq<u64>,
}

/// The mathematical image of the whole runtime.
#[verifier::ext_equal]
pub ghost struct RuntimeModel {
    pub registry: Seq<Interface>,
    pub classes: Seq<ClassModel>,
    pub tables: Seq<TableModel>,
    pub objects: Seq<ObjectModel>,
    pub next_addr: int,
}

impl RuntimeModel {
    /// Size in words of object `k`'s class.
    pub open spec fn obj_size(self, k: int) -> nat {
        self.classes[self.objects[k].class].class.spec_size()
    }

    /// Number of vtable-pointer words of object `k`.
    pub open spec fn obj_n_direct(self, k: int) -> nat {
        self.classes[self.objects[k].class].class.n_direct()
    }

    /// The class of object `k`.
    pub open spec fn obj_class(self, k: int) -> ComponentClass {
        self.classes[self.objects[k].class].class
    }

    /// Object `k` exists and `p` is the address of one of its
    /// vtable-pointer words.
    pub open spec fn owns(self, k: int, p: int) -> bool {
        &&& 0 <= k < self.objects.len()
        &&& self.objects[k].base <= p < self.objects[k].base + self.obj_n_direct(k)
    }

    /// `p` is an interface pointer: the address of a vtable-pointer
    /// word of some object.
    pub open spec fn valid_iface_ptr(self, p: int) -> bool {
        exists|k: int| self.owns(k, p)
    }

    /// The index of the object owning the interface pointer `p`;
    /// well-defined under `wf` because object ranges are disjoint.
    pub open spec fn owner_of(self, p: int) -> int {
        choose|k: int| self.owns(k, p)
    }

    /// Well-formedness of one registered class entry.
    pub open spec fn class_entry_wf(self, k: int) -> bool {
        let e = self.classes[k];
        let n = e.class.n_direct() as int;
        &&& e.class.wf(self.registry)
        &&& e.table_addrs.len() == n
        &&& e.table_idxs.len() == n
        &&& forall|j: int|
            0 <= j < n ==> 0 <= #[trigger] e.table_idxs[j] < self.tables.len()
        &&& forall|j: int|
            0 <= j < n ==> self.tables[#[trigger] e.table_idxs[j]].addr == e.table_addrs[j]
        &&& forall|j: int|
            0 <= j < n ==> self.tables[#[trigger] e.table_idxs[j]].slots == e.class.vtables@[j]@
    }

    /// Well-formedness of one object entry.
    pub open spec fn object_wf(self, k: int) -> bool {
        let o = self.objects[k];
        &&& 0 <= o.class < self.classes.len()
        &&& 1 <= o.base
        &&& o.base + self.obj_size(k) <= self.next_addr
        &&& o.payload.len() == self.obj_class(k).payload_fields
        &&& o.live <==> o.count > 0
    }

    /// The runtime's invariant: classes are well-formed against the
    /// registry and linked to their tables; static tables sit at
    /// positive, ordered, in-bounds addresses; objects are well-formed
    /// and occupy pairwise-disjoint ranges.
    pub open spec fn wf(self) -> bool {
        &&& forall|k: int| 0 <= k < self.classes.len() ==> #[trigger] self.class_entry_wf(k)
        &&& forall|t: int|
            0 <= t < self.tables.len() ==> 1 <= #[trigger] self.tables[t].addr
                && self.tables[t].addr + self.tables[t].slots.len() <= self.next_addr
        &&& forall|t1: int, t2: int|
            0 <= t1 < t2 < self.tables.len() ==> (#[trigger] self.tables[t1]).addr
                + self.tables[t1].slots.len() <= (#[trigger] self.tables[t2]).addr
        &&& forall|k: int| 0 <= k < self.objects.len() ==> #[trigger] self.object_wf(k)
        &&& forall|k1: int, k2: int|
            0 <= k1 < k2 < self.objects.len() ==> (#[trigger] self.objects[k1]).base
                + self.obj_size(k1) <= (#[trigger] self.objects[k2]).base
        &&& 1 <= self.next_addr
    }

    /// The image after retaining object `k` once.
    pub open spec fn addref_step(self, k: int) -> RuntimeModel {
        let o = self.objects[k];
        RuntimeModel {
            objects: self.objects.update(k, ObjectModel { count: (o.count + 1) as u64, ..o }),
            ..self
        }
    }

    /// The image after releasing object `k` once: the count drops by
    /// one, and the object dies exactly when the count reaches zero.
    pub open spec fn release_step(self, k: int) -> RuntimeModel {
        let o = self.objects[k];
        let c = (o.count - 1) as u64;
        RuntimeModel {
            objects: self.objects.update(k, ObjectModel { count: c, live: c > 0, ..o }),
            ..self
        }
    }
}

/// Under `wf`, at most one object owns an interface pointer.
pub proof fn lemma_owner_unique(m: RuntimeModel, k1: int, k2: int, p: int)
    requires
        m.wf(),
        m.owns(k1, p),
        m.owns(k2, p),
    ensures
        k1 == k2,
{
    if k1 < k2 {
        assert(m.object_wf(k1));
        assert(m.objects[k1].base + m.obj_size(k1) <= m.objects[k2].base);
    }
    if k2 < k1 {
        assert(m.object_wf(k2));
        assert(m.objects[k2].base + m.obj_size(k2) <= m.objects[k1].base);
    }
}

/// Words occupied by the first `j` dispatch tables of `vts`.
pub open spec fn words_upto(vts: Seq<VTable>, j: int) -> nat
    decreases j,
{
    if j <= 0 {
        0
    } else {
        (words_upto(vts, j - 1) + vts[j - 1]@.len()) as nat
    }
}

/// `words_upto` grows with its index.
pub proof fn lemma_words_upto_mono(vts: Seq<VTable>, j1: int, j2: int)
    requires
        j1 <= j2,
    ensures
        words_upto(vts, j1) <= words_upto(vts, j2),
    decreases j2 - j1,
{
    if j1 < j2 {
        lemma_words_upto_mono(vts, j1, j2 - 1);
    }
}

/// The first address handed out by a fresh runtime.
pub const BASE_ADDRESS: usize = 0x1000;

/// The runtime.
pub struct Runtime {
    registry: Registry,
    classes: Vec<RegisteredClass>,
    tables: Vec<StaticTable>,
    objects: Vec<Object>,
    next_addr: usize,
}

impl View for Runtime {
    type V = RuntimeModel;

    closed spec fn view(&self) -> RuntimeModel {
        RuntimeModel {
            registry: self.registry@,
            classes: self.classes@.map_values(
                |e: RegisteredClass|
                    ClassModel {
                        class: e.class,
                        table_addrs: e.table_addrs@.map_values(|x: usize| x as int),
                        table_idxs: e.table_idxs@.map_values(|x: usize| x as int),
                    },
            ),
            tables: self.tables@.map_values(
                |t: StaticTable| TableModel { addr: t.addr as int, slots: t.table@ },
            ),
            objects: self.objects@.map_values(
                |o: Object|
                    ObjectModel {
                        class: o.class as int,
                        base: o.base as int,
                        count: o.refcnt.count(),
                        live: o.live,
                        payload: o.payload@,
                    },
            ),
            next_addr: self.next_addr as int,
        }
    }
}

impl Runtime {
    /// A fresh runtime over a registry: no classes, no tables, no
    /// objects.
    pub fn new(registry: Registry) -> (rt: Runtime)
        ensures
            rt@.registry == registry@,
            rt@.classes.len() == 0,
            rt@.tables.len() == 0,
            rt@.objects.len() == 0,
            rt@.next_addr == BASE_ADDRESS as int,
            rt@.wf(),
    {
        Runtime {
            registry,
            classes: Vec::new(),
            tables: Vec::new(),
            objects: Vec::new(),
            next_addr: BASE_ADDRESS,
        }
    }

    /// How many classes are registered.
    pub fn class_count(&self) -> (n: usize)
        ensures
            n == self@.classes.len(),
    {
        self.classes.len()
    }

    /// The address the runtime assigned to the static table of class
    /// `k`'s direct interface `j`: the canonical table address that a
    /// component's `j`-th vtable-pointer word holds.
    pub fn class_table_addr(&self, k: usize, j: usize) -> (a: usize)
        requires
            self@.wf(),
            k < self@.classes.len(),
            j < self@.classes[k as int].class.n_direct(),
        ensures
            a as int == self@.classes[k as int].table_addrs[j as int],
    {
        proof {
            assert(self@.class_entry_wf(k as int));
            assert(self@.classes[k as int].table_addrs[j as int] == self.classes@[k as int].table_addrs@[j as int] as int);
        }
        self.classes[k].table_addrs[j]
    }

    /// Register a generated class: pin one static table per direct
    /// interface at fresh addresses, in declaration order, and record
    /// the class. Returns the class's runtime index.
    pub fn register_class(&mut self, class: ComponentClass) -> (r: usize)
        requires
            old(self)@.wf(),
            class.wf(old(self)@.registry),
            old(self)@.next_addr + words_upto(class.vtables@, class.vtables@.len() as int)
                <= usize::MAX,
        ensures
            r == old(self)@.classes.len(),
            final(self)@.registry == old(self)@.registry,
            final(self)@.objects == old(self)@.objects,
            final(self)@.classes == old(self)@.classes.push(
                ClassModel {
                    class: class,
                    table_addrs: Seq::new(
                        class.n_direct(),
                        |j: int| old(self)@.next_addr + words_upto(class.vtables@, j),
                    ),
                    table_idxs: Seq::new(
                        class.n_direct(),
                        |j: int| old(self)@.tables.len() + j,
                    ),
                },
            ),
            final(self)@.tables == old(self)@.tables + Seq::new(
                class.n_direct(),
                |j: int|
                    TableModel {
                        addr: old(self)@.next_addr + words_upto(class.vtables@, j),
                        slots: class.vtables@[j]@,
                    },
            ),
            final(self)@.next_addr == old(self)@.next_addr + words_upto(
                class.vtables@,
                class.n_direct() as int,
            ),
            final(self)@.wf(),
    {
        let ghost m0 = self@;
        let n = class.vtables.len();
        proof {
            assert(class.n_direct() == n);
        }
        let mut table_addrs: Vec<usize> = Vec::new();
        let mut table_idxs: Vec<usize> = Vec::new();
        let mut j: usize = 0;
        while j < n
            invariant
                m0.wf(),
                n == class.vtables@.len(),
                class.wf(m0.registry),
                j <= n,
                m0.next_addr + words_upto(class.vtables@, n as int) <= usize::MAX,
                self@.registry == m0.registry,
                self@.classes == m0.classes,
                self@.objects == m0.objects,
                self@.next_addr == m0.next_addr + words_upto(class.vtables@, j as int),
                self@.tables.len() == m0.tables.len() + j,
                forall|u: int| 0 <= u < m0.tables.len() ==> #[trigger] self@.tables[u] == m0.tables[u],
                forall|u: int|
                    0 <= u < j ==> #[trigger] self@.tables[m0.tables.len() + u] == (TableModel {
                        addr: m0.next_addr + words_upto(class.vtables@, u),
                        slots: class.vtables@[u]@,
                    }),
                table_addrs@.len() == j,
                forall|u: int|
                    0 <= u < j ==> #[trigger] table_addrs@[u] as int == m0.next_addr + words_upto(
                        class.vtables@,
                        u,
                    ),
                table_idxs@.len() == j,
                forall|u: int|
                    0 <= u < j ==> #[trigger] table_idxs@[u] as int == m0.tables.len() + u,
            decreases n - j,
        {
            proof {
                lemma_words_upto_mono(class.vtables@, j + 1, n as int);
                assert(words_upto(class.vtables@, j + 1) == words_upto(class.vtables@, j as int)
                    + class.vtables@[j as int]@.len());
            }
            let ghost prev_view = self@.tables;
            let addr = self.next_addr;
            table_addrs.push(addr);
            table_idxs.push(self.tables.len());
            let slots_len = class.vtables[j].slots.len();
            let new_table = class.vtables[j].clone_table();
            let ghost prev_tables = self.tables@;
            self.tables.push(StaticTable { addr, table: new_table });
            self.next_addr = self.next_addr + slots_len;
            proof {
                assert forall|u: int| 0 <= u < prev_tables.len() implies #[trigger] self@.tables[u]
                    == prev_view[u] by {
                    assert(self.tables@[u] == prev_tables[u]);
                    assert(prev_view[u] == (TableModel {
                        addr: prev_tables[u].addr as int,
                        slots: prev_tables[u].table@,
                    }));
                }
                assert(self@.tables[prev_tables.len() as int] == (TableModel {
                    addr: addr as int,
                    slots: class.vtables@[j as int]@,
                }));
                assert(prev_view.len() == m0.tables.len() + j);
            }
            j += 1;
        }
        let r = self.classes.len();
        let ghost m1 = self@;
        proof {
            let vts = class.vtables@;
            let pre_tables = Seq::new(
                class.n_direct(),
                |u: int|
                    TableModel {
                        addr: m0.next_addr + words_upto(vts, u),
                        slots: vts[u]@,
                    },
            );
            assert(m1.tables.len() == m0.tables.len() + n);
            assert forall|t: int| 0 <= t < m1.tables.len() implies m1.tables[t] == (m0.tables
                + pre_tables)[t] by {
                if t < m0.tables.len() {
                    assert(m1.tables[t] == m0.tables[t]);
                } else {
                    let u = t - m0.tables.len();
                    assert(m1.tables[m0.tables.len() + u] == (TableModel {
                        addr: m0.next_addr + words_upto(vts, u),
                        slots: vts[u]@,
                    }));
                    assert(pre_tables[u] == (TableModel {
                        addr: m0.next_addr + words_upto(vts, u),
                        slots: vts[u]@,
                    }));
                }
            }
            assert(m1.tables =~~= m0.tables + pre_tables);
        }
        self.classes.push(RegisteredClass { class, table_addrs, table_idxs });
        proof {
            let vts = class.vtables@;
            let new_entry = ClassModel {
                class: class,
                table_addrs: Seq::new(class.n_direct(), |u: int| m0.next_addr + words_upto(vts, u)),
                table_idxs: Seq::new(class.n_direct(), |u: int| m0.tables.len() + u),
            };
            let new_tables = Seq::new(
                class.n_direct(),
                |u: int|
                    TableModel {
                        addr: m0.next_addr + words_upto(vts, u),
                        slots: vts[u]@,
                    },
            );
            assert(self@.tables == m1.tables);
            assert(self@.objects == m1.objects);
            assert(self@.registry == m1.registry);
            assert(self@.next_addr == m1.next_addr);
            assert(self@.classes =~~= m0.classes.push(new_entry));
            assert(self@.tables == m1.tables && m1.tables == m0.tables + new_tables);
            // The new runtime is well-formed again.
            assert forall|k: int| 0 <= k < self@.classes.len() implies #[trigger] self@.class_entry_wf(
                k,
            ) by {
                let e = self@.classes[k];
                let cn = e.class.n_direct() as int;
                if k < m0.classes.len() {
                    assert(m0.class_entry_wf(k));
                    assert(e == m0.classes[k]);
                    assert forall|u: int| 0 <= u < cn implies 0 <= #[trigger] e.table_idxs[u]
                        < self@.tables.len() && self@.tables[e.table_idxs[u]].addr
                        == e.table_addrs[u] && self@.tables[e.table_idxs[u]].slots
                        == e.class.vtables@[u]@ by {
                        assert(self@.tables[e.table_idxs[u]] == m0.tables[e.table_idxs[u]]);
                    }
                } else {
                    assert(e == new_entry);
                    assert forall|u: int| 0 <= u < cn implies 0 <= #[trigger] e.table_idxs[u]
                        < self@.tables.len() && self@.tables[e.table_idxs[u]].addr
                        == e.table_addrs[u] && self@.tables[e.table_idxs[u]].slots
                        == e.class.vtables@[u]@ by {
                        assert(e.table_idxs[u] == m0.tables.len() + u);
                        assert(self@.tables[m0.tables.len() + u] == new_tables[u]);
                    }
                }
            }
            assert forall|t: int| 0 <= t < self@.tables.len() implies 1 <= (
            #[trigger] self@.tables[t]).addr && self@.tables[t].addr + self@.tables[t].slots.len()
                <= self@.next_addr by {
                if t < m0.tables.len() {
                    lemma_words_upto_mono(vts, 0, n as int);
                } else {
                    let u = t - m0.tables.len();
                    assert(self@.tables[t] == new_tables[u]);
                    lemma_words_upto_mono(vts, 0, u);
                    assert(words_upto(vts, u + 1) == words_upto(vts, u) + vts[u]@.len());
                    lemma_words_upto_mono(vts, u + 1, n as int);
                }
            }
            assert forall|t1: int, t2: int| 0 <= t1 < t2 < self@.tables.len() implies (
            #[trigger] self@.tables[t1]).addr + self@.tables[t1].slots.len() <= (
            #[trigger] self@.tables[t2]).addr by {
                if t2 < m0.tables.len() {
                } else {
                    let u2 = t2 - m0.tables.len();
                    assert(self@.tables[t2] == new_tables[u2]);
                    lemma_words_upto_mono(vts, 0, u2);
                    if t1 < m0.tables.len() {
                        assert(m0.tables[t1].addr + m0.tables[t1].slots.len() <= m0.next_addr);
                    } else {
                        let u1 = t1 - m0.tables.len();
                        assert(self@.tables[t1] == new_tables[u1]);
                        assert(words_upto(vts, u1 + 1) == words_upto(vts, u1) + vts[u1]@.len());
                        lemma_words_upto_mono(vts, u1 + 1, u2);
                    }
                }
            }
            assert forall|k: int| 0 <= k < self@.objects.len() implies #[trigger] self@.object_wf(
                k,
            ) by {
                assert(m0.object_wf(k));
                assert(self@.objects[k] == m0.objects[k]);
                assert(self@.classes[m0.objects[k].class] == m0.classes[m0.objects[k].class]);
                assert(self@.obj_size(k) == m0.obj_size(k));
                assert(self@.obj_class(k) == m0.obj_class(k));
                lemma_words_upto_mono(vts, 0, n as int);
            }
            assert forall|k1: int, k2: int| 0 <= k1 < k2 < self@.objects.len() implies (
            #[trigger] self@.objects[k1]).base + self@.obj_size(k1) <= (
            #[trigger] self@.objects[k2]).base by {
                assert(m0.object_wf(k1));
                assert(self@.classes[m0.objects[k1].class] == m0.classes[m0.objects[k1].class]);
                assert(self@.obj_size(k1) == m0.obj_size(k1));
            }
        }
        r
    }

    /// Build a component of the registered class `class_idx` on the
    /// heap: its reference count starts at one, owned by the caller
    /// through the returned owning pointer, which addresses the
    /// component's base (its first vtable-pointer word).
    pub fn allocate(&mut self, class_idx: usize, payload: Vec<u64>) -> (r: crate::refptr::RefPtr)
        requires
            old(self)@.wf(),
            class_idx < old(self)@.classes.len(),
            payload@.len() == old(self)@.classes[class_idx as int].class.payload_fields,
            old(self)@.next_addr + old(self)@.classes[class_idx as int].class.spec_size()
                <= usize::MAX,
        ensures
            final(self)@.wf(),
            final(self)@.registry == old(self)@.registry,
            final(self)@.classes == old(self)@.classes,
            final(self)@.tables == old(self)@.tables,
            final(self)@.objects == old(self)@.objects.push(
                ObjectModel {
                    class: class_idx as int,
                    base: old(self)@.next_addr,
                    count: 1,
                    live: true,
                    payload: payload@,
                },
            ),
            final(self)@.next_addr == old(self)@.next_addr + old(self)@.classes[class_idx as int].class.spec_size(),
            r.raw as int == old(self)@.next_addr,
    {
        let ghost m0 = self@;
        proof {
            assert(m0.class_entry_wf(class_idx as int));
        }
        let base = self.next_addr;
        let size = self.classes[class_idx].class.layout.len();
        proof {
            assert(size as nat == m0.classes[class_idx as int].class.spec_size());
        }
        let kind = self.classes[class_idx].class.refcnt_kind;
        let mut cell = RefcntCell::new_of_kind(kind);
        cell.addref();
        self.objects.push(Object { class: class_idx, base, refcnt: cell, live: true, payload });
        self.next_addr = base + size;
        proof {
            let newobj = ObjectModel {
                class: class_idx as int,
                base: m0.next_addr,
                count: 1,
                live: true,
                payload: self.objects@[self.objects@.len() - 1].payload@,
            };
            assert(self@.objects =~~= m0.objects.push(newobj));
            assert(self@.tables == m0.tables);
            assert(self@.classes == m0.classes);
            assert(self@.registry == m0.registry);
            assert(self@.wf()) by {
                assert forall|k: int| 0 <= k < self@.classes.len() implies #[trigger] self@.class_entry_wf(
                    k,
                ) by {
                    assert(m0.class_entry_wf(k));
                }
                assert forall|k: int| 0 <= k < self@.objects.len() implies #[trigger] self@.object_wf(
                    k,
                ) by {
                    if k < m0.objects.len() {
                        assert(m0.object_wf(k));
                        assert(self@.objects[k] == m0.objects[k]);
                        assert(self@.obj_size(k) == m0.obj_size(k));
                        assert(self@.obj_class(k) == m0.obj_class(k));
                    } else {
                        assert(self@.objects[k] == newobj);
                        assert(self@.obj_size(k) == m0.classes[class_idx as int].class.spec_size());
                    }
                }
                assert forall|k1: int, k2: int| 0 <= k1 < k2 < self@.objects.len() implies (
                #[trigger] self@.objects[k1]).base + self@.obj_size(k1) <= (
                #[trigger] self@.objects[k2]).base by {
                    assert(m0.object_wf(k1));
                    assert(self@.obj_size(k1) == m0.obj_size(k1));
                }
            }
        }
        crate::refptr::RefPtr { raw: base }
    }

    /// The index of the object whose vtable-pointer words include the
    /// address `p`: how the machine recovers a component from an
    /// interface pointer.
    fn resolve(&self, p: usize) -> (k: usize)
        requires
            self@.wf(),
            self@.valid_iface_ptr(p as int),
        ensures
            self@.owns(k as int, p as int),
            k as int == self@.owner_of(p as int),
    {
        let n = self.objects.len();
        let mut i: usize = 0;
        while i < n
            invariant
                self@.wf(),
                self@.valid_iface_ptr(p as int),
                n == self@.objects.len(),
                i <= n,
                forall|u: int| 0 <= u < i ==> !self@.owns(u, p as int),
            decreases n - i,
        {
            let cls = self.objects[i].class;
            let base = self.objects[i].base;
            proof {
                assert(self@.object_wf(i as int));
                assert(self@.objects[i as int].class == cls as int);
                assert(self@.objects[i as int].base == base as int);
            }
            let nd = self.classes[cls].class.direct.len();
            proof {
                assert(self@.obj_n_direct(i as int) == nd as nat);
                assert(nd as nat <= self@.obj_size(i as int));
            }
            if base <= p && p - base < nd {
                proof {
                    assert(self@.owns(i as int, p as int));
                    let kk = self@.owner_of(p as int);
                    assert(self@.owns(kk, p as int));
                    lemma_owner_unique(self@, i as int, kk, p as int);
                }
                return i;
            }
            i += 1;
        }
        proof {
            let kk = choose|k: int| self@.owns(k, p as int);
            assert(self@.owns(kk, p as int));
            assert(false);
        }
        0
    }

    /// The current reference count of the object owning the interface
    /// pointer `p`.
    pub fn refcount_of(&self, p: usize) -> (n: u64)
        requires
            self@.wf(),
            self@.valid_iface_ptr(p as int),
        ensures
            n == self@.objects[self@.owner_of(p as int)].count,
    {
        let k = self.resolve(p);
        proof {
            assert(self@.objects[k as int].count == self.objects@[k as int].refcnt.count());
        }
        match &self.objects[k].refcnt {
            RefcntCell::NonAtomic(c) => c.read(),
            RefcntCell::Atomic(c) => c.read(),
        }
    }

    /// Whether the object owning `p` is still live.
    pub fn is_live(&self, p: usize) -> (r: bool)
        requires
            self@.wf(),
            self@.valid_iface_ptr(p as int),
        ensures
            r == self@.objects[self@.owner_of(p as int)].live,
    {
        let k = self.resolve(p);
        self.objects[k].live
    }

    /// Retain the object owning the interface pointer `p` once.
    /// AddRef never fails; the new count is strictly positive.
    pub fn addref(&mut self, p: usize) -> (n: u64)
        requires
            old(self)@.wf(),
            old(self)@.valid_iface_ptr(p as int),
            old(self)@.objects[old(self)@.owner_of(p as int)].live,
            old(self)@.objects[old(self)@.owner_of(p as int)].count < u64::MAX,
        ensures
            final(self)@.wf(),
            final(self)@ == old(self)@.addref_step(old(self)@.owner_of(p as int)),
            n == old(self)@.objects[old(self)@.owner_of(p as int)].count + 1,
            n > 0,
    {
        let ghost m0 = self@;
        let ghost kk = m0.owner_of(p as int);
        let k = self.resolve(p);
        proof {
            assert(m0.object_wf(k as int));
            assert(m0.objects[k as int].count == self.objects@[k as int].refcnt.count());
        }
        let n = self.objects[k].refcnt.addref();
        proof {
            assert(self@.objects =~~= m0.addref_step(kk).objects);
            assert(self@ =~~= m0.addref_step(kk));
            lemma_step_preserves_wf_addref(m0, kk);
        }
        n
    }

    /// Release the object owning the interface pointer `p` once: the
    /// count drops by one, and when it reaches zero the component is
    /// deallocated, exactly once; any further use of the object is a
    /// caller-contract violation, excluded by precondition.
    pub fn release(&mut self, p: usize) -> (n: u64)
        requires
            old(self)@.wf(),
            old(self)@.valid_iface_ptr(p as int),
            old(self)@.objects[old(self)@.owner_of(p as int)].live,
        ensures
            final(self)@.wf(),
            final(self)@ == old(self)@.release_step(old(self)@.owner_of(p as int)),
            n == old(self)@.objects[old(self)@.owner_of(p as int)].count - 1,
            n == 0 ==> !final(self)@.objects[old(self)@.owner_of(p as int)].live,
            n > 0 ==> final(self)@.objects[old(self)@.owner_of(p as int)].live,
    {
        let ghost m0 = self@;
        let ghost kk = m0.owner_of(p as int);
        let k = self.resolve(p);
        proof {
            assert(m0.object_wf(k as int));
            assert(m0.objects[k as int].count == self.objects@[k as int].refcnt.count());
        }
        let n = self.objects[k].refcnt.release();
        if n == 0 {
            self.objects[k].live = false;
        }
        proof {
            assert(self@.objects =~~= m0.release_step(kk).objects);
            assert(self@ =~~= m0.release_step(kk));
            lemma_step_preserves_wf_release(m0, kk);
        }
        n
    }

    /// True when `x` occurs in `v`.
    fn seen_contains(v: &Vec<usize>, x: usize) -> (r: bool)
        ensures
            r == v@.contains(x),
    {
        let n = v.len();
        let mut i: usize = 0;
        while i < n
            invariant
                n == v@.len(),
                i <= n,
                forall|u: int| 0 <= u < i ==> v@[u] != x,
            decreases n - i,
        {
            if v[i] == x {
                return true;
            }
            i += 1;
        }
        false
    }

    /// Runtime interface discovery on the object owning `p`: walk the
    /// directly implemented interfaces in declaration order and each
    /// one's base chain, deduplicated through a visited set so a shared
    /// ancestor is examined once. On the first identifier match, retain
    /// the object and return the address of the matching interface's
    /// vtable-pointer field — an interface pointer, not the object's
    /// base. Otherwise report `NoInterfaceMatch` and leave the count
    /// untouched. Matching is exact identifier equality.
    pub fn query_interface(&mut self, p: usize, iid: &nsID) -> (r: Result<usize, RuntimeError>)
        requires
            old(self)@.wf(),
            old(self)@.valid_iface_ptr(p as int),
            old(self)@.objects[old(self)@.owner_of(p as int)].live,
            old(self)@.objects[old(self)@.owner_of(p as int)].count < u64::MAX,
        ensures
            final(self)@.wf(),
            ({
                let k = old(self)@.owner_of(p as int);
                let c = old(self)@.obj_class(k);
                match qi_match(c, *iid) {
                    Some(j) => r == Ok::<usize, RuntimeError>(
                        (old(self)@.objects[k].base + j) as usize,
                    ) && final(self)@ == old(self)@.addref_step(k),
                    None => r == Err::<usize, RuntimeError>(RuntimeError::NoInterfaceMatch)
                        && final(self)@ == old(self)@,
                }
            }),
    {
        let ghost m0 = self@;
        let ghost kk = m0.owner_of(p as int);
        let k = self.resolve(p);
        let cls = self.objects[k].class;
        let base = self.objects[k].base;
        proof {
            assert(m0.object_wf(k as int));
            assert(m0.class_entry_wf(cls as int));
            assert(cls as int == m0.objects[k as int].class);
            assert(base as int == m0.objects[k as int].base);
        }
        let ghost c = m0.obj_class(kk);
        let ghost reg = m0.registry;
        let n = self.classes[cls].class.direct.len();
        let mut visited: Vec<usize> = Vec::new();
        let mut j: usize = 0;
        while j < n
            invariant
                old(self)@ == m0,
                m0.wf(),
                self@ == m0,
                m0.valid_iface_ptr(p as int),
                kk == m0.owner_of(p as int),
                k as int == kk,
                m0.objects[kk].live,
                m0.objects[kk].count < u64::MAX,
                cls as int == m0.objects[kk].class,
                base as int == m0.objects[kk].base,
                c == m0.obj_class(kk),
                reg == m0.registry,
                c.wf(reg),
                n == c.n_direct(),
                j <= n,
                forall|u: int| 0 <= u < j ==> !chain_has_iid(c, u, *iid),
                forall|x: usize|
                    #[trigger] visited@.contains(x) ==> 0 <= x < reg.len() && reg[x as int].iid
                        != *iid,
            decreases n - j,
        {
            proof {
                assert(m0.object_wf(kk));
                assert(self.classes@[cls as int].class == c);
                assert(c.chains@.len() == c.n_direct());
                assert(c.chain_iids@.len() == c.n_direct());
            }
            let clen = self.classes[cls].class.chains[j].len();
            proof {
                assert(c.chain_ints(j as int).len() == clen);
                assert(c.chain_iids@[j as int]@.len() == clen);
            }
            let mut t: usize = 0;
            while t < clen
                invariant
                    old(self)@ == m0,
                    m0.wf(),
                    self@ == m0,
                    m0.valid_iface_ptr(p as int),
                    kk == m0.owner_of(p as int),
                    k as int == kk,
                    m0.objects[kk].live,
                    m0.objects[kk].count < u64::MAX,
                    cls as int == m0.objects[kk].class,
                    base as int == m0.objects[kk].base,
                    c == m0.obj_class(kk),
                    reg == m0.registry,
                    c.wf(reg),
                    n == c.n_direct(),
                    j < n,
                    clen == c.chain_ints(j as int).len(),
                    t <= clen,
                    forall|u: int| 0 <= u < j ==> !chain_has_iid(c, u, *iid),
                    forall|u: int| 0 <= u < t ==> c.chain_iids@[j as int]@[u] != *iid,
                    forall|x: usize|
                        #[trigger] visited@.contains(x) ==> 0 <= x < reg.len() && reg[x as int].iid
                            != *iid,
                decreases clen - t,
            {
                proof {
                    assert(m0.object_wf(kk));
                    assert(self.classes@[cls as int].class == c);
                    assert(c.chains@.len() == c.n_direct());
                    assert(c.chain_iids@.len() == c.n_direct());
                }
                let iface_idx = self.classes[cls].class.chains[j][t];
                proof {
                    assert(c.chain_ints(j as int)[t as int] == iface_idx as int);
                    assert(chain_ok(reg, c.direct@[j as int] as int, c.chain_ints(j as int)));
                    assert(0 <= iface_idx < reg.len());
                    assert(c.chain_iids@[j as int]@[t as int] == reg[iface_idx as int].iid);
                }
                if !Self::seen_contains(&visited, iface_idx) {
                    let ghost prev_visited = visited@;
                    visited.push(iface_idx);
                    let entry_iid = self.classes[cls].class.chain_iids[j][t];
                    proof {
                        assert(entry_iid == c.chain_iids@[j as int]@[t as int]);
                    }
                    if entry_iid.matches(iid) {
                        proof {
                            assert(chain_has_iid(c, j as int, *iid));
                            lemma_qi_match_first(c, *iid, j as int);
                            assert(m0.object_wf(kk));
                            assert(m0.obj_n_direct(kk) <= m0.obj_size(kk));
                            assert(m0.objects[kk].base + m0.obj_size(kk) <= m0.next_addr);
                            assert(m0.next_addr <= usize::MAX);
                        }
                        let out = base + j;
                        proof {
                            assert(qi_match(c, *iid) == Some(j as int));
                            assert(out as int == m0.objects[kk].base + (j as int));
                        }
                        self.addref(p);
                        proof {
                            assert(self@ == m0.addref_step(kk));
                        }
                        return Ok(out);
                    }
                    proof {
                        assert forall|x: usize| #[trigger] visited@.contains(x) implies 0 <= x
                            < reg.len() && reg[x as int].iid != *iid by {
                            if x != iface_idx {
                                let ix = choose|n2: int|
                                    0 <= n2 < visited@.len() && visited@[n2] == x;
                                assert(prev_visited[ix] == x);
                                assert(prev_visited.contains(x));
                            }
                        }
                    }
                } else {
                    proof {
                        assert(reg[iface_idx as int].iid != *iid);
                        assert(c.chain_iids@[j as int]@[t as int] != *iid);
                    }
                }
                t += 1;
            }
            proof {
                assert(!chain_has_iid(c, j as int, *iid));
            }
            j += 1;
        }
        proof {
            lemma_qi_match_none(c, *iid);
        }
        Err(RuntimeError::NoInterfaceMatch)
    }

    /// Typed interface discovery with the out-parameter pattern: run
    /// discovery into a fresh out-parameter holder and claim the
    /// result as an owning pointer, with no retain beyond the one
    /// discovery itself performed.
    pub fn query_interface_refptr(&mut self, p: usize, iid: &nsID) -> (r: Option<
        crate::refptr::RefPtr,
    >)
        requires
            old(self)@.wf(),
            old(self)@.valid_iface_ptr(p as int),
            old(self)@.objects[old(self)@.owner_of(p as int)].live,
            old(self)@.objects[old(self)@.owner_of(p as int)].count < u64::MAX,
        ensures
            final(self)@.wf(),
            ({
                let k = old(self)@.owner_of(p as int);
                let c = old(self)@.obj_class(k);
                match qi_match(c, *iid) {
                    Some(j) => r == Some(
                        crate::refptr::RefPtr { raw: (old(self)@.objects[k].base + j) as usize },
                    ) && final(self)@ == old(self)@.addref_step(k),
                    None => r is None && final(self)@ == old(self)@,
                }
            }),
    {
        proof {
            let kk = self@.owner_of(p as int);
            assert(self@.object_wf(kk));
        }
        let mut ga = crate::refptr::GetterAddrefs::new();
        match self.query_interface(p, iid) {
            Ok(q) => {
                proof {
                    let kk = old(self)@.owner_of(p as int);
                    let c = old(self)@.obj_class(kk);
                    lemma_qi_match_range(c, *iid, 0);
                    assert(old(self)@.object_wf(kk));
                    assert(old(self)@.obj_n_direct(kk) <= old(self)@.obj_size(kk));
                    assert(q != 0);
                }
                *ga.ptr() = q;
                ga.refptr()
            },
            Err(_) => None,
        }
    }

    /// Read the vtable pointer stored in the word the interface
    /// pointer `p` addresses: the canonical static table address of
    /// that interface field.
    pub fn get_vtable(&self, p: usize) -> (a: usize)
        requires
            self@.wf(),
            self@.valid_iface_ptr(p as int),
        ensures
            ({
                let k = self@.owner_of(p as int);
                let j = p - self@.objects[k].base;
                a as int == self@.classes[self@.objects[k].class].table_addrs[j]
            }),
    {
        let k = self.resolve(p);
        let cls = self.objects[k].class;
        let base = self.objects[k].base;
        proof {
            assert(self@.object_wf(k as int));
            assert(self@.class_entry_wf(cls as int));
        }
        self.classes[cls].table_addrs[p - base]
    }

    /// Invoke dispatch slot `slot` through the interface pointer `p`:
    /// read the vtable pointer stored at `p`, take the table's `slot`-th
    /// trampoline, recover the owning component by subtracting the
    /// trampoline's precomputed field offset from `p`, and land on that
    /// component with the slot's method identity. A null `p` fails fast
    /// with `NullArgument`.
    pub fn dispatch(&self, p: usize, slot: usize) -> (r: Result<DispatchTarget, RuntimeError>)
        requires
            self@.wf(),
            p != 0 ==> self@.valid_iface_ptr(p as int),
            p != 0 ==> slot < self@.obj_class(self@.owner_of(p as int)).vtables@[p
                - self@.objects[self@.owner_of(p as int)].base]@.len(),
        ensures
            p == 0 ==> r == Err::<DispatchTarget, RuntimeError>(RuntimeError::NullArgument),
            p != 0 ==> ({
                let k = self@.owner_of(p as int);
                let c = self@.obj_class(k);
                let j = p - self@.objects[k].base;
                let sl = c.vtables@[j]@[slot as int];
                r == Ok::<DispatchTarget, RuntimeError>(
                    DispatchTarget {
                        this: (p - sl.owner_field) as usize,
                        iface: sl.iface,
                        method: sl.method,
                    },
                ) && (p - sl.owner_field) == self@.objects[k].base
            }),
    {
        if p == 0 {
            return Err(RuntimeError::NullArgument);
        }
        let k = self.resolve(p);
        let cls = self.objects[k].class;
        let base = self.objects[k].base;
        proof {
            assert(self@.object_wf(k as int));
            assert(self@.class_entry_wf(cls as int));
        }
        let j = p - base;
        let vt_addr = self.classes[cls].table_addrs[j];
        let ti = self.classes[cls].table_idxs[j];
        proof {
            assert(self@.classes[cls as int].table_idxs[j as int] == ti as int);
            assert(self@.tables[ti as int].addr == self@.classes[cls as int].table_addrs[j as int]);
            assert(self@.tables[ti as int].slots == self@.obj_class(k as int).vtables@[j as int]@);
        }
        let sl = self.tables[ti].table.slots[slot];
        proof {
            let c = self@.obj_class(k as int);
            assert(sl == c.vtables@[j as int]@[slot as int]);
            assert(sl.owner_field == j);
        }
        Ok(DispatchTarget { this: p - sl.owner_field, iface: sl.iface, method: sl.method })
    }

    /// Static coercion of the component owning `p` to an ancestor
    /// interface it implements: return the interface pointer for
    /// registry interface `target` without touching the reference
    /// count. Unlike interface discovery this is infallible: the caller
    /// guarantees, as the generated accessors do at compile time, that
    /// the class reaches `target` through some chain.
    pub fn coerce(&self, p: usize, target: usize) -> (r: usize)
        requires
            self@.wf(),
            self@.valid_iface_ptr(p as int),
            coerce_field(self@.obj_class(self@.owner_of(p as int)), target as int) is Some,
        ensures
            ({
                let k = self@.owner_of(p as int);
                let c = self@.obj_class(k);
                r as int == self@.objects[k].base + coerce_field(c, target as int)->Some_0
            }),
    {
        let k = self.resolve(p);
        let cls = self.objects[k].class;
        let base = self.objects[k].base;
        proof {
            assert(self@.object_wf(k as int));
            assert(self@.class_entry_wf(cls as int));
        }
        let ghost c = self@.obj_class(k as int);
        let n = self.classes[cls].class.direct.len();
        let mut j: usize = 0;
        while j < n
            invariant
                self@.wf(),
                self@.owns(k as int, p as int),
                k as int == self@.owner_of(p as int),
                cls as int == self@.objects[k as int].class,
                base as int == self@.objects[k as int].base,
                c == self@.obj_class(k as int),
                c.wf(self@.registry),
                n == c.n_direct(),
                j <= n,
                coerce_field(c, target as int) is Some,
                forall|u: int| 0 <= u < j ==> !chain_has_iface(c, u, target as int),
            decreases n - j,
        {
            proof {
                assert(self@.object_wf(k as int));
                assert(self.classes@[cls as int].class == c);
                assert(c.chains@.len() == c.n_direct());
            }
            let clen = self.classes[cls].class.chains[j].len();
            proof {
                assert(c.chain_ints(j as int).len() == clen);
            }
            let mut t: usize = 0;
            while t < clen
                invariant
                    self@.wf(),
                    self@.owns(k as int, p as int),
                    k as int == self@.owner_of(p as int),
                    cls as int == self@.objects[k as int].class,
                    base as int == self@.objects[k as int].base,
                    (k as int) < self@.objects.len(),
                    c == self@.obj_class(k as int),
                    c.wf(self@.registry),
                    n == c.n_direct(),
                    j < n,
                    clen == c.chain_ints(j as int).len(),
                    t <= clen,
                    forall|u: int| 0 <= u < j ==> !chain_has_iface(c, u, target as int),
                    forall|u: int| 0 <= u < t ==> c.chain_ints(j as int)[u] != target,
                decreases clen - t,
            {
                proof {
                    assert(self@.object_wf(k as int));
                    assert(self.classes@[cls as int].class == c);
                    assert(c.chains@.len() == c.n_direct());
                }
                let iface_idx = self.classes[cls].class.chains[j][t];
                proof {
                    assert(c.chain_ints(j as int)[t as int] == iface_idx as int);
                }
                if iface_idx == target {
                    proof {
                        assert(chain_has_iface(c, j as int, target as int));
                        lemma_coerce_field_first_from(c, target as int, 0, j as int);
                        assert(self@.object_wf(k as int));
                        assert(self@.obj_n_direct(k as int) <= self@.obj_size(k as int));
                        assert(self@.objects[k as int].base + self@.obj_size(k as int)
                            <= self@.next_addr);
                        assert(self@.next_addr <= usize::MAX);
                    }
                    return base + j;
                }
                t += 1;
            }
            proof {
                assert(!chain_has_iface(c, j as int, target as int));
            }
            j += 1;
        }
        proof {
            lemma_coerce_none_from(c, target as int, 0);
            assert(false);
        }
        0
    }
}

proof fn lemma_coerce_none_from(c: ComponentClass, i: int, s: int)
    requires
        forall|u: int| s <= u < c.n_direct() ==> !chain_has_iface(c, u, i),
    ensures
        coerce_field_from(c, i, s) is None,
    decreases c.n_direct() - s,
{
    if 0 <= s < c.n_direct() {
        lemma_coerce_none_from(c, i, s + 1);
    }
}

/// Whether the base chain of class `c`'s direct interface `j` carries
/// the identifier `iid`.
pub open spec fn chain_has_iid(c: ComponentClass, j: int, iid: nsID) -> bool {
    exists|t: int| 0 <= t < c.chain_iids@[j]@.len() && c.chain_iids@[j]@[t] == iid
}

/// The first direct interface of `c`, scanning from `j` on, whose
/// chain carries `iid`.
pub open spec fn qi_match_from(c: ComponentClass, iid: nsID, j: int) -> Option<int>
    decreases c.n_direct() - j,
{
    if j < 0 || j >= c.n_direct() {
        None
    } else if chain_has_iid(c, j, iid) {
        Some(j)
    } else {
        qi_match_from(c, iid, j + 1)
    }
}

/// Which vtable-pointer field interface discovery resolves `iid` to on
/// a component of class `c`: the first direct interface whose chain
/// (the interface itself or any of its ancestors) carries `iid`; or
/// nothing.
pub open spec fn qi_match(c: ComponentClass, iid: nsID) -> Option<int> {
    qi_match_from(c, iid, 0)
}

/// With no chain before `j` carrying `iid` and chain `j` carrying it,
/// the match is `j`.
pub proof fn lemma_qi_match_first(c: ComponentClass, iid: nsID, j: int)
    requires
        0 <= j < c.n_direct(),
        chain_has_iid(c, j, iid),
        forall|u: int| 0 <= u < j ==> !chain_has_iid(c, u, iid),
    ensures
        qi_match(c, iid) == Some(j),
    decreases j,
{
    lemma_qi_match_first_from(c, iid, 0, j);
}

proof fn lemma_qi_match_first_from(c: ComponentClass, iid: nsID, s: int, j: int)
    requires
        0 <= s <= j < c.n_direct(),
        chain_has_iid(c, j, iid),
        forall|u: int| s <= u < j ==> !chain_has_iid(c, u, iid),
    ensures
        qi_match_from(c, iid, s) == Some(j),
    decreases j - s,
{
    if s < j {
        lemma_qi_match_first_from(c, iid, s + 1, j);
    }
}

/// With no chain carrying `iid`, there is no match.
pub proof fn lemma_qi_match_none(c: ComponentClass, iid: nsID)
    requires
        forall|u: int| 0 <= u < c.n_direct() ==> !chain_has_iid(c, u, iid),
    ensures
        qi_match(c, iid) is None,
{
    lemma_qi_match_none_from(c, iid, 0);
}

proof fn lemma_qi_match_none_from(c: ComponentClass, iid: nsID, s: int)
    requires
        forall|u: int| s <= u < c.n_direct() ==> !chain_has_iid(c, u, iid),
    ensures
        qi_match_from(c, iid, s) is None,
    decreases c.n_direct() - s,
{
    if 0 <= s < c.n_direct() {
        lemma_qi_match_none_from(c, iid, s + 1);
    }
}

/// Whether the base chain of direct interface `j` contains the
/// registry interface `i`.
pub open spec fn chain_has_iface(c: ComponentClass, j: int, i: int) -> bool {
    exists|t: int| 0 <= t < c.chain_ints(j).len() && c.chain_ints(j)[t] == i
}

/// The first direct interface of `c`, from `j` on, whose chain
/// contains registry interface `i`.
pub open spec fn coerce_field_from(c: ComponentClass, i: int, j: int) -> Option<int>
    decreases c.n_direct() - j,
{
    if j < 0 || j >= c.n_direct() {
        None
    } else if chain_has_iface(c, j, i) {
        Some(j)
    } else {
        coerce_field_from(c, i, j + 1)
    }
}

/// Which vtable-pointer field the static coercion to ancestor
/// interface `i` resolves to on class `c`.
pub open spec fn coerce_field(c: ComponentClass, i: int) -> Option<int> {
    coerce_field_from(c, i, 0)
}

proof fn lemma_coerce_field_first_from(c: ComponentClass, i: int, s: int, j: int)
    requires
        0 <= s <= j < c.n_direct(),
        chain_has_iface(c, j, i),
        forall|u: int| s <= u < j ==> !chain_has_iface(c, u, i),
    ensures
        coerce_field_from(c, i, s) == Some(j),
    decreases j - s,
{
    if s < j {
        lemma_coerce_field_first_from(c, i, s + 1, j);
    }
}

/// A discovered field index always lies among the component's
/// vtable-pointer fields.
pub proof fn lemma_qi_match_range(c: ComponentClass, iid: nsID, s: int)
    requires
        qi_match_from(c, iid, s) is Some,
    ensures
        s <= qi_match_from(c, iid, s)->Some_0 < c.n_direct(),
        0 <= qi_match_from(c, iid, s)->Some_0,
    decreases c.n_direct() - s,
{
    if !chain_has_iid(c, s, iid) {
        lemma_qi_match_range(c, iid, s + 1);
    }
}

/// The target an invocation through a dispatch slot lands on: the
/// owning component, recovered from the interface pointer by the
/// trampoline's precomputed offset, and the identity of the method
/// implementation that runs.
#[derive(Clone, Copy, PartialEq, Eq, Structural, Debug)]
pub struct DispatchTarget {
    pub this: usize,
    pub iface: usize,
    pub method: usize,
}

/// Retaining an object preserves the runtime invariant (as long as the
/// count does not overflow).
pub proof fn lemma_step_preserves_wf_addref(m: RuntimeModel, k: int)
    requires
        m.wf(),
        0 <= k < m.objects.len(),
        m.objects[k].live,
        m.objects[k].count < u64::MAX,
    ensures
        m.addref_step(k).wf(),
{
    let m2 = m.addref_step(k);
    assert forall|u: int| 0 <= u < m2.classes.len() implies #[trigger] m2.class_entry_wf(u) by {
        assert(m.class_entry_wf(u));
    }
    assert forall|u: int| 0 <= u < m2.objects.len() implies #[trigger] m2.object_wf(u) by {
        assert(m.object_wf(u));
        assert(m2.obj_size(u) == m.obj_size(u));
        assert(m2.obj_class(u) == m.obj_class(u));
    }
    assert forall|k1: int, k2: int| 0 <= k1 < k2 < m2.objects.len() implies (
    #[trigger] m2.objects[k1]).base + m2.obj_size(k1) <= (#[trigger] m2.objects[k2]).base by {
        assert(m2.obj_size(k1) == m.obj_size(k1));
        assert(m2.objects[k1].base == m.objects[k1].base);
        assert(m2.objects[k2].base == m.objects[k2].base);
    }
}

/// Releasing an object preserves the runtime invariant.
pub proof fn lemma_step_preserves_wf_release(m: RuntimeModel, k: int)
    requires
        m.wf(),
        0 <= k < m.objects.len(),
        m.objects[k].count > 0,
    ensures
        m.release_step(k).wf(),
{
    let m2 = m.release_step(k);
    assert forall|u: int| 0 <= u < m2.classes.len() implies #[trigger] m2.class_entry_wf(u) by {
        assert(m.class_entry_wf(u));
    }
    assert forall|u: int| 0 <= u < m2.objects.len() implies #[trigger] m2.object_wf(u) by {
        assert(m.object_wf(u));
        assert(m2.obj_size(u) == m.obj_size(u));
        assert(m2.obj_class(u) == m.obj_class(u));
    }
    assert forall|k1: int, k2: int| 0 <= k1 < k2 < m2.objects.len() implies (
    #[trigger] m2.objects[k1]).base + m2.obj_size(k1) <= (#[trigger] m2.objects[k2]).base by {
        assert(m2.obj_size(k1) == m.obj_size(k1));
        assert(m2.objects[k1].base == m.objects[k1].base);
        assert(m2.objects[k2].base == m.objects[k2].base);
    }
}


} // verus!
