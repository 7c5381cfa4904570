//! Per-interface dispatch tables. A table for interface `I` with base
//! `B` embeds `B`'s table as its leading slots, recursively, so that a
//! pointer to `I`'s table can be reinterpreted as a pointer to `B`'s
//! table: single-inheritance prefix compatibility. Each slot is a
//! trampoline description: the identity of the method it forwards to,
//! and the precomputed offset of the owning vtable-pointer field within
//! the component's layout, from which the component's address is
//! recovered at dispatch time.
use vstd::prelude::*;
use vstd::seq_lib::*;

use crate::registry::Interface;
use crate::registry::InterfaceMethods;
use crate::registry::Registry;
use crate::registry::chain_ok;

verus! {

/// One dispatch slot: the trampoline for method number `method` of the
/// registry interface `iface`, installed in the vtable stored at word
/// offset `owner_field` of its component; the trampoline recovers the
/// component's address by subtracting that precomputed offset from the
/// interface pointer it is called on.
#[derive(Clone, Copy, PartialEq, Eq, Structural, Debug)]
pub struct VTableSlot {
    pub iface: usize,
    pub method: usize,
    pub owner_field: usize,
}

/// A synthesized dispatch table: the slots of the interface's base
/// chain, root first, so every ancestor's table is a structural prefix.
#[derive(Clone, Debug)]
pub struct VTable {
    pub slots: Vec<VTableSlot>,
}

impl View for VTable {
    type V = Seq<VTableSlot>;

    open spec fn view(&self) -> Seq<VTableSlot> {
        self.slots@
    }
}

impl VTable {
    /// An exact copy of the table (slot for slot).
    pub fn clone_table(&self) -> (r: VTable)
        ensures
            r@ == self@,
    {
        let mut slots: Vec<VTableSlot> = Vec::new();
        let n = self.slots.len();
        let mut i: usize = 0;
        while i < n
            invariant
                n == self@.len(),
                i <= n,
                slots@ == self@.subrange(0, i as int),
            decreases n - i,
        {
            slots.push(self.slots[i]);
            i += 1;
            proof {
                assert(slots@ =~= self@.subrange(0, i as int));
            }
        }
        proof {
            assert(self@.subrange(0, n as int) =~= self@);
        }
        VTable { slots }
    }
}

/// The method identities (interface index, method index) of a slot
/// sequence, with the trampoline's field offset stripped.
pub open spec fn table_ids(t: Seq<VTableSlot>) -> Seq<(int, int)> {
    t.map_values(|s: VTableSlot| (s.iface as int, s.method as int))
}

/// The slot identities interface `i` itself contributes, in descriptor
/// method order.
pub open spec fn iface_slot_ids(reg: Seq<Interface>, i: int) -> Seq<(int, int)> {
    Seq::new(reg[i].method_count(), |m: int| (i, m))
}

/// The slot identities of a full table synthesized for the chain `c`
/// (derived interface first): the base chain's slots, root first, then
/// each derived interface's own methods.
pub open spec fn flatten_ids(reg: Seq<Interface>, c: Seq<int>) -> Seq<(int, int)>
    decreases c.len(),
{
    if c.len() == 0 {
        Seq::empty()
    } else {
        flatten_ids(reg, c.drop_first()) + iface_slot_ids(reg, c[0])
    }
}

/// Prefix compatibility, structurally: the table of any ancestor in the
/// chain (any tail of `c`) is a leading prefix of the chain's full
/// table.
pub proof fn lemma_flatten_prefix(reg: Seq<Interface>, c: Seq<int>, t: int)
    requires
        0 <= t < c.len(),
    ensures
        flatten_ids(reg, c.skip(t)).is_prefix_of(flatten_ids(reg, c)),
    decreases t,
{
    if t == 0 {
        assert(c.skip(0) == c);
        assert(flatten_ids(reg, c).is_prefix_of(flatten_ids(reg, c)));
    } else {
        assert(c.skip(1) == c.drop_first());
        assert(c.drop_first().skip(t - 1) == c.skip(t));
        lemma_flatten_prefix(reg, c.drop_first(), t - 1);
        let inner = flatten_ids(reg, c.drop_first());
        let whole = flatten_ids(reg, c);
        assert(whole == inner + iface_slot_ids(reg, c[0]));
        assert(inner.is_prefix_of(whole)) by {
            assert(whole.subrange(0, inner.len() as int) =~= inner);
        }
        let part = flatten_ids(reg, c.skip(t));
        assert(part.is_prefix_of(inner));
        assert(part.is_prefix_of(whole)) by {
            assert(whole.subrange(0, part.len() as int) =~= part);
        }
    }
}

/// Synthesize the dispatch table for the resolved chain `chain`
/// (derived interface first), installing it at vtable-pointer field
/// `owner_field` of its component: the base's slots come first, and
/// every trampoline carries the same precomputed field offset.
pub fn synthesize_vtable(reg: &Registry, chain: &Vec<usize>, owner_field: usize) -> (r: VTable)
    requires
        chain_ok(reg@, chain@[0] as int, chain@.map_values(|x: usize| x as int)),
    ensures
        table_ids(r@) == flatten_ids(reg@, chain@.map_values(|x: usize| x as int)),
        forall|s: int| 0 <= s < r@.len() ==> (#[trigger] r@[s]).owner_field == owner_field,
{
    let ghost c = chain@.map_values(|x: usize| x as int);
    let mut slots: Vec<VTableSlot> = Vec::new();
    let n = chain.len();
    let mut t: usize = n;
    while t > 0
        invariant
            n == chain@.len(),
            t <= n,
            c == chain@.map_values(|x: usize| x as int),
            chain_ok(reg@, c[0], c),
            table_ids(slots@) == flatten_ids(reg@, c.skip(t as int)),
            forall|s: int| 0 <= s < slots@.len() ==> (#[trigger] slots@[s]).owner_field == owner_field,
        decreases t,
    {
        t -= 1;
        let iface_idx = chain[t];
        assert(c[t as int] == iface_idx as int);
        assert(reg@[iface_idx as int].spec_supported());
        let entry = reg.get(iface_idx);
        match &entry.methods {
            InterfaceMethods::Unsupported(_) => {
                proof {
                    assert(false);
                }
            },
            InterfaceMethods::Supported(methods) => {
                let mcount = methods.len();
                let mut m: usize = 0;
                while m < mcount
                    invariant
                        mcount == reg@[iface_idx as int].method_count(),
                        m <= mcount,
                        c == chain@.map_values(|x: usize| x as int),
                        t < c.len(),
                        c[t as int] == iface_idx as int,
                        table_ids(slots@) == flatten_ids(reg@, c.skip(t + 1)) + iface_slot_ids(
                            reg@,
                            iface_idx as int,
                        ).subrange(0, m as int),
                        forall|s: int|
                            0 <= s < slots@.len() ==> (#[trigger] slots@[s]).owner_field
                                == owner_field,
                    decreases mcount - m,
                {
                    let ghost prev = slots@;
                    slots.push(
                        VTableSlot { iface: iface_idx, method: m, owner_field: owner_field },
                    );
                    proof {
                        assert(table_ids(slots@) =~= table_ids(prev).push(
                            (iface_idx as int, m as int),
                        ));
                        assert(iface_slot_ids(reg@, iface_idx as int).subrange(0, m + 1)
                            =~= iface_slot_ids(reg@, iface_idx as int).subrange(0, m as int).push(
                            (iface_idx as int, m as int),
                        ));
                        assert(table_ids(slots@) =~= flatten_ids(reg@, c.skip(t + 1))
                            + iface_slot_ids(reg@, iface_idx as int).subrange(0, m + 1));
                    }
                    m += 1;
                }
                proof {
                    assert(iface_slot_ids(reg@, iface_idx as int).subrange(0, mcount as int)
                        =~= iface_slot_ids(reg@, iface_idx as int));
                    assert(c.skip(t as int).drop_first() =~= c.skip(t + 1));
                    assert(c.skip(t as int)[0] == c[t as int]);
                    assert(flatten_ids(reg@, c.skip(t as int)) == flatten_ids(reg@, c.skip(t + 1))
                        + iface_slot_ids(reg@, c[t as int]));
                }
            },
        }
    }
    proof {
        assert(c.skip(0) == c);
    }
    VTable { slots }
}

} // verus!
