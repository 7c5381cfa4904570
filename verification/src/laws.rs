//! The library's laws: properties that relate several operations of
//! the runtime, each stated over the same mathematical images the
//! operations' own contracts use, and proved once and for all.
use vstd::prelude::*;

use crate::generator::ComponentClass;
use crate::registry::chain_ok;
use crate::registry::lemma_chain_ok_tail;
use crate::registry::lemma_chain_ok_unique;
use crate::runtime::RuntimeModel;
use crate::runtime::lemma_qi_match_range;
use crate::runtime::chain_has_iface;
use crate::runtime::chain_has_iid;
use crate::runtime::coerce_field;
use crate::runtime::qi_match;
use crate::vtable::flatten_ids;
use crate::vtable::lemma_flatten_prefix;
use crate::vtable::table_ids;

verus! {

/// Prefix compatibility at dispatch time: when one interface appears
/// in the base chains of two vtable-pointer fields of the same
/// component — at position `t1` of field `j1`'s chain and `t2` of
/// field `j2`'s — then for every slot of that shared interface's own
/// table, dispatching through either field's interface pointer lands
/// on the same component (the trampolines' precomputed offsets cancel
/// exactly) and on the same method implementation. Invoking a
/// base-declared method through a derived-typed pointer reinterpreted
/// as base-typed therefore produces the same call a genuine
/// base-typed pointer produces.
pub proof fn lemma_prefix_dispatch_agrees(
    m: RuntimeModel,
    k: int,
    j1: int,
    t1: int,
    j2: int,
    t2: int,
    slot: int,
)
    requires
        m.wf(),
        0 <= k < m.objects.len(),
        0 <= j1 < m.obj_n_direct(k),
        0 <= j2 < m.obj_n_direct(k),
        0 <= t1 < m.obj_class(k).chain_ints(j1).len(),
        0 <= t2 < m.obj_class(k).chain_ints(j2).len(),
        m.obj_class(k).chain_ints(j1)[t1] == m.obj_class(k).chain_ints(j2)[t2],
        0 <= slot < flatten_ids(m.registry, m.obj_class(k).chain_ints(j1).skip(t1)).len(),
    ensures
        ({
            let c = m.obj_class(k);
            &&& slot < c.vtables@[j1]@.len()
            &&& slot < c.vtables@[j2]@.len()
            &&& c.vtables@[j1]@[slot].iface == c.vtables@[j2]@[slot].iface
            &&& c.vtables@[j1]@[slot].method == c.vtables@[j2]@[slot].method
            &&& (m.objects[k].base + j1) - c.vtables@[j1]@[slot].owner_field == m.objects[k].base
            &&& (m.objects[k].base + j2) - c.vtables@[j2]@[slot].owner_field == m.objects[k].base
        }),
{
    let reg = m.registry;
    let c = m.obj_class(k);
    let ch1 = c.chain_ints(j1);
    let ch2 = c.chain_ints(j2);
    let i = ch1[t1];
    assert(m.object_wf(k));
    assert(m.class_entry_wf(m.objects[k].class));
    assert(c.wf(reg));
    assert(chain_ok(reg, c.direct@[j1] as int, ch1));
    assert(chain_ok(reg, c.direct@[j2] as int, ch2));
    lemma_chain_ok_tail(reg, c.direct@[j1] as int, ch1, t1);
    lemma_chain_ok_tail(reg, c.direct@[j2] as int, ch2, t2);
    lemma_chain_ok_unique(reg, i, ch1.skip(t1), ch2.skip(t2));
    lemma_flatten_prefix(reg, ch1, t1);
    lemma_flatten_prefix(reg, ch2, t2);
    let shared = flatten_ids(reg, ch1.skip(t1));
    assert(shared == flatten_ids(reg, ch2.skip(t2)));
    assert(shared.is_prefix_of(flatten_ids(reg, ch1)));
    assert(shared.is_prefix_of(flatten_ids(reg, ch2)));
    assert(table_ids(c.vtables@[j1]@) == flatten_ids(reg, ch1));
    assert(table_ids(c.vtables@[j2]@) == flatten_ids(reg, ch2));
    assert(flatten_ids(reg, ch1)[slot] == shared[slot]);
    assert(flatten_ids(reg, ch2)[slot] == shared[slot]);
    assert(table_ids(c.vtables@[j1]@)[slot] == (
        c.vtables@[j1]@[slot].iface as int,
        c.vtables@[j1]@[slot].method as int,
    ));
    assert(table_ids(c.vtables@[j2]@)[slot] == (
        c.vtables@[j2]@[slot].iface as int,
        c.vtables@[j2]@[slot].method as int,
    ));
    assert(c.vtables@[j1]@[slot].owner_field == j1);
    assert(c.vtables@[j2]@[slot].owner_field == j2);
}

/// Retain then release restores the runtime exactly: one `addref`
/// followed by one `release` on the same live object is the identity
/// on the whole machine image, counts included.
pub proof fn lemma_addref_release_identity(m: RuntimeModel, k: int)
    requires
        m.wf(),
        0 <= k < m.objects.len(),
        m.objects[k].live,
        m.objects[k].count < u64::MAX,
    ensures
        m.addref_step(k).release_step(k) == m,
{
    let m1 = m.addref_step(k);
    let m2 = m1.release_step(k);
    assert(m.object_wf(k));
    assert(m2.objects =~~= m.objects);
    assert(m2 =~~= m);
}

/// The runtime after `n` releases of object `k`.
pub open spec fn release_n(m: RuntimeModel, k: int, n: nat) -> RuntimeModel
    decreases n,
{
    if n == 0 {
        m
    } else {
        release_n(m, k, (n - 1) as nat).release_step(k)
    }
}

/// Each destruction of an owning pointer decreases the live count by
/// exactly one, so releasing as many owners as the count records
/// leaves the count at zero and the component deallocated — and
/// deallocated exactly once: only the final release flips the object
/// out of life. Nothing else in the machine changes.
pub proof fn lemma_release_all_frees(m: RuntimeModel, k: int, n: nat)
    requires
        m.wf(),
        0 <= k < m.objects.len(),
        n <= m.objects[k].count,
    ensures
        release_n(m, k, n).objects.len() == m.objects.len(),
        release_n(m, k, n).objects[k].count == m.objects[k].count - n,
        release_n(m, k, n).objects[k].live <==> m.objects[k].count > n,
        n == 0 ==> release_n(m, k, n) == m,
        forall|u: int|
            0 <= u < m.objects.len() && u != k ==> release_n(m, k, n).objects[u] == m.objects[u],
        release_n(m, k, n).classes == m.classes,
        release_n(m, k, n).tables == m.tables,
        release_n(m, k, n).registry == m.registry,
        release_n(m, k, n).next_addr == m.next_addr,
        release_n(m, k, n).objects[k].base == m.objects[k].base,
        release_n(m, k, n).objects[k].class == m.objects[k].class,
    decreases n,
{
    assert(m.object_wf(k));
    if n > 0 {
        lemma_release_all_frees(m, k, (n - 1) as nat);
    }
}

/// A successful interface discovery hands back a non-null interface
/// pointer into the object itself and retains the object by exactly
/// one, leaving every other object untouched; a failed discovery is
/// the identity. This restates what `query_interface`'s contract
/// guarantees, as one fact about the model.
pub proof fn lemma_qi_result_shape(m: RuntimeModel, k: int)
    requires
        m.wf(),
        0 <= k < m.objects.len(),
        m.objects[k].count < u64::MAX,
    ensures
        forall|iid: crate::base::nsID|
            match #[trigger] qi_match(m.obj_class(k), iid) {
                Some(j) => {
                    &&& 0 <= j < m.obj_n_direct(k)
                    &&& m.objects[k].base + j > 0
                    &&& m.addref_step(k).objects[k].count == m.objects[k].count + 1
                    &&& forall|u: int|
                        0 <= u < m.objects.len() && u != k ==> m.addref_step(k).objects[u]
                            == m.objects[u]
                },
                None => true,
            },
{
    assert(m.object_wf(k));
    assert forall|iid: crate::base::nsID| #[trigger] qi_match(m.obj_class(k), iid) is Some implies {
        let j = qi_match(m.obj_class(k), iid)->Some_0;
        0 <= j < m.obj_n_direct(k)
    } by {
        lemma_qi_match_range(m.obj_class(k), iid, 0);
    }
}


/// Discovery is coercion plus a retain: on a registry with unique
/// identifiers, the vtable-pointer field that interface discovery
/// resolves `reg[i]`'s identifier to is exactly the field the static
/// coercion to interface `i` resolves to — or neither resolves at
/// all.
pub proof fn lemma_qi_is_coerce(m: RuntimeModel, k: int, i: int)
    requires
        m.wf(),
        0 <= k < m.objects.len(),
        0 <= i < m.registry.len(),
        forall|a: int, b: int|
            0 <= a < b < m.registry.len() ==> (#[trigger] m.registry[a]).iid != (
            #[trigger] m.registry[b]).iid,
    ensures
        qi_match(m.obj_class(k), m.registry[i].iid) == coerce_field(m.obj_class(k), i),
{
    let c = m.obj_class(k);
    let reg = m.registry;
    assert(m.object_wf(k));
    assert(m.class_entry_wf(m.objects[k].class));
    assert(c.wf(reg));
    assert forall|j: int| 0 <= j < c.n_direct() implies (chain_has_iid(c, j, reg[i].iid)
        <==> chain_has_iface(c, j, i)) by {
        assert(chain_ok(reg, c.direct@[j] as int, c.chain_ints(j)));
        if chain_has_iid(c, j, reg[i].iid) {
            let t = choose|t: int|
                0 <= t < c.chain_iids@[j]@.len() && c.chain_iids@[j]@[t] == reg[i].iid;
            let x = c.chain_ints(j)[t];
            assert(c.chain_iids@[j]@[t] == reg[x].iid);
            assert(0 <= x < reg.len());
            if x != i {
                if x < i {
                    assert(reg[x].iid != reg[i].iid);
                } else {
                    assert(reg[i].iid != reg[x].iid);
                }
            }
            assert(x == i);
            assert(chain_has_iface(c, j, i));
        }
        if chain_has_iface(c, j, i) {
            let t = choose|t: int| 0 <= t < c.chain_ints(j).len() && c.chain_ints(j)[t] == i;
            assert(c.chain_iids@[j]@[t] == reg[i].iid);
            assert(chain_has_iid(c, j, reg[i].iid));
        }
    }
    lemma_match_scans_agree(c, reg[i].iid, i, 0);
}

/// The two first-match scans agree pointwise once their membership
/// tests agree chain by chain.
proof fn lemma_match_scans_agree(c: ComponentClass, iid: crate::base::nsID, i: int, s: int)
    requires
        forall|j: int|
            0 <= j < c.n_direct() ==> (chain_has_iid(c, j, iid) <==> chain_has_iface(c, j, i)),
    ensures
        crate::runtime::qi_match_from(c, iid, s) == crate::runtime::coerce_field_from(c, i, s),
    decreases c.n_direct() - s,
{
    if 0 <= s < c.n_direct() && !chain_has_iid(c, s, iid) {
        lemma_match_scans_agree(c, iid, i, s + 1);
    }
}

} // verus!
