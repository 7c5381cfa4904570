//! The read-only interface registry: one descriptor per interface name,
//! each giving the interface's identifier, its optional base interface,
//! and its ordered method list (or a marker that the interface cannot be
//! implemented). The registry also resolves an interface's full base
//! chain, failing fast on unknown names, unimplementable interfaces and
//! malformed (cyclic) base links.
use vstd::prelude::*;

use crate::base::nsID;

verus! {

/// One named, typed parameter of an interface method.
#[derive(Clone, Debug)]
pub struct Param {
    pub name: String,
    pub ty: String,
}

/// One interface method: a name, an ordered parameter list, and a return
/// type. Method order within a descriptor is an ABI contract.
#[derive(Clone, Debug)]
pub struct Method {
    pub name: String,
    pub params: Vec<Param>,
    pub ret: String,
}

/// The method list of a descriptor: either the ordered methods of the
/// interface, or a sentinel naming the reason the interface cannot be
/// implemented here.
#[derive(Clone, Debug)]
pub enum InterfaceMethods {
    Supported(Vec<Method>),
    Unsupported(String),
}

/// One interface descriptor: name, 128-bit identifier, optional base
/// interface name, and the method list.
#[derive(Clone, Debug)]
pub struct Interface {
    pub name: String,
    pub iid: nsID,
    pub base: Option<String>,
    pub methods: InterfaceMethods,
}

impl Interface {
    /// True when the descriptor carries a method list, so a dispatch
    /// table can be synthesized for it.
    pub open spec fn spec_supported(self) -> bool {
        self.methods is Supported
    }

    /// The number of methods the interface itself declares (not counting
    /// its base's methods); zero for an unimplementable descriptor.
    pub open spec fn method_count(self) -> nat {
        match self.methods {
            InterfaceMethods::Supported(ms) => ms@.len(),
            InterfaceMethods::Unsupported(_) => 0,
        }
    }
}

/// A generation-time failure. Generation aborts eagerly on the first
/// inconsistency between the declared component and the registry.
#[derive(Clone, Copy, PartialEq, Eq, Structural, Debug)]
pub enum GenError {
    /// A named interface does not resolve in the registry.
    UnknownInterface,
    /// A resolved descriptor is marked unimplementable.
    UnsupportedInterface,
    /// Following base links from a descriptor revisits an interface:
    /// the registry is malformed.
    CyclicBase,
    /// The component declares no interface, or lacks the required
    /// reference-count attribute.
    MissingRequiredAttribute,
    /// A generic payload record was declared; a single static dispatch
    /// table cannot serve every instantiation.
    GenericTypeRejected,
    /// The cycle-collected reference-count kind was requested; only the
    /// atomic and non-atomic kinds are supported.
    UnsupportedRefcnt,
    /// A recognized attribute carries a value of the wrong shape.
    MalformedAttribute,
    /// The initializer record's name does not begin with `Init`, or
    /// nothing follows that prefix.
    BadComponentName,
}

/// First index in `s` whose descriptor is named `name`, or -1.
pub open spec fn find_name(s: Seq<Interface>, name: Seq<char>) -> int
    decreases s.len(),
{
    if s.len() == 0 {
        -1
    } else if s[0].name@ == name {
        0
    } else {
        let r = find_name(s.drop_first(), name);
        if r < 0 {
            -1
        } else {
            r + 1
        }
    }
}

/// `find_name` returns the first match: a hit at `i` with no earlier hit
/// pins the result to `i`.
proof fn lemma_find_name_first(s: Seq<Interface>, name: Seq<char>, i: int)
    requires
        0 <= i < s.len(),
        s[i].name@ == name,
        forall|k: int| 0 <= k < i ==> s[k].name@ != name,
    ensures
        find_name(s, name) == i,
    decreases s.len(),
{
    if i > 0 {
        lemma_find_name_first(s.drop_first(), name, i - 1);
    }
}

/// With no match anywhere, `find_name` is -1.
proof fn lemma_find_name_absent(s: Seq<Interface>, name: Seq<char>)
    requires
        forall|k: int| 0 <= k < s.len() ==> s[k].name@ != name,
    ensures
        find_name(s, name) == -1,
    decreases s.len(),
{
    if s.len() > 0 {
        lemma_find_name_absent(s.drop_first(), name);
    }
}

/// A found name lies in range and names a matching descriptor, and no
/// earlier descriptor matches.
proof fn lemma_find_name_found(s: Seq<Interface>, name: Seq<char>)
    requires
        find_name(s, name) >= 0,
    ensures
        find_name(s, name) < s.len(),
        s[find_name(s, name)].name@ == name,
        forall|k: int| 0 <= k < find_name(s, name) ==> s[k].name@ != name,
    decreases s.len(),
{
    if s.len() > 0 && s[0].name@ != name {
        lemma_find_name_found(s.drop_first(), name);
        let r = find_name(s, name);
        assert forall|k: int| 0 <= k < r implies s[k].name@ != name by {
            if k > 0 {
                assert(s[k] == s.drop_first()[k - 1]);
            }
        }
    }
}

/// With `find_name` negative, no descriptor matches.
proof fn lemma_find_name_neg(s: Seq<Interface>, name: Seq<char>)
    requires
        find_name(s, name) < 0,
    ensures
        forall|k: int| 0 <= k < s.len() ==> s[k].name@ != name,
    decreases s.len(),
{
    if s.len() > 0 {
        lemma_find_name_neg(s.drop_first(), name);
        assert forall|k: int| 0 <= k < s.len() implies s[k].name@ != name by {
            if k > 0 {
                assert(s[k] == s.drop_first()[k - 1]);
            }
        }
    }
}

/// The spec-level base-chain walk from entry `i`, with `fuel` limiting
/// the number of base links followed. Returns the error the walk runs
/// into, or the resolved chain, derived interface first.
pub open spec fn walk_chain(reg: Seq<Interface>, i: int, fuel: nat) -> Result<Seq<int>, GenError>
    decreases fuel,
{
    if !reg[i].spec_supported() {
        Err(GenError::UnsupportedInterface)
    } else {
        match reg[i].base {
            None => Ok(seq![i]),
            Some(base_name) => {
                let j = find_name(reg, base_name@);
                if j < 0 {
                    Err(GenError::UnknownInterface)
                } else if fuel == 0 {
                    Err(GenError::CyclicBase)
                } else {
                    match walk_chain(reg, j, (fuel - 1) as nat) {
                        Ok(rest) => Ok(seq![i] + rest),
                        Err(e) => Err(e),
                    }
                }
            },
        }
    }
}

/// What a resolved chain looks like: it starts at `start`, each entry is
/// supported, each link follows the recorded base name, and the last
/// entry has no base.
pub open spec fn chain_ok(reg: Seq<Interface>, start: int, c: Seq<int>) -> bool {
    &&& c.len() >= 1
    &&& c[0] == start
    &&& forall|t: int| 0 <= t < c.len() ==> 0 <= #[trigger] c[t] < reg.len()
    &&& forall|t: int| 0 <= t < c.len() ==> reg[#[trigger] c[t]].spec_supported()
    &&& forall|t: int|
        0 <= t < c.len() - 1 ==> (#[trigger] reg[c[t]].base) is Some && find_name(
            reg,
            reg[c[t]].base->0@,
        ) == c[t + 1]
    &&& reg[c[c.len() - 1]].base is None
}

/// A successful walk yields a well-formed chain.
pub proof fn lemma_walk_chain_ok(reg: Seq<Interface>, i: int, fuel: nat)
    requires
        0 <= i < reg.len(),
        walk_chain(reg, i, fuel) is Ok,
    ensures
        chain_ok(reg, i, walk_chain(reg, i, fuel)->Ok_0),
        walk_chain(reg, i, fuel)->Ok_0.len() <= fuel + 1,
    decreases fuel,
{
    let c = walk_chain(reg, i, fuel)->Ok_0;
    match reg[i].base {
        None => {},
        Some(base_name) => {
            let j = find_name(reg, base_name@);
            lemma_find_name_found(reg, base_name@);
            lemma_walk_chain_ok(reg, j, (fuel - 1) as nat);
            let rest = walk_chain(reg, j, (fuel - 1) as nat)->Ok_0;
            assert(c == seq![i] + rest);
            assert forall|t: int| 0 <= t < c.len() - 1 implies (
            #[trigger] reg[c[t]].base) is Some && find_name(reg, reg[c[t]].base->0@) == c[t + 1] by {
                if t > 0 {
                    assert(c[t] == rest[t - 1]);
                    assert(c[t + 1] == rest[t]);
                }
            }
        },
    }
}

/// Every tail of a well-formed chain is a well-formed chain of its own
/// head.
pub proof fn lemma_chain_ok_tail(reg: Seq<Interface>, start: int, c: Seq<int>, t: int)
    requires
        chain_ok(reg, start, c),
        0 <= t < c.len(),
    ensures
        chain_ok(reg, c[t], c.skip(t)),
{
    let s = c.skip(t);
    assert forall|u: int| 0 <= u < s.len() - 1 implies (#[trigger] reg[s[u]].base) is Some
        && find_name(reg, reg[s[u]].base->0@) == s[u + 1] by {
        assert(s[u] == c[t + u]);
        assert(s[u + 1] == c[t + u + 1]);
    }
    assert(s[s.len() - 1] == c[c.len() - 1]);
}

/// Base links are deterministic, so a chain is pinned by its head: two
/// well-formed chains from the same interface are equal.
pub proof fn lemma_chain_ok_unique(reg: Seq<Interface>, start: int, c1: Seq<int>, c2: Seq<int>)
    requires
        chain_ok(reg, start, c1),
        chain_ok(reg, start, c2),
    ensures
        c1 == c2,
    decreases c1.len(),
{
    if c1.len() == 1 || c2.len() == 1 {
        assert(reg[start].base is None);
        if c1.len() > 1 {
            assert(reg[c1[0]].base is Some);
        }
        if c2.len() > 1 {
            assert(reg[c2[0]].base is Some);
        }
        assert(c1 =~= c2);
    } else {
        assert(reg[c1[0]].base is Some);
        let next = find_name(reg, reg[start].base->0@);
        assert(c1[1] == next && c2[1] == next);
        lemma_chain_ok_tail(reg, start, c1, 1);
        lemma_chain_ok_tail(reg, start, c2, 1);
        lemma_chain_ok_unique(reg, next, c1.skip(1), c2.skip(1));
        assert(c1 =~= c2) by {
            assert(forall|u: int|
                1 <= u < c1.len() ==> c1[u] == c1.skip(1)[u - 1] && c2[u] == c2.skip(1)[u - 1]);
        }
    }
}

/// The read-only registry: interface descriptors keyed by name. Names
/// and identifiers are unique once `add` has accepted the entries.
pub struct Registry {
    entries: Vec<Interface>,
}

impl View for Registry {
    type V = Seq<Interface>;

    closed spec fn view(&self) -> Seq<Interface> {
        self.entries@
    }
}

impl Registry {
    /// Well-formed registries have pairwise-distinct names and
    /// pairwise-distinct identifiers.
    pub open spec fn wf(self) -> bool {
        &&& forall|a: int, b: int|
            0 <= a < b < self@.len() ==> (#[trigger] self@[a]).name@ != (#[trigger] self@[b]).name@
        &&& forall|a: int, b: int|
            0 <= a < b < self@.len() ==> (#[trigger] self@[a]).iid != (#[trigger] self@[b]).iid
    }

    /// An empty registry.
    pub fn new() -> (r: Registry)
        ensures
            r@ == Seq::<Interface>::empty(),
            r.wf(),
    {
        Registry { entries: Vec::new() }
    }

    pub fn len(&self) -> (n: usize)
        ensures
            n == self@.len(),
    {
        self.entries.len()
    }

    pub fn get(&self, i: usize) -> (r: &Interface)
        requires
            i < self@.len(),
        ensures
            *r == self@[i as int],
    {
        &self.entries[i]
    }

    /// Index of the descriptor named `name`, if any. Under `wf` the
    /// index is the unique one; in general it is the first.
    pub fn lookup(&self, name: &String) -> (r: Option<usize>)
        ensures
            match r {
                Some(i) => i < self@.len() && find_name(self@, name@) == i,
                None => find_name(self@, name@) == -1,
            },
    {
        let n = self.entries.len();
        let mut i: usize = 0;
        while i < n
            invariant
                n == self@.len(),
                i <= n,
                forall|k: int| 0 <= k < i ==> self@[k].name@ != name@,
            decreases n - i,
        {
            if self.entries[i].name.eq(name) {
                proof {
                    lemma_find_name_first(self@, name@, i as int);
                }
                return Some(i);
            }
            i += 1;
        }
        proof {
            lemma_find_name_absent(self@, name@);
        }
        None
    }

    /// Add a descriptor. Rejected (registry unchanged) when its name or
    /// identifier collides with an entry already present; so `add` keeps
    /// the registry well-formed.
    pub fn add(&mut self, iface: Interface) -> (r: bool)
        requires
            old(self).wf(),
        ensures
            final(self).wf(),
            r ==> final(self)@ == old(self)@.push(iface),
            !r ==> final(self)@ == old(self)@,
            r == (find_name(old(self)@, iface.name@) == -1 && forall|k: int|
                0 <= k < old(self)@.len() ==> (#[trigger] old(self)@[k]).iid != iface.iid),
    {
        if self.lookup(&iface.name).is_some() {
            proof {
                lemma_find_name_found(self@, iface.name@);
            }
            return false;
        }
        let n = self.entries.len();
        let mut i: usize = 0;
        while i < n
            invariant
                *self == *old(self),
                old(self).wf(),
                n == self@.len(),
                i <= n,
                forall|k: int| 0 <= k < i ==> (#[trigger] self@[k]).iid != iface.iid,
            decreases n - i,
        {
            if self.entries[i].iid.matches(&iface.iid) {
                return false;
            }
            i += 1;
        }
        proof {
            lemma_find_name_neg(self@, iface.name@);
        }
        let ghost before = self@;
        self.entries.push(iface);
        proof {
            assert forall|a: int, b: int| 0 <= a < b < self@.len() implies (
            #[trigger] self@[a]).name@ != (#[trigger] self@[b]).name@ && (#[trigger] self@[a]).iid
                != (#[trigger] self@[b]).iid by {
                if b < before.len() {
                    assert(self@[a] == before[a] && self@[b] == before[b]);
                } else {
                    assert(self@[b] == iface);
                    assert(self@[a] == before[a]);
                }
            }
        }
        return true;
    }

    /// Resolve the full base chain of entry `i`, derived interface
    /// first: exactly the spec-level walk with fuel `self@.len()`.
    pub fn resolve_chain(&self, i: usize) -> (r: Result<Vec<usize>, GenError>)
        requires
            i < self@.len(),
        ensures
            match r {
                Ok(c) => walk_chain(self@, i as int, self@.len()) == Ok::<Seq<int>, GenError>(
                    c@.map_values(|x: usize| x as int),
                ),
                Err(e) => walk_chain(self@, i as int, self@.len()) == Err::<Seq<int>, GenError>(e),
            },
    {
        let fuel = self.entries.len();
        self.resolve_from(i, fuel)
    }

    /// The recursive body of `resolve_chain`, mirroring `walk_chain`.
    fn resolve_from(&self, i: usize, fuel: usize) -> (r: Result<Vec<usize>, GenError>)
        requires
            i < self@.len(),
        ensures
            match r {
                Ok(c) => walk_chain(self@, i as int, fuel as nat) == Ok::<Seq<int>, GenError>(
                    c@.map_values(|x: usize| x as int),
                ),
                Err(e) => walk_chain(self@, i as int, fuel as nat) == Err::<Seq<int>, GenError>(e),
            },
        decreases fuel,
    {
        let entry = &self.entries[i];
        match &entry.methods {
            InterfaceMethods::Unsupported(_) => Err(GenError::UnsupportedInterface),
            InterfaceMethods::Supported(_) => {
                match &entry.base {
                    None => {
                        let mut c: Vec<usize> = Vec::new();
                        c.push(i);
                        proof {
                            assert(c@.map_values(|x: usize| x as int) =~= seq![i as int]);
                        }
                        Ok(c)
                    },
                    Some(base_name) => {
                        match self.lookup(base_name) {
                            None => Err(GenError::UnknownInterface),
                            Some(j) => {
                                if fuel == 0 {
                                    Err(GenError::CyclicBase)
                                } else {
                                    match self.resolve_from(j, fuel - 1) {
                                        Ok(rest) => {
                                            let mut c: Vec<usize> = Vec::new();
                                            c.push(i);
                                            let mut k: usize = 0;
                                            let rn = rest.len();
                                            while k < rn
                                                invariant
                                                    rn == rest@.len(),
                                                    k <= rn,
                                                    c@ == seq![i].add(rest@.subrange(0, k as int)),
                                                decreases rn - k,
                                            {
                                                c.push(rest[k]);
                                                k += 1;
                                                proof {
                                                    assert(c@ =~= seq![i].add(
                                                        rest@.subrange(0, k as int),
                                                    ));
                                                }
                                            }
                                            proof {
                                                assert(rest@.subrange(0, rn as int) =~= rest@);
                                                assert(c@.map_values(|x: usize| x as int)
                                                    =~= seq![i as int] + rest@.map_values(
                                                    |x: usize| x as int,
                                                ));
                                            }
                                            Ok(c)
                                        },
                                        Err(e) => Err(e),
                                    }
                                }
                            },
                        }
                    },
                }
            },
        }
    }
}

} // verus!
