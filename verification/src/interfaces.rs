//! Interface identity: the typed markers for the root interface every
//! chain ends at and for a sample derived interface, each carrying its
//! fixed 128-bit identifier and able to produce its registry
//! descriptor.
use vstd::prelude::*;

use crate::base::nsID;
use crate::base::nsIID;
use crate::refptr::RefPtr;
use crate::registry::Interface;
use crate::registry::InterfaceMethods;
use crate::registry::Method;
use crate::registry::Param;
use crate::runtime::Runtime;
use crate::runtime::qi_match;

verus! {

/// Typed interface discovery: discover the interface a marker type
/// names on the object owning `p`, as an owning pointer. Success
/// retains the object once; failure leaves it untouched.
pub fn query_interface<T: XpCom>(rt: &mut Runtime, p: usize) -> (r: Option<RefPtr>)
    requires
        old(rt)@.wf(),
        old(rt)@.valid_iface_ptr(p as int),
        old(rt)@.objects[old(rt)@.owner_of(p as int)].live,
        old(rt)@.objects[old(rt)@.owner_of(p as int)].count < u64::MAX,
    ensures
        final(rt)@.wf(),
        ({
            let k = old(rt)@.owner_of(p as int);
            let c = old(rt)@.obj_class(k);
            match qi_match(c, T::spec_iid()) {
                Some(j) => r == Some(RefPtr { raw: (old(rt)@.objects[k].base + j) as usize })
                    && final(rt)@ == old(rt)@.addref_step(k),
                None => r is None && final(rt)@ == old(rt)@,
            }
        }),
{
    let iid = T::iid();
    rt.query_interface_refptr(p, &iid)
}

/// A type standing for one interface: it knows the interface's
/// identifier. The result of interface discovery for `iid()` is a
/// pointer to a view of the object as this interface.
pub trait XpCom {
    /// The identifier, at the specification level.
    spec fn spec_iid() -> nsIID;

    /// The interface's 128-bit identifier.
    fn iid() -> (r: nsIID)
        ensures
            r == Self::spec_iid(),
    ;
}

/// The root interface: every base chain ends here. Its three methods,
/// in this fixed order, are the ABI every component exposes first.
pub struct ISupports;

impl XpCom for ISupports {
    open spec fn spec_iid() -> nsIID {
        nsID(0x00000000, 0x0000, 0x0000, [0xc0, 0x00, 0x00, 0x00, 0x00, 0x00, 0x00, 0x46])
    }

    fn iid() -> (r: nsIID) {
        nsID(0x00000000, 0x0000, 0x0000, [0xc0, 0x00, 0x00, 0x00, 0x00, 0x00, 0x00, 0x46])
    }
}

impl ISupports {
    /// The registry descriptor of the root interface: no base, and the
    /// three methods of the reference-counting and discovery ABI, in
    /// order.
    pub fn interface() -> (r: Interface)
        ensures
            r.name@ == "ISupports"@,
            r.iid == Self::spec_iid(),
            r.base is None,
            r.methods matches InterfaceMethods::Supported(ms) && ms@.len() == 3
                && ms@[0].name@ == "QueryInterface"@ && ms@[0].params@.len() == 2
                && ms@[0].params@[0].name@ == "uuid"@ && ms@[0].params@[1].name@ == "result"@
                && ms@[0].ret@ == "nsresult"@ && ms@[1].name@ == "AddRef"@ && ms@[1].params@.len()
                == 0 && ms@[1].ret@ == "nsrefcnt"@ && ms@[2].name@ == "Release"@
                && ms@[2].params@.len() == 0 && ms@[2].ret@ == "nsrefcnt"@,
    {
        let mut qi_params: Vec<Param> = Vec::new();
        qi_params.push(Param { name: "uuid".to_owned(), ty: "nsIIDRef".to_owned() });
        qi_params.push(Param { name: "result".to_owned(), ty: "VoidPtrPtr".to_owned() });
        let mut ms: Vec<Method> = Vec::new();
        ms.push(
            Method {
                name: "QueryInterface".to_owned(),
                params: qi_params,
                ret: "nsresult".to_owned(),
            },
        );
        ms.push(Method { name: "AddRef".to_owned(), params: Vec::new(), ret: "nsrefcnt".to_owned() });
        ms.push(
            Method { name: "Release".to_owned(), params: Vec::new(), ret: "nsrefcnt".to_owned() },
        );
        Interface {
            name: "ISupports".to_owned(),
            iid: ISupports::iid(),
            base: None,
            methods: InterfaceMethods::Supported(ms),
        }
    }
}

/// A sample derived interface with `ISupports` as its base: a URI
/// accessor surface. Its dispatch table embeds the root's table as a
/// leading prefix.
pub struct IURI;

impl XpCom for IURI {
    open spec fn spec_iid() -> nsIID {
        nsID(0x92073a54, 0x6d78, 0x4f30, [0x91, 0x3a, 0xb8, 0x71, 0x81, 0x32, 0x08, 0xc6])
    }

    fn iid() -> (r: nsIID) {
        nsID(0x92073a54, 0x6d78, 0x4f30, [0x91, 0x3a, 0xb8, 0x71, 0x81, 0x32, 0x08, 0xc6])
    }
}

impl IURI {
    /// The registry descriptor of the URI interface: base `ISupports`,
    /// then its own seven accessor methods, in order.
    pub fn interface() -> (r: Interface)
        ensures
            r.name@ == "IURI"@,
            r.iid == Self::spec_iid(),
            r.base matches Some(b) && b@ == "ISupports"@,
            r.methods matches InterfaceMethods::Supported(ms) && ms@.len() == 7
                && ms@[0].name@ == "get_spec"@ && ms@[1].name@ == "set_spec"@ && ms@[2].name@
                == "get_prepath"@ && ms@[3].name@ == "get_scheme"@ && ms@[4].name@ == "set_scheme"@
                && ms@[5].name@ == "get_user_pass"@ && ms@[6].name@ == "set_user_pass"@,
    {
        let mut ms: Vec<Method> = Vec::new();
        ms.push(Self::getter("get_spec", "spec"));
        ms.push(Self::setter("set_spec", "spec"));
        ms.push(Self::getter("get_prepath", "prepath"));
        ms.push(Self::getter("get_scheme", "scheme"));
        ms.push(Self::setter("set_scheme", "scheme"));
        ms.push(Self::getter("get_user_pass", "userpass"));
        ms.push(Self::setter("set_user_pass", "userpass"));
        Interface {
            name: "IURI".to_owned(),
            iid: IURI::iid(),
            base: Some("ISupports".to_owned()),
            methods: InterfaceMethods::Supported(ms),
        }
    }

    /// One attribute-getter method: fills a caller-provided string.
    fn getter(name: &str, param: &str) -> (m: Method)
        ensures
            m.name@ == name@,
            m.params@.len() == 1,
            m.params@[0].name@ == param@,
            m.params@[0].ty@ == "nsACStringRef"@,
            m.ret@ == "nsresult"@,
    {
        let mut params: Vec<Param> = Vec::new();
        params.push(Param { name: param.to_owned(), ty: "nsACStringRef".to_owned() });
        Method { name: name.to_owned(), params, ret: "nsresult".to_owned() }
    }

    /// One attribute-setter method: reads a caller-provided string.
    fn setter(name: &str, param: &str) -> (m: Method)
        ensures
            m.name@ == name@,
            m.params@.len() == 1,
            m.params@[0].name@ == param@,
            m.params@[0].ty@ == "nsACStringRef"@,
            m.ret@ == "nsresult"@,
    {
        let mut params: Vec<Param> = Vec::new();
        params.push(Param { name: param.to_owned(), ty: "nsACStringRef".to_owned() });
        Method { name: name.to_owned(), params, ret: "nsresult".to_owned() }
    }
}

} // verus!
