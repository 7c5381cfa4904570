//! A binary-compatible component object model: interface identifiers,
//! per-interface dispatch tables with base-table embedding, invasive
//! reference counting, runtime interface discovery, and a data-driven
//! generator that lays out component classes from a registry of
//! interface descriptors.
#![allow(non_camel_case_types)]

mod base;
mod generator;
mod interfaces;
mod laws;
mod refptr;
mod registry;
mod runtime;
mod services;
mod strings;
mod vtable;

pub use base::nsID;
pub use base::nsIID;
pub use base::nsCID;
pub use generator::AttrKind;
pub use generator::Attribute;
pub use generator::ComponentClass;
pub use generator::FieldDecl;
pub use generator::InitDescriptor;
pub use generator::LayoutField;
pub use generator::RefcntKind;
pub use generator::build_layout;
pub use generator::generate;
pub use generator::get_bases;
pub use generator::get_refcnt_type;
pub use interfaces::ISupports;
pub use interfaces::IURI;
pub use interfaces::XpCom;
pub use interfaces::query_interface;
pub use generator::bases_of;
pub use generator::chains_outcome;
pub use generator::generate_outcome;
pub use generator::init_named;
pub use generator::refcnt_attr;
pub use generator::refcnt_kind_of;
pub use laws::lemma_addref_release_identity;
pub use laws::lemma_prefix_dispatch_agrees;
pub use laws::lemma_qi_is_coerce;
pub use laws::lemma_qi_result_shape;
pub use laws::lemma_release_all_frees;
pub use laws::release_n;
pub use refptr::AtomicRefcnt;
pub use refptr::GetterAddrefs;
pub use refptr::RefCounted;
pub use refptr::RefPtr;
pub use refptr::Refcnt;
pub use refptr::RefcntCell;
pub use registry::GenError;
pub use registry::Interface;
pub use registry::InterfaceMethods;
pub use registry::Method;
pub use registry::Param;
pub use registry::Registry;
pub use registry::chain_ok;
pub use registry::find_name;
pub use registry::lemma_chain_ok_tail;
pub use registry::lemma_chain_ok_unique;
pub use registry::lemma_walk_chain_ok;
pub use registry::walk_chain;
pub use runtime::ClassModel;
pub use runtime::DispatchTarget;
pub use runtime::ObjectModel;
pub use runtime::Runtime;
pub use runtime::RuntimeError;
pub use runtime::RuntimeModel;
pub use runtime::TableModel;
pub use runtime::chain_has_iface;
pub use runtime::chain_has_iid;
pub use runtime::coerce_field;
pub use runtime::coerce_field_from;
pub use runtime::qi_match_from;
pub use runtime::lemma_owner_unique;
pub use runtime::lemma_qi_match_range;
pub use runtime::lemma_step_preserves_wf_addref;
pub use runtime::lemma_step_preserves_wf_release;
pub use runtime::qi_match;
pub use runtime::words_upto;
pub use services::CacheModel;
pub use services::ServiceCache;
pub use services::ServiceError;
pub use services::find_service;
pub use services::lemma_release_keeps_resolution;
pub use services::release_list;
pub use strings::nsACString;
pub use strings::nsAString;
pub use strings::nsCString;
pub use strings::nsString;
pub use vtable::VTable;
pub use vtable::VTableSlot;
pub use vtable::flatten_ids;
pub use vtable::iface_slot_ids;
pub use vtable::lemma_flatten_prefix;
pub use vtable::synthesize_vtable;
pub use vtable::table_ids;
