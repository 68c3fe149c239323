//! Layers two and three, declared and deliberately not implemented.
//!
//! This release is layer 1: the system hosts file, authoritative and always
//! on. A layer that reports [`Capability::Unsupported`] degrades to layer 1;
//! nothing degrades to no blocking.
use vstd::prelude::*;
use crate::services::Capability;
use crate::text::push_str;

verus! {

/// Resolver-level rules.
pub trait ResolverRulesService {
    fn capability(&self) -> Capability;
}

/// Preventing browser workarounds.
pub trait BrowserPolicyService {
    fn capability(&self) -> Capability;
}

/// Why neither layer is there in this release.
pub open spec fn not_in_this_release_reason() -> Seq<char> {
    "This release protects at the level of the whole machine through the system's own address list. Applications that look up addresses on their own are not covered yet."@
}

/// The answer both layers give in this release.
fn not_in_this_release() -> (capability: Capability)
    ensures
        capability matches Capability::Unsupported { because } && because@
            == not_in_this_release_reason(),
{
    let mut out: Vec<char> = Vec::new();
    push_str(
        &mut out,
        "This release protects at the level of the whole machine through the system's own address list. Applications that look up addresses on their own are not covered yet.",
    );
    assert(out@ =~= not_in_this_release_reason());
    Capability::unsupported(crate::text::string_of(out.as_slice()))
}

/// Stands in for layer 2 until it is built.
pub struct ResolverRulesNotInThisRelease;

impl ResolverRulesService for ResolverRulesNotInThisRelease {
    fn capability(&self) -> (capability: Capability)
        ensures
            capability matches Capability::Unsupported { because } && because@
                == not_in_this_release_reason(),
    {
        not_in_this_release()
    }
}

/// Stands in for layer 3 until it is built.
pub struct BrowserPolicyNotInThisRelease;

impl BrowserPolicyService for BrowserPolicyNotInThisRelease {
    fn capability(&self) -> (capability: Capability)
        ensures
            capability matches Capability::Unsupported { because } && because@
                == not_in_this_release_reason(),
    {
        not_in_this_release()
    }
}

} // verus!
