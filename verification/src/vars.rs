//! Protocol constants.
use vstd::prelude::*;

verus! {

/// The protocol version this registry implements, in contracts.
pub open spec fn vap_version_spec() -> Seq<char> {
    "Alpha"@
}

/// The protocol version this registry implements. A `connect` whose
/// `vapVersion` differs byte-for-byte is rejected.
pub fn vap_version() -> (r: &'static str)
    ensures
        r@ == vap_version_spec(),
{
    "Alpha"
}

/// The reserved client identifier of the host itself, in contracts.
pub open spec fn system_self_id_spec() -> Seq<char> {
    "vap.SYSTEM"@
}

/// The reserved client identifier the host uses for itself.
pub fn system_self_id() -> (r: &'static str)
    ensures
        r@ == system_self_id_spec(),
{
    "vap.SYSTEM"
}

} // verus!
