//! uProtocol URIs as plain values, the pattern matching of a filter URI
//! against a candidate, and the validity rules for listener filters.

use up_rust::{UStatus, UUri};
use vstd::prelude::*;

verus! {

/// A uProtocol URI: authority, entity ID (type in the low 16 bits, instance
/// in the high 16 bits), entity major version and resource ID.
pub struct Uri {
    pub authority_name: String,
    pub ue_id: u32,
    pub ue_version_major: u32,
    pub resource_id: u32,
}

/// The value of a [`Uri`].
pub struct UriView {
    pub authority_name: Seq<char>,
    pub ue_id: u32,
    pub ue_version_major: u32,
    pub resource_id: u32,
}

impl View for Uri {
    type V = UriView;

    open spec fn view(&self) -> UriView {
        UriView {
            authority_name: self.authority_name@,
            ue_id: self.ue_id,
            ue_version_major: self.ue_version_major,
            resource_id: self.resource_id,
        }
    }
}

/// The authority that matches any authority.
pub open spec fn wildcard_authority() -> Seq<char> {
    seq!['*']
}

/// Whether `candidate` matches the filter `pattern`: each of authority,
/// entity type, entity instance, version and resource either is the wildcard
/// in the pattern or agrees with the candidate.
pub open spec fn uri_matches(pattern: UriView, candidate: UriView) -> bool {
    &&& (pattern.authority_name == wildcard_authority() || pattern.authority_name
        == candidate.authority_name)
    &&& ((pattern.ue_id & 0xFFFF) == 0xFFFF || (pattern.ue_id & 0xFFFF) == (candidate.ue_id
        & 0xFFFF))
    &&& ((pattern.ue_id & 0xFFFF_0000) == 0xFFFF_0000 || (pattern.ue_id & 0xFFFF_0000) >> 16
        == (candidate.ue_id & 0xFFFF_0000) >> 16)
    &&& (pattern.ue_version_major == 0xFF || (pattern.ue_version_major & 0xFF)
        == (candidate.ue_version_major & 0xFF))
    &&& (pattern.resource_id == 0xFFFF || pattern.resource_id == candidate.resource_id)
}

/// Whether up-rust's `UUri::verify_authority` accepts an authority name
/// (a host without port or userinfo, whose registered name is `*` or matches
/// `^[a-z0-9\-._~]{0,128}$`, or an IP address). Its full grammar is that of the
/// `uriparse` crate.
pub uninterp spec fn authority_accepted(authority: Seq<char>) -> bool;

/// up-rust's `UUri::check_validity`: an accepted authority, an 8-bit major
/// version and a 16-bit resource ID.
pub open spec fn uri_valid(u: UriView) -> bool {
    &&& authority_accepted(u.authority_name)
    &&& u.ue_version_major <= 0xFF
    &&& u.resource_id <= 0xFFFF
}

/// The resource ID of notification destinations and RPC responses.
pub open spec fn is_notification_destination(u: UriView) -> bool {
    u.resource_id == 0
}

/// A resource ID in the range of RPC methods.
pub open spec fn is_rpc_method(u: UriView) -> bool {
    0 < u.resource_id < 0x8000
}

/// A resource ID in the range of published events (topics).
pub open spec fn is_event(u: UriView) -> bool {
    u.resource_id >= 0x8000
}

/// The wildcard resource ID.
pub open spec fn has_wildcard_resource_id(u: UriView) -> bool {
    u.resource_id == 0xFFFF
}

/// The filters under which a listener may be registered: both valid, not both
/// notification destinations, a sink filter for RPC methods only with a source
/// filter of wildcard or notification resource, and without a sink filter a
/// source filter of wildcard or event resource.
pub open spec fn filter_criteria_hold(source: UriView, sink: Option<UriView>) -> bool {
    &&& uri_valid(source)
    &&& match sink {
        Some(k) => {
            &&& uri_valid(k)
            &&& !(is_notification_destination(k) && is_notification_destination(source))
            &&& !(is_rpc_method(k) && !has_wildcard_resource_id(source)
                && !is_notification_destination(source))
        },
        None => has_wildcard_resource_id(source) || is_event(source),
    }
}

/// The view of an optional URI.
pub open spec fn opt_view(u: Option<&Uri>) -> Option<UriView> {
    match u {
        Some(u) => Some(u@),
        None => None,
    }
}

/// The view of an owned optional URI.
pub open spec fn opt_uri_view(u: Option<Uri>) -> Option<UriView> {
    match u {
        Some(u) => Some(u@),
        None => None,
    }
}

/// up-rust's `UUri::matches` on the two URIs, built field by field; its
/// result is the one that `uri_matches` states.
#[verifier::external_body]
pub(crate) fn pattern_matches(pattern: &Uri, candidate: &Uri) -> (r: bool)
    ensures
        r == uri_matches(pattern@, candidate@),
{
    let p = UUri { authority_name: pattern.authority_name.clone(), ue_id: pattern.ue_id,
        ue_version_major: pattern.ue_version_major, resource_id: pattern.resource_id,
        ..Default::default() };
    let c = UUri { authority_name: candidate.authority_name.clone(), ue_id: candidate.ue_id,
        ue_version_major: candidate.ue_version_major, resource_id: candidate.resource_id,
        ..Default::default() };
    p.matches(&c)
}

#[verifier::external_type_specification]
#[verifier::external_body]
pub struct ExUStatus(UStatus);

/// up-rust's `verify_filter_criteria` on the two filters, built field by
/// field; it succeeds exactly when `filter_criteria_hold`, whose authority
/// check is named by `authority_accepted`. The status it fails with (code
/// `INVALID_ARGUMENT` and a text naming the broken rule) is handed on as it is.
#[verifier::external_body]
pub(crate) fn check_filter_criteria(source: &Uri, sink: Option<&Uri>) -> (r: Result<(), UStatus>)
    ensures
        r is Ok == filter_criteria_hold(source@, opt_view(sink)),
        r is Ok ==> authority_accepted(source@.authority_name),
{
    let s = UUri { authority_name: source.authority_name.clone(), ue_id: source.ue_id,
        ue_version_major: source.ue_version_major, resource_id: source.resource_id,
        ..Default::default() };
    let k = match sink {
        Some(u) => Some(UUri { authority_name: u.authority_name.clone(), ue_id: u.ue_id,
            ue_version_major: u.ue_version_major, resource_id: u.resource_id,
            ..Default::default() }),
        None => None,
    };
    up_rust::verify_filter_criteria(&s, k.as_ref())
}


/// Every URI, taken as a filter, matches itself.
pub proof fn lemma_uri_matches_itself(u: UriView)
    ensures
        uri_matches(u, u),
{
}

/// Field-by-field equality of two URIs.
pub(crate) fn same_uri(a: &Uri, b: &Uri) -> (r: bool)
    ensures
        r == (a@ == b@),
{
    a.authority_name == b.authority_name && a.ue_id == b.ue_id && a.ue_version_major
        == b.ue_version_major && a.resource_id == b.resource_id
}

} // verus!
