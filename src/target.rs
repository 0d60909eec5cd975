//! Turning the target that the operator wrote into an address to scan.
//!
//! An address literal needs no lookup. Anything else is read as a URL host:
//! an IPv4 address in any form a URL allows, a bracketed IPv6 address, or a
//! domain name, which is then looked up; of the addresses a lookup returns,
//! the first is scanned.
use vstd::prelude::*;

verus! {

/// A network address to scan.
#[derive(Clone, Copy, Debug, PartialEq, Eq)]
pub enum Address {
    /// An IPv4 address, by its four octets.
    V4([u8; 4]),
    /// An IPv6 address, by its eight 16-bit segments.
    V6([u16; 8]),
}

/// A host as a URL reads it.
pub enum Host {
    /// A domain name, in its ASCII form.
    Domain(String),
    /// An IPv4 address, by its four octets.
    Ipv4([u8; 4]),
    /// An IPv6 address, by its eight 16-bit segments.
    Ipv6([u16; 8]),
}

/// What a [`Host`] holds, as mathematical values.
pub enum HostView {
    Domain(Seq<char>),
    Ipv4(Seq<u8>),
    Ipv6(Seq<u16>),
}

impl View for Host {
    type V = HostView;

    open spec fn view(&self) -> HostView {
        match self {
            Host::Domain(d) => HostView::Domain(d@),
            Host::Ipv4(a) => HostView::Ipv4(a@),
            Host::Ipv6(a) => HostView::Ipv6(a@),
        }
    }
}

/// What is to be done to reach a target.
pub enum Lookup {
    /// The target is an address already.
    Direct(Address),
    /// The target is a domain name to look up.
    Resolve(String),
}

/// Why a target cannot be scanned.
#[derive(Clone, Copy, Debug, PartialEq, Eq, Structural)]
pub enum TargetError {
    /// The target is neither an address nor a well-formed host.
    InvalidAddress,
    /// Looking the name up gave no address.
    ResolutionFailed,
}

impl TargetError {
    /// A sentence for the operator.
    pub fn message(&self) -> &'static str {
        match self {
            TargetError::InvalidAddress => "Not a valid IPADDR; must be IPv4 or IPv6",
            TargetError::ResolutionFailed => "Failed to resolve ipaddr",
        }
    }
}

/// The host that URL host parsing reads from `s`, or `None` where `s` is no
/// valid host.
pub uninterp spec fn url_host_of(s: Seq<char>) -> Option<HostView>;

/// Relies on url::Host::parse: the host it reads depends on the input alone;
/// an empty input is refused, and a domain it returns is never empty.
#[verifier::external_body]
fn parse_host(s: &str) -> (r: Option<Host>)
    ensures
        r is Some <==> url_host_of(s@) is Some,
        r matches Some(h) ==> url_host_of(s@) == Some(h@),
        s@.len() == 0 ==> r is None,
        r matches Some(Host::Domain(d)) ==> d@.len() > 0,
{
    match url::Host::parse(s) {
        Ok(url::Host::Domain(d)) => Some(Host::Domain(d)),
        Ok(url::Host::Ipv4(a)) => Some(Host::Ipv4(a.octets())),
        Ok(url::Host::Ipv6(a)) => Some(Host::Ipv6(a.segments())),
        Err(_) => None,
    }
}

/// What is to be done for a parsed host: an address is scanned as it is, a
/// domain name is looked up, and no host at all is an invalid target.
pub fn lookup_for_host(host: Option<Host>) -> (r: Result<Lookup, TargetError>)
    ensures
        match host {
            None => r == Err::<Lookup, TargetError>(TargetError::InvalidAddress),
            Some(Host::Domain(d)) => r matches Ok(Lookup::Resolve(n)) && n@ == d@,
            Some(Host::Ipv4(a)) => r == Ok::<Lookup, TargetError>(Lookup::Direct(Address::V4(a))),
            Some(Host::Ipv6(a)) => r == Ok::<Lookup, TargetError>(Lookup::Direct(Address::V6(a))),
        },
{
    match host {
        None => Err(TargetError::InvalidAddress),
        Some(Host::Domain(d)) => Ok(Lookup::Resolve(d)),
        Some(Host::Ipv4(a)) => Ok(Lookup::Direct(Address::V4(a))),
        Some(Host::Ipv6(a)) => Ok(Lookup::Direct(Address::V6(a))),
    }
}

/// What is to be done to reach the target `raw`, read as a URL host.
pub fn plan_lookup(raw: &str) -> (r: Result<Lookup, TargetError>)
    ensures
        match url_host_of(raw@) {
            None => r == Err::<Lookup, TargetError>(TargetError::InvalidAddress),
            Some(HostView::Domain(d)) => r matches Ok(Lookup::Resolve(n)) && n@ == d,
            Some(HostView::Ipv4(a)) => r matches Ok(Lookup::Direct(Address::V4(b))) && b@ == a,
            Some(HostView::Ipv6(a)) => r matches Ok(Lookup::Direct(Address::V6(b))) && b@ == a,
        },
        raw@.len() == 0 ==> r == Err::<Lookup, TargetError>(TargetError::InvalidAddress),
{
    lookup_for_host(parse_host(raw))
}

/// The address to scan among those a lookup returned: the first one.
pub fn first_address(candidates: &[Address]) -> (r: Result<Address, TargetError>)
    ensures
        candidates@.len() == 0 ==> r == Err::<Address, TargetError>(TargetError::ResolutionFailed),
        candidates@.len() > 0 ==> r == Ok::<Address, TargetError>(candidates@[0]),
{
    if candidates.len() == 0 {
        Err(TargetError::ResolutionFailed)
    } else {
        Ok(candidates[0])
    }
}

} // verus!
