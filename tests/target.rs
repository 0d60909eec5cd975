use port_scanner::target::{first_address, plan_lookup, Address, Lookup, TargetError};

#[test]
fn domain_names_are_looked_up() {
    match plan_lookup("Example.COM") {
        Ok(Lookup::Resolve(name)) => assert_eq!(name, "example.com"),
        _ => panic!("expected a lookup"),
    }
}

#[test]
fn url_ipv4_forms_need_no_lookup() {
    match plan_lookup("0x7f.1") {
        Ok(Lookup::Direct(a)) => assert_eq!(a, Address::V4([127, 0, 0, 1])),
        _ => panic!("expected an address"),
    }
}

#[test]
fn bracketed_ipv6_needs_no_lookup() {
    match plan_lookup("[::1]") {
        Ok(Lookup::Direct(a)) => assert_eq!(a, Address::V6([0, 0, 0, 0, 0, 0, 0, 1])),
        _ => panic!("expected an address"),
    }
}

#[test]
fn invalid_host_is_refused() {
    assert!(matches!(plan_lookup("not a host!!"), Err(TargetError::InvalidAddress)));
    assert!(matches!(plan_lookup(""), Err(TargetError::InvalidAddress)));
    assert_eq!(
        TargetError::InvalidAddress.message(),
        "Not a valid IPADDR; must be IPv4 or IPv6"
    );
}

#[test]
fn first_address_is_chosen() {
    let a = Address::V4([10, 0, 0, 1]);
    let b = Address::V6([1, 2, 3, 4, 5, 6, 7, 8]);
    assert_eq!(first_address(&[a, b]), Ok(a));
    assert_eq!(first_address(&[]), Err(TargetError::ResolutionFailed));
}
