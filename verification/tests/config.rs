use media_service::address::{Host, Ipv6Host, ListenAddress, ResolveError};
use media_service::config::{
    grace_seconds, resolve_configured, DEFAULT_GRACE_SECONDS, DEFAULT_LISTEN_ADDRESS,
};

#[test]
fn resolves_the_default_address() {
    assert_eq!(DEFAULT_LISTEN_ADDRESS, "0.0.0.0:50051");
    assert_eq!(resolve_configured(None), Ok(ListenAddress::new(0, 0, 0, 0, 50051)));
}

#[test]
fn resolves_the_configured_address() {
    assert_eq!(resolve_configured(Some("10.1.2.3:8080")), Ok(ListenAddress::new(10, 1, 2, 3, 8080)));
    assert_eq!(resolve_configured(Some("nowhere")), Err(ResolveError::InvalidAddress));
    let every_host = Ipv6Host { g0: 0, g1: 0, g2: 0, g3: 0, g4: 0, g5: 0, g6: 0, g7: 0, scope: 0 };
    assert_eq!(
        resolve_configured(Some("[::]:50051")),
        Ok(ListenAddress::with_host(Host::V6(every_host), 50051))
    );
    assert_eq!(resolve_configured(Some("[::]")), Err(ResolveError::InvalidAddress));
}

#[test]
fn the_grace_period_is_the_configured_number_of_seconds() {
    assert_eq!(DEFAULT_GRACE_SECONDS, 30);
    assert_eq!(grace_seconds(None), 30);
    assert_eq!(grace_seconds(Some("0")), 0);
    assert_eq!(grace_seconds(Some("5")), 5);
    assert_eq!(grace_seconds(Some("0090")), 90);
    assert_eq!(grace_seconds(Some("65535")), 65535);
}

#[test]
fn the_grace_period_falls_back_to_the_default() {
    assert_eq!(grace_seconds(Some("")), 30);
    assert_eq!(grace_seconds(Some("65536")), 30);
    assert_eq!(grace_seconds(Some("-1")), 30);
    assert_eq!(grace_seconds(Some("1.5")), 30);
    assert_eq!(grace_seconds(Some("ten")), 30);
    assert_eq!(grace_seconds(Some(" 10")), 30);
    assert_eq!(grace_seconds(Some("１０")), 30);
    assert_eq!(grace_seconds(Some("99999999999999999999")), 30);
}
