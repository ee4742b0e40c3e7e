use media_service::address::ResolveError;
use media_service::handlers::RegistrationError;
use media_service::outcome::{exit_code, BindFailure, FatalError, Outcome};

fn all_outcomes() -> Vec<Outcome> {
    vec![
        Outcome::Graceful,
        Outcome::Fatal(FatalError::InvalidAddress),
        Outcome::Fatal(FatalError::UnsupportedFamily),
        Outcome::Fatal(FatalError::AddressInUse),
        Outcome::Fatal(FatalError::PermissionDenied),
        Outcome::Fatal(FatalError::TransportError),
        Outcome::Fatal(FatalError::DuplicateMethod),
        Outcome::Fatal(FatalError::RegistrationClosed),
    ]
}

#[test]
fn a_graceful_ending_exits_with_zero() {
    assert_eq!(exit_code(Outcome::Graceful), 0);
}

#[test]
fn each_fatal_error_has_its_exit_code() {
    assert_eq!(exit_code(Outcome::Fatal(FatalError::InvalidAddress)), 2);
    assert_eq!(exit_code(Outcome::Fatal(FatalError::UnsupportedFamily)), 3);
    assert_eq!(exit_code(Outcome::Fatal(FatalError::AddressInUse)), 4);
    assert_eq!(exit_code(Outcome::Fatal(FatalError::PermissionDenied)), 5);
    assert_eq!(exit_code(Outcome::Fatal(FatalError::TransportError)), 6);
    assert_eq!(exit_code(Outcome::Fatal(FatalError::DuplicateMethod)), 7);
    assert_eq!(exit_code(Outcome::Fatal(FatalError::RegistrationClosed)), 8);
}

#[test]
fn exit_codes_tell_the_endings_apart() {
    let all = all_outcomes();
    for a in all.iter() {
        for b in all.iter() {
            assert_eq!(exit_code(*a) == exit_code(*b), a == b);
        }
        assert_eq!(exit_code(*a) == 0, *a == Outcome::Graceful);
    }
}

#[test]
fn every_error_is_a_fatal_error_of_the_same_name() {
    assert_eq!(FatalError::from_resolve_error(ResolveError::InvalidAddress), FatalError::InvalidAddress);
    assert_eq!(
        FatalError::from_resolve_error(ResolveError::UnsupportedFamily),
        FatalError::UnsupportedFamily
    );
    assert_eq!(FatalError::from_bind_failure(BindFailure::AddressInUse), FatalError::AddressInUse);
    assert_eq!(
        FatalError::from_bind_failure(BindFailure::PermissionDenied),
        FatalError::PermissionDenied
    );
    assert_eq!(FatalError::from_bind_failure(BindFailure::TransportError), FatalError::TransportError);
    assert_eq!(
        FatalError::from_registration_error(RegistrationError::DuplicateMethod),
        FatalError::DuplicateMethod
    );
    assert_eq!(
        FatalError::from_registration_error(RegistrationError::RegistrationClosed),
        FatalError::RegistrationClosed
    );
}
