use mediocore::CoreError;

#[test]
fn every_error_has_a_description() {
    let all = [
        CoreError::DiscoveryUnavailable,
        CoreError::AttributeMissing,
        CoreError::MalformedAttribute,
        CoreError::InvalidGovernor,
        CoreError::OutOfRange,
        CoreError::WriteFailed,
        CoreError::NoChangesRequested,
    ];
    for e in all.iter() {
        assert!(!e.describe().is_empty());
    }
}

#[test]
fn errors_compare_by_variant() {
    assert_eq!(CoreError::OutOfRange, CoreError::OutOfRange);
    assert_ne!(CoreError::OutOfRange, CoreError::InvalidGovernor);
}
