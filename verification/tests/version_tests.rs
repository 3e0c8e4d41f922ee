//! Tests for version predicates and variable values.

use http_router::varmap::VariableValue;
use http_router::version::ApiEndpointVersions;
use http_router::version::Version;

#[test]
fn test_version_predicate_matches() {
    let all = ApiEndpointVersions::All;
    assert!(all.matches(None));
    assert!(all.matches(Some(&Version::new(1, 2, 3))));

    let from = ApiEndpointVersions::From(Version::new(2, 0, 0));
    assert!(!from.matches(None));
    assert!(!from.matches(Some(&Version::new(1, 9, 9))));
    assert!(from.matches(Some(&Version::new(2, 0, 0))));
    assert!(from.matches(Some(&Version::new(3, 0, 0))));

    let until = ApiEndpointVersions::until(Version::new(2, 0, 0));
    assert!(!until.matches(None));
    assert!(until.matches(Some(&Version::new(1, 9, 9))));
    assert!(!until.matches(Some(&Version::new(2, 0, 0))));

    let range =
        ApiEndpointVersions::from_until(Version::new(1, 0, 0), Version::new(2, 0, 0)).unwrap();
    assert!(!range.matches(None));
    assert!(range.matches(Some(&Version::new(1, 0, 0))));
    assert!(range.matches(Some(&Version::new(1, 5, 0))));
    assert!(!range.matches(Some(&Version::new(2, 0, 0))));
}

#[test]
fn test_version_range_must_be_ordered() {
    assert!(
        ApiEndpointVersions::from_until(Version::new(2, 0, 0), Version::new(1, 0, 0)).is_err()
    );
    assert!(
        ApiEndpointVersions::from_until(Version::new(1, 0, 0), Version::new(1, 0, 0)).is_err()
    );
}

#[test]
fn test_version_overlaps() {
    let all = ApiEndpointVersions::All;
    let low = ApiEndpointVersions::until(Version::new(2, 0, 0));
    let high = ApiEndpointVersions::From(Version::new(2, 0, 0));
    let mid =
        ApiEndpointVersions::from_until(Version::new(1, 0, 0), Version::new(3, 0, 0)).unwrap();
    assert!(all.overlaps_with(&low));
    assert!(all.overlaps_with(&high));
    assert!(!low.overlaps_with(&high));
    assert!(!high.overlaps_with(&low));
    assert!(mid.overlaps_with(&low));
    assert!(mid.overlaps_with(&high));
    assert!(mid.overlaps_with(&mid));
}

#[test]
fn test_version_render() {
    assert_eq!(Version::new(1, 2, 3).render(), "1.2.3");
    assert_eq!(Version::new(128313, 0, 0).render(), "128313.0.0");
}

#[test]
fn test_variable_value_shapes() {
    let single = VariableValue::Single("doggos".to_string());
    assert_eq!(single.as_value().unwrap(), "doggos");
    assert_eq!(
        single.as_seq().unwrap_err().message,
        "cannot deserialize a single value as a sequence"
    );

    let many = VariableValue::Components(vec!["lizzie".to_string(), "brickley".to_string()]);
    assert_eq!(many.as_seq().unwrap(), &vec!["lizzie".to_string(), "brickley".to_string()]);
    assert_eq!(
        many.as_value().unwrap_err().message,
        "cannot deserialize sequence as a single value"
    );
}
