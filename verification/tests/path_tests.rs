//! Tests for path parsing and normalization.

use http_router::path::input_path_to_segments;
use http_router::path::route_path_to_segments;
use http_router::path::PathSegment;

#[test]
fn test_segments() {
    let segs = input_path_to_segments(&"//foo/bar/baz%2fbuzz".into()).unwrap();
    assert_eq!(segs, vec!["foo", "bar", "baz/buzz"]);
}

#[test]
fn test_path_segment() {
    let seg = PathSegment::from("abc");
    assert_eq!(seg, PathSegment::Literal("abc".to_string()));

    let seg = PathSegment::from("{words}");
    assert_eq!(seg, PathSegment::VarnameSegment("words".to_string()));

    let seg = PathSegment::from("{rest:.*}");
    assert_eq!(seg, PathSegment::VarnameWildcard("rest".to_string()));
}

#[test]
fn test_normalization_collapses_slashes() {
    // Different spellings of the same path normalize to the same list.
    let a = input_path_to_segments(&"/a//b/".into()).unwrap();
    let b = input_path_to_segments(&"//a/b".into()).unwrap();
    let c = input_path_to_segments(&"/a/b/".into()).unwrap();
    assert_eq!(a, vec!["a", "b"]);
    assert_eq!(a, b);
    assert_eq!(b, c);
}

#[test]
fn test_normalization_root_forms() {
    assert_eq!(input_path_to_segments(&"/".into()).unwrap(), Vec::<String>::new());
    assert_eq!(input_path_to_segments(&"//".into()).unwrap(), Vec::<String>::new());
    assert_eq!(input_path_to_segments(&"////".into()).unwrap(), Vec::<String>::new());
}

#[test]
fn test_normalization_rejects_dot_segments() {
    assert!(input_path_to_segments(&"/a/./b".into()).is_err());
    assert!(input_path_to_segments(&"/a/../b".into()).is_err());
    assert!(input_path_to_segments(&"/..".into()).is_err());
}

#[test]
fn test_percent_decoding() {
    let segs = input_path_to_segments(&"/a%20b/%7e".into()).unwrap();
    assert_eq!(segs, vec!["a b", "~"]);
    // an escape that decodes to bytes that are not UTF-8 is rejected
    assert!(input_path_to_segments(&"/%ff".into()).is_err());
}

#[test]
fn test_route_path_segments() {
    assert_eq!(route_path_to_segments("/"), Vec::<&str>::new());
    assert_eq!(route_path_to_segments("/foo/bar"), vec!["foo", "bar"]);
    assert_eq!(route_path_to_segments("/foo/bar/"), vec!["foo", "bar"]);
    assert_eq!(route_path_to_segments("/foo/{id}"), vec!["foo", "{id}"]);
}
