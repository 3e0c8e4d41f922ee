//! Tests for route registration and lookup.

use http_router::endpoint::ApiEndpoint;
use http_router::endpoint::ApiEndpointBodyContentType;
use http_router::endpoint::ApiEndpointResponse;
use http_router::endpoint::ExtensionMode;
use http_router::endpoint::RouteHandler;
use http_router::router::HttpRouter;
use http_router::varmap::VariableValue;
use http_router::version::ApiEndpointVersions;
use http_router::version::Version;

fn new_handler() -> RouteHandler {
    RouteHandler::new(0)
}

fn new_handler_named(name: &str) -> RouteHandler {
    RouteHandler::new_named(0, name)
}

fn new_endpoint(handler: RouteHandler, method: &str, path: &str) -> ApiEndpoint {
    new_endpoint_versions(handler, method, path, ApiEndpointVersions::All)
}

fn new_endpoint_versions(
    handler: RouteHandler,
    method: &str,
    path: &str,
    versions: ApiEndpointVersions,
) -> ApiEndpoint {
    ApiEndpoint {
        operation_id: "test_handler".to_string(),
        handler,
        method: method.to_string(),
        path: path.to_string(),
        body_content_type: ApiEndpointBodyContentType::default(),
        request_body_max_bytes: None,
        response: ApiEndpointResponse::default(),
        tags: vec![],
        extension_mode: ExtensionMode::default(),
        visible: true,
        deprecated: false,
        versions,
    }
}

#[test]
fn test_variable_after_literal() {
    let mut router = HttpRouter::new();
    router.insert(new_endpoint(new_handler(), "GET", "/projects/default"));
    router.insert(new_endpoint(new_handler(), "GET", "/projects/{id}"));
}

#[test]
fn test_more_specific_route_wins() {
    let mut router = HttpRouter::new();
    router.insert(new_endpoint(new_handler_named("route_one"), "GET", "/projects/{id}"));
    router.insert(new_endpoint(new_handler_named("route_two"), "GET", "/projects/default"));
    let result = router
        .lookup_route_unversioned("GET", "/projects/default".into())
        .unwrap();
    assert_eq!(result.handler.label(), "route_two");
}

#[test]
fn test_less_specific_route_still_accessible() {
    let mut router = HttpRouter::new();
    router.insert(new_endpoint(new_handler_named("route_one"), "GET", "/projects/{id}"));
    router.insert(new_endpoint(new_handler_named("route_two"), "GET", "/projects/default"));
    let result = router
        .lookup_route_unversioned("GET", "/projects/lol".into())
        .unwrap();
    assert_eq!(result.handler.label(), "route_one");
}

#[test]
fn test_catch_all_routes_work() {
    let mut router = HttpRouter::new();
    router.insert(new_endpoint(new_handler_named("route_one"), "GET", "/projects/{id}"));
    router.insert(new_endpoint(new_handler_named("route_two"), "GET", "/projects/default"));
    router.insert(new_endpoint(new_handler_named("route_three"), "GET", "/{path:.*}"));
    let result = router
        .lookup_route_unversioned("GET", "/projects/lol".into())
        .unwrap();
    assert_eq!(result.handler.label(), "route_one");
    let result = router
        .lookup_route_unversioned("GET", "/projects/default".into())
        .unwrap();
    assert_eq!(result.handler.label(), "route_two");
    let result = router.lookup_route_unversioned("GET", "/lolwut".into()).unwrap();
    assert_eq!(result.handler.label(), "route_three");

    let result = router
        .lookup_route_unversioned("GET", "/lolwut/test".into())
        .unwrap();
    assert_eq!(result.handler.label(), "route_three");

    let result = router.lookup_route_unversioned("GET", "/lolwut".into()).unwrap();
    assert_eq!(result.handler.label(), "route_three");
}

#[test]
fn test_no_backmatching() {
    // if the indicated route starts with a literal that exists we don't go
    // back and match on variable strings even if the route exists.
    let mut router = HttpRouter::new();
    router.insert(new_endpoint(new_handler_named("route_one"), "GET", "/projects/default"));
    router.insert(new_endpoint(new_handler_named("route_two"), "GET", "/{id}/default/lol"));
    // Access to the more specific route works
    let result = router
        .lookup_route_unversioned("GET", "/projects/default".into())
        .unwrap();
    assert_eq!(result.handler.label(), "route_one");

    // Access to /projects/ starts down the /projects path and therefore
    // doesn't match
    assert!(router
        .lookup_route_unversioned("GET", "/projects/default/lol".into())
        .is_err());

    // Access to the less specific path as long as it's not /projects works.
    let result = router
        .lookup_route_unversioned("GET", "/some_id/default/lol".into())
        .unwrap();
    assert_eq!(result.handler.label(), "route_two");
}

#[test]
fn test_literal_after_variable() {
    let mut router = HttpRouter::new();
    router.insert(new_endpoint(new_handler(), "GET", "/projects/{id}"));
    router.insert(new_endpoint(new_handler(), "GET", "/projects/default"));
}

#[test]
fn test_literal_after_regex() {
    let mut router = HttpRouter::new();
    router.insert(new_endpoint(new_handler(), "GET", "/projects/{rest:.*}"));
    router.insert(new_endpoint(new_handler(), "GET", "/projects/default"));
}

#[test]
fn test_slash_after_wildcard_is_fine_dot_dot_dot_for_now() {
    let mut router = HttpRouter::new();
    router.insert(new_endpoint(new_handler(), "GET", "/some/{more:.*}/"));
}

#[test]
fn test_error_cases() {
    let mut router = HttpRouter::new();

    // Check a few initial conditions.
    let error = router.lookup_route_unversioned("GET", "/".into()).unwrap_err();
    assert_eq!(error.status_code(), 404);
    let error = router.lookup_route_unversioned("GET", "////".into()).unwrap_err();
    assert_eq!(error.status_code(), 404);
    let error = router.lookup_route_unversioned("GET", "/foo/bar".into()).unwrap_err();
    assert_eq!(error.status_code(), 404);
    let error = router
        .lookup_route_unversioned("GET", "//foo///bar".into())
        .unwrap_err();
    assert_eq!(error.status_code(), 404);

    // Insert a route into the middle of the tree.  This will let us look at
    // parent nodes, sibling nodes, and child nodes.
    router.insert(new_endpoint(new_handler(), "GET", "/foo/bar"));
    assert!(router.lookup_route_unversioned("GET", "/foo/bar".into()).is_ok());
    assert!(router.lookup_route_unversioned("GET", "/foo/bar/".into()).is_ok());
    assert!(router.lookup_route_unversioned("GET", "//foo/bar".into()).is_ok());
    assert!(router.lookup_route_unversioned("GET", "//foo//bar".into()).is_ok());
    assert!(router.lookup_route_unversioned("GET", "//foo//bar//".into()).is_ok());
    assert!(router
        .lookup_route_unversioned("GET", "///foo///bar///".into())
        .is_ok());

    let error = router.lookup_route_unversioned("GET", "/".into()).unwrap_err();
    assert_eq!(error.status_code(), 404);
    let error = router.lookup_route_unversioned("GET", "/foo".into()).unwrap_err();
    assert_eq!(error.status_code(), 404);
    let error = router.lookup_route_unversioned("GET", "//foo".into()).unwrap_err();
    assert_eq!(error.status_code(), 404);
    let error = router
        .lookup_route_unversioned("GET", "/foo/bar/baz".into())
        .unwrap_err();
    assert_eq!(error.status_code(), 404);

    let error = router.lookup_route_unversioned("PUT", "/foo/bar".into()).unwrap_err();
    assert_eq!(error.status_code(), 405);
    let error = router.lookup_route_unversioned("PUT", "/foo/bar/".into()).unwrap_err();
    assert_eq!(error.status_code(), 405);

    // Check error cases that are specific (or handled differently) when
    // routes are versioned.
    let mut router = HttpRouter::new();
    router.insert(new_endpoint_versions(
        new_handler(),
        "GET",
        "/foo",
        ApiEndpointVersions::from_version(Version::new(1, 0, 0)),
    ));
    let error = router
        .lookup_route("GET", "/foo".into(), Some(&Version::new(0, 9, 0)))
        .unwrap_err();
    assert_eq!(error.status_code(), 404);
    let error = router
        .lookup_route("PUT", "/foo".into(), Some(&Version::new(1, 1, 0)))
        .unwrap_err();
    assert_eq!(error.status_code(), 405);
}

#[test]
fn test_router_basic() {
    let mut router = HttpRouter::new();

    // Insert a handler at the root and verify that we get that handler
    // back, even if we use different names that normalize to "/".
    assert!(router.lookup_route_unversioned("GET", "/".into()).is_err());
    router.insert(new_endpoint(new_handler_named("h1"), "GET", "/"));
    let result = router.lookup_route_unversioned("GET", "/".into()).unwrap();
    assert_eq!(result.handler.label(), "h1");
    assert!(result.endpoint.variables.is_empty());
    let result = router.lookup_route_unversioned("GET", "//".into()).unwrap();
    assert_eq!(result.handler.label(), "h1");
    assert!(result.endpoint.variables.is_empty());
    let result = router.lookup_route_unversioned("GET", "///".into()).unwrap();
    assert_eq!(result.handler.label(), "h1");
    assert!(result.endpoint.variables.is_empty());

    // Now insert a handler for a different method at the root.
    assert!(router.lookup_route_unversioned("PUT", "/".into()).is_err());
    router.insert(new_endpoint(new_handler_named("h2"), "PUT", "/"));
    let result = router.lookup_route_unversioned("PUT", "/".into()).unwrap();
    assert_eq!(result.handler.label(), "h2");
    assert!(result.endpoint.variables.is_empty());
    let result = router.lookup_route_unversioned("GET", "/".into()).unwrap();
    assert_eq!(result.handler.label(), "h1");
    assert!(result.endpoint.variables.is_empty());
    assert!(router.lookup_route_unversioned("DELETE", "/".into()).is_err());

    // Now insert a handler one level deeper.
    assert!(router.lookup_route_unversioned("GET", "/foo".into()).is_err());
    router.insert(new_endpoint(new_handler_named("h3"), "GET", "/foo"));
    let result = router.lookup_route_unversioned("PUT", "/".into()).unwrap();
    assert_eq!(result.handler.label(), "h2");
    assert!(result.endpoint.variables.is_empty());
    let result = router.lookup_route_unversioned("GET", "/".into()).unwrap();
    assert_eq!(result.handler.label(), "h1");
    assert!(result.endpoint.variables.is_empty());
    let result = router.lookup_route_unversioned("GET", "/foo".into()).unwrap();
    assert_eq!(result.handler.label(), "h3");
    assert!(result.endpoint.variables.is_empty());
    let result = router.lookup_route_unversioned("GET", "/foo/".into()).unwrap();
    assert_eq!(result.handler.label(), "h3");
    assert!(result.endpoint.variables.is_empty());
    let result = router.lookup_route_unversioned("GET", "//foo//".into()).unwrap();
    assert_eq!(result.handler.label(), "h3");
    assert!(result.endpoint.variables.is_empty());
    let result = router.lookup_route_unversioned("GET", "/foo//".into()).unwrap();
    assert_eq!(result.handler.label(), "h3");
    assert!(result.endpoint.variables.is_empty());
    assert!(router.lookup_route_unversioned("PUT", "/foo".into()).is_err());
    assert!(router.lookup_route_unversioned("PUT", "/foo/".into()).is_err());
    assert!(router.lookup_route_unversioned("PUT", "//foo//".into()).is_err());
    assert!(router.lookup_route_unversioned("PUT", "/foo//".into()).is_err());
}

#[test]
fn test_router_versioned() {
    // Install handlers for a particular route for a bunch of different
    // versions.
    let method = "GET";
    let path = "/foo";
    let mut router = HttpRouter::new();
    router.insert(new_endpoint_versions(
        new_handler_named("h1"),
        method,
        "/foo",
        ApiEndpointVersions::until(Version::new(1, 2, 3)),
    ));
    router.insert(new_endpoint_versions(
        new_handler_named("h2"),
        method,
        "/foo",
        ApiEndpointVersions::from_until(Version::new(2, 0, 0), Version::new(3, 0, 0)).unwrap(),
    ));
    router.insert(new_endpoint_versions(
        new_handler_named("h3"),
        method,
        "/foo",
        ApiEndpointVersions::From(Version::new(5, 0, 0)),
    ));

    // Check what happens for a representative range of versions.
    let result = router
        .lookup_route(method, path.into(), Some(&Version::new(1, 2, 2)))
        .unwrap();
    assert_eq!(result.handler.label(), "h1");
    let error = router
        .lookup_route(method, path.into(), Some(&Version::new(1, 2, 3)))
        .unwrap_err();
    assert_eq!(error.status_code(), 404);

    let result = router
        .lookup_route(method, path.into(), Some(&Version::new(2, 0, 0)))
        .unwrap();
    assert_eq!(result.handler.label(), "h2");
    let result = router
        .lookup_route(method, path.into(), Some(&Version::new(2, 1, 0)))
        .unwrap();
    assert_eq!(result.handler.label(), "h2");

    let error = router
        .lookup_route(method, path.into(), Some(&Version::new(3, 0, 0)))
        .unwrap_err();
    assert_eq!(error.status_code(), 404);
    let error = router
        .lookup_route(method, path.into(), Some(&Version::new(3, 0, 1)))
        .unwrap_err();
    assert_eq!(error.status_code(), 404);

    let error = router
        .lookup_route(method, path.into(), Some(&Version::new(4, 99, 99)))
        .unwrap_err();
    assert_eq!(error.status_code(), 404);

    let result = router
        .lookup_route(method, path.into(), Some(&Version::new(5, 0, 0)))
        .unwrap();
    assert_eq!(result.handler.label(), "h3");
    let result = router
        .lookup_route(method, path.into(), Some(&Version::new(128313, 0, 0)))
        .unwrap();
    assert_eq!(result.handler.label(), "h3");
}

#[test]
fn test_embedded_non_variable() {
    let mut router = HttpRouter::new();
    assert!(router
        .lookup_route_unversioned("GET", "/not{a}variable".into())
        .is_err());
    router.insert(new_endpoint(new_handler_named("h4"), "GET", "/not{a}variable"));
    let result = router
        .lookup_route_unversioned("GET", "/not{a}variable".into())
        .unwrap();
    assert_eq!(result.handler.label(), "h4");
    assert!(result.endpoint.variables.is_empty());
    assert!(router
        .lookup_route_unversioned("GET", "/not{b}variable".into())
        .is_err());
    assert!(router
        .lookup_route_unversioned("GET", "/notnotavariable".into())
        .is_err());
}

#[test]
fn test_variables_basic() {
    // Basic test using a variable.
    let mut router = HttpRouter::new();
    router.insert(new_endpoint(new_handler_named("h5"), "GET", "/projects/{project_id}"));
    assert!(router.lookup_route_unversioned("GET", "/projects".into()).is_err());
    assert!(router.lookup_route_unversioned("GET", "/projects/".into()).is_err());
    let result = router
        .lookup_route_unversioned("GET", "/projects/p12345".into())
        .unwrap();
    assert_eq!(result.handler.label(), "h5");
    assert_eq!(result.endpoint.variables.keys(), vec!["project_id".to_string()]);
    assert_eq!(
        *result.endpoint.variables.get("project_id").unwrap(),
        VariableValue::Single("p12345".to_string())
    );
    assert!(router
        .lookup_route_unversioned("GET", "/projects/p12345/child".into())
        .is_err());
    let result = router
        .lookup_route_unversioned("GET", "/projects/p12345/".into())
        .unwrap();
    assert_eq!(result.handler.label(), "h5");
    assert_eq!(
        *result.endpoint.variables.get("project_id").unwrap(),
        VariableValue::Single("p12345".to_string())
    );
    let result = router
        .lookup_route_unversioned("GET", "/projects///p12345//".into())
        .unwrap();
    assert_eq!(result.handler.label(), "h5");
    assert_eq!(
        *result.endpoint.variables.get("project_id").unwrap(),
        VariableValue::Single("p12345".to_string())
    );
    // Trick question!
    let result = router
        .lookup_route_unversioned("GET", "/projects/{project_id}".into())
        .unwrap();
    assert_eq!(result.handler.label(), "h5");
    assert_eq!(
        *result.endpoint.variables.get("project_id").unwrap(),
        VariableValue::Single("{project_id}".to_string())
    );
}

#[test]
fn test_variables_multi() {
    // Exercise a case with multiple variables.
    let mut router = HttpRouter::new();
    router.insert(new_endpoint(
        new_handler_named("h6"),
        "GET",
        "/projects/{project_id}/instances/{instance_id}/fwrules/{fwrule_id}/info",
    ));
    let result = router
        .lookup_route_unversioned("GET", "/projects/p1/instances/i2/fwrules/fw3/info".into())
        .unwrap();
    assert_eq!(result.handler.label(), "h6");
    assert_eq!(
        result.endpoint.variables.keys(),
        vec![
            "fwrule_id".to_string(),
            "instance_id".to_string(),
            "project_id".to_string()
        ]
    );
    assert_eq!(
        *result.endpoint.variables.get("project_id").unwrap(),
        VariableValue::Single("p1".to_string())
    );
    assert_eq!(
        *result.endpoint.variables.get("instance_id").unwrap(),
        VariableValue::Single("i2".to_string())
    );
    assert_eq!(
        *result.endpoint.variables.get("fwrule_id").unwrap(),
        VariableValue::Single("fw3".to_string())
    );
}

#[test]
fn test_empty_variable() {
    // Exercise a case where a broken implementation might erroneously
    // assign a variable to the empty string.
    let mut router = HttpRouter::new();
    router.insert(new_endpoint(new_handler_named("h7"), "GET", "/projects/{project_id}/instances"));
    assert!(router
        .lookup_route_unversioned("GET", "/projects/instances".into())
        .is_err());
    assert!(router
        .lookup_route_unversioned("GET", "/projects//instances".into())
        .is_err());
    assert!(router
        .lookup_route_unversioned("GET", "/projects///instances".into())
        .is_err());
    let result = router
        .lookup_route_unversioned("GET", "/projects/foo/instances".into())
        .unwrap();
    assert_eq!(result.handler.label(), "h7");
}

#[test]
fn test_variables_glob() {
    let mut router = HttpRouter::new();
    router.insert(new_endpoint(new_handler_named("h8"), "OPTIONS", "/console/{path:.*}"));

    let result = router
        .lookup_route_unversioned("OPTIONS", "/console/missiles/launch".into())
        .unwrap();

    assert_eq!(
        result.endpoint.variables.get("path"),
        Some(&VariableValue::Components(vec![
            "missiles".to_string(),
            "launch".to_string()
        ]))
    );
}

#[test]
fn test_iter_null() {
    let router = HttpRouter::new();
    let ret: Vec<_> = router.endpoints(None).into_iter().map(|x| (x.0, x.1)).collect();
    assert_eq!(ret, vec![]);
}

#[test]
fn test_iter() {
    let mut router = HttpRouter::new();
    router.insert(new_endpoint(new_handler_named("root"), "GET", "/"));
    router.insert(new_endpoint(
        new_handler_named("i"),
        "GET",
        "/projects/{project_id}/instances",
    ));
    let ret: Vec<_> = router.endpoints(None).into_iter().map(|x| (x.0, x.1)).collect();
    assert_eq!(
        ret,
        vec![
            ("/".to_string(), "GET".to_string()),
            ("/projects/{project_id}/instances".to_string(), "GET".to_string()),
        ]
    );
}

#[test]
fn test_iter2() {
    let mut router = HttpRouter::new();
    router.insert(new_endpoint(new_handler_named("root_get"), "GET", "/"));
    router.insert(new_endpoint(new_handler_named("root_post"), "POST", "/"));
    let ret: Vec<_> = router.endpoints(None).into_iter().map(|x| (x.0, x.1)).collect();
    assert_eq!(
        ret,
        vec![
            ("/".to_string(), "GET".to_string()),
            ("/".to_string(), "POST".to_string()),
        ]
    );
}

#[test]
fn test_wildcard_matches_empty_path() {
    // A wildcard registration matches the bare root path with an empty
    // component list, and a longer path with every remaining segment.
    let mut router = HttpRouter::new();
    router.insert(new_endpoint(new_handler_named("w"), "GET", "/{p:.*}"));
    let result = router.lookup_route_unversioned("GET", "/".into()).unwrap();
    assert_eq!(
        result.endpoint.variables.get("p"),
        Some(&VariableValue::Components(vec![]))
    );
    let result = router.lookup_route_unversioned("GET", "/a/b".into()).unwrap();
    assert_eq!(
        result.endpoint.variables.get("p"),
        Some(&VariableValue::Components(vec!["a".to_string(), "b".to_string()]))
    );
}

#[test]
fn test_allow_header_lists_matching_methods() {
    // A method miss carries one Allow value per method at the node with an
    // endpoint admitting the request version.
    let mut router = HttpRouter::new();
    router.insert(new_endpoint(new_handler_named("g"), "GET", "/foo"));
    router.insert(new_endpoint(new_handler_named("p"), "PUT", "/foo"));
    router.insert(new_endpoint_versions(
        new_handler_named("d"),
        "DELETE",
        "/foo",
        ApiEndpointVersions::from_version(Version::new(2, 0, 0)),
    ));
    let error = router.lookup_route_unversioned("POST", "/foo".into()).unwrap_err();
    assert_eq!(error.status_code(), 405);
    match error {
        http_router::router::LookupError::MethodNotAllowed { allowed } => {
            assert_eq!(allowed, vec!["GET".to_string(), "PUT".to_string()]);
        }
        _ => panic!("expected a method-not-allowed miss"),
    }
    let error = router
        .lookup_route("POST", "/foo".into(), Some(&Version::new(2, 1, 0)))
        .unwrap_err();
    match error {
        http_router::router::LookupError::MethodNotAllowed { allowed } => {
            assert_eq!(
                allowed,
                vec!["DELETE".to_string(), "GET".to_string(), "PUT".to_string()]
            );
        }
        _ => panic!("expected a method-not-allowed miss"),
    }
}

#[test]
fn test_method_names_upper_cased() {
    // Methods compare after upper-casing, on registration and on lookup.
    let mut router = HttpRouter::new();
    router.insert(new_endpoint(new_handler_named("g"), "get", "/foo"));
    let result = router.lookup_route_unversioned("GET", "/foo".into()).unwrap();
    assert_eq!(result.handler.label(), "g");
    let result = router.lookup_route_unversioned("get", "/foo".into()).unwrap();
    assert_eq!(result.handler.label(), "g");
}

#[test]
fn test_bad_request_for_dot_segments() {
    let router = HttpRouter::new();
    let error = router.lookup_route_unversioned("GET", "/a/../b".into()).unwrap_err();
    assert_eq!(error.status_code(), 400);
    match error {
        http_router::router::LookupError::BadRequest { message } => {
            assert_eq!(message, "dot-segments are not permitted");
        }
        _ => panic!("expected a bad-request miss"),
    }
    let error = router.lookup_route_unversioned("GET", "/a/./b".into()).unwrap_err();
    assert_eq!(error.status_code(), 400);
}

#[test]
fn test_bad_request_for_invalid_encoding() {
    let router = HttpRouter::new();
    let error = router.lookup_route_unversioned("GET", "/a/%ff/b".into()).unwrap_err();
    assert_eq!(error.status_code(), 400);
    match error {
        http_router::router::LookupError::BadRequest { message } => {
            assert_eq!(message, "invalid path encoding");
        }
        _ => panic!("expected a bad-request miss"),
    }
}

#[test]
fn test_insert_error_duplicate_route() {
    let mut router = HttpRouter::new();
    router.insert(new_endpoint(new_handler(), "GET", "/boo"));
    let err = router.try_insert(new_endpoint(new_handler(), "GET", "/boo")).unwrap_err();
    assert_eq!(
        err.message(),
        "URI path \"/boo\": attempted to create duplicate route for method \"GET\""
    );
}

#[test]
fn test_insert_error_duplicate_route_trailing_slash() {
    let mut router = HttpRouter::new();
    router.insert(new_endpoint(new_handler(), "GET", "/foo/bar"));
    let err = router.try_insert(new_endpoint(new_handler(), "GET", "/foo/bar/")).unwrap_err();
    assert_eq!(
        err.message(),
        "URI path \"/foo/bar/\": attempted to create duplicate route for method \"GET\""
    );
}

#[test]
fn test_insert_error_overlapping_versions() {
    let mut router = HttpRouter::new();
    router.insert(new_endpoint_versions(
        new_handler(),
        "GET",
        "/boo",
        ApiEndpointVersions::From(Version::new(1, 2, 3)),
    ));
    let err = router
        .try_insert(new_endpoint_versions(
            new_handler(),
            "GET",
            "/boo",
            ApiEndpointVersions::From(Version::new(4, 5, 6)),
        ))
        .unwrap_err();
    assert_eq!(
        err.message(),
        "URI path \"/boo\": attempted to register multiple handlers for method \"GET\" \
         with overlapping version ranges"
    );
}

#[test]
fn test_insert_error_duplicate_version() {
    let mut router = HttpRouter::new();
    router.insert(new_endpoint_versions(
        new_handler(),
        "GET",
        "/boo",
        ApiEndpointVersions::From(Version::new(1, 2, 3)),
    ));
    let err = router
        .try_insert(new_endpoint_versions(
            new_handler(),
            "GET",
            "/boo",
            ApiEndpointVersions::From(Version::new(1, 2, 3)),
        ))
        .unwrap_err();
    assert_eq!(
        err.message(),
        "URI path \"/boo\": attempted to create duplicate route for method \"GET\""
    );
}

#[test]
fn test_insert_error_inconsistent_varname() {
    let mut router = HttpRouter::new();
    router.insert(new_endpoint(new_handler(), "GET", "/projects/{project_id}"));
    let err = router
        .try_insert(new_endpoint(new_handler(), "GET", "/projects/{id}"))
        .unwrap_err();
    assert_eq!(
        err.message(),
        "URI path \"/projects/{id}\": attempted to use variable name \"id\", but a \
         different name (\"project_id\") has already been used for this"
    );
}

#[test]
fn test_insert_error_duplicate_varname() {
    let mut router = HttpRouter::new();
    let err = router
        .try_insert(new_endpoint(new_handler(), "GET", "/projects/{id}/insts/{id}"))
        .unwrap_err();
    assert_eq!(
        err.message(),
        "URI path \"/projects/{id}/insts/{id}\": variable name \"id\" is used more than once"
    );
}

#[test]
fn test_insert_error_segments_after_wildcard() {
    let mut router = HttpRouter::new();
    let err = router
        .try_insert(new_endpoint(new_handler(), "GET", "/some/{more:.*}/{stuff}"))
        .unwrap_err();
    assert_eq!(
        err.message(),
        "URI path \"/some/{more:.*}/{stuff}\": attempted to match segments after the \
         wildcard variable \"more\""
    );
}

#[test]
fn test_insert_error_path_shape() {
    let mut router = HttpRouter::new();
    let err = router.try_insert(new_endpoint(new_handler(), "GET", "boo")).unwrap_err();
    assert_eq!(err.message(), "route paths must begin with a '/': 'boo'");
    router.insert(new_endpoint(new_handler(), "GET", "/"));
    let err = router.try_insert(new_endpoint(new_handler(), "GET", "//")).unwrap_err();
    assert_eq!(err.message(), "path segments may not be empty: '//'");
}

#[test]
fn test_insert_error_segment_shape() {
    let mut router = HttpRouter::new();
    let err = router.try_insert(new_endpoint(new_handler(), "GET", "/foo/{}")).unwrap_err();
    assert_eq!(err.message(), "HTTP URI path segment variable name must not be empty");
    let err = router
        .try_insert(new_endpoint(new_handler(), "GET", "/foo/{asdf/foo"))
        .unwrap_err();
    assert_eq!(err.message(), "HTTP URI path segment variable missing trailing \"}\"");
    let err = router
        .try_insert(new_endpoint(new_handler(), "GET", "/foo/asdf}/foo"))
        .unwrap_err();
    assert_eq!(err.message(), "HTTP URI path segment variable missing leading \"{\"");
    let err = router
        .try_insert(new_endpoint(new_handler(), "GET", "/word/{rest:[a-z]*}"))
        .unwrap_err();
    assert_eq!(err.message(), "Only the pattern '.*' is currently supported");
}

#[test]
fn test_has_versioned_routes_flag() {
    let mut router = HttpRouter::new();
    assert!(!router.has_versioned_routes());
    router.insert(new_endpoint(new_handler(), "GET", "/plain"));
    assert!(!router.has_versioned_routes());
    router.insert(new_endpoint_versions(
        new_handler(),
        "GET",
        "/versioned",
        ApiEndpointVersions::until(Version::new(3, 0, 0)),
    ));
    assert!(router.has_versioned_routes());
}
