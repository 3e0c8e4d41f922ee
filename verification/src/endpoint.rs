//! Endpoints and the values a successful lookup returns.
//!
//! An endpoint is the immutable record the host registers for one method,
//! path and version predicate.  The routing core stores endpoints and
//! hands back, on a successful lookup, the handler reference together
//! with the endpoint metadata a request needs.

use vstd::prelude::*;

use crate::varmap::VarValueView;
use crate::varmap::VariableSet;
use crate::version::ApiEndpointVersions;

verus! {

/// A cheap, clonable reference to a request handler.  The routing core
/// treats handlers opaquely: the host invokes whatever it keeps behind
/// `id`, and `label` names the handler in diagnostics.
#[derive(Debug)]
pub struct RouteHandler {
    pub id: u64,
    pub label: String,
}

impl RouteHandler {
    /// A handler reference with an empty label.
    pub fn new(id: u64) -> (r: RouteHandler)
        ensures
            r.id == id,
            r.label@ == Seq::<char>::empty(),
    {
        RouteHandler { id, label: String::new() }
    }

    /// A handler reference labelled for diagnostics.
    pub fn new_named(id: u64, label: &str) -> (r: RouteHandler)
        ensures
            r.id == id,
            r.label@ == label@,
    {
        RouteHandler { id, label: String::from_str(label) }
    }

    /// The diagnostic label.
    pub fn label(&self) -> (l: &str)
        ensures
            l@ == self.label@,
    {
        self.label.as_str()
    }
}

impl Clone for RouteHandler {
    /// Cloning keeps the identifier and the label.
    fn clone(&self) -> (r: Self)
        ensures
            r == *self,
    {
        RouteHandler { id: self.id, label: self.label.clone() }
    }
}

/// How the body of a request to an endpoint is encoded.
#[derive(Debug, Clone, Copy, PartialEq, Eq, Structural)]
pub enum ApiEndpointBodyContentType {
    /// the body is an opaque byte stream
    Bytes,
    /// the body is a JSON document
    Json,
    /// the body is a URL-encoded form
    UrlEncoded,
}

impl Default for ApiEndpointBodyContentType {
    /// JSON is assumed where no content type is named.
    fn default() -> (r: Self)
        ensures
            r == ApiEndpointBodyContentType::Json,
    {
        ApiEndpointBodyContentType::Json
    }
}

/// How an endpoint extends the plain request/response exchange.
#[derive(Debug, Clone, Copy, PartialEq, Eq, Structural)]
pub enum ExtensionMode {
    /// an ordinary request/response endpoint
    Standard,
    /// an endpoint upgraded to a websocket
    Websocket,
}

impl Default for ExtensionMode {
    fn default() -> (r: Self)
        ensures
            r == ExtensionMode::Standard,
    {
        ExtensionMode::Standard
    }
}

/// What an endpoint says about its response, for documentation.
#[derive(Debug)]
pub struct ApiEndpointResponse {
    pub description: Option<String>,
}

impl Default for ApiEndpointResponse {
    fn default() -> (r: Self)
        ensures
            r.description is None,
    {
        ApiEndpointResponse { description: None }
    }
}

/// An immutable record for one registered route: the handler, the method
/// and registration path, and the endpoint's metadata.
#[derive(Debug)]
pub struct ApiEndpoint {
    pub operation_id: String,
    pub handler: RouteHandler,
    pub method: String,
    pub path: String,
    pub body_content_type: ApiEndpointBodyContentType,
    pub request_body_max_bytes: Option<usize>,
    pub response: ApiEndpointResponse,
    pub tags: Vec<String>,
    pub extension_mode: ExtensionMode,
    pub visible: bool,
    pub deprecated: bool,
    pub versions: ApiEndpointVersions,
}

/// The mathematical value of an [`ApiEndpoint`].
pub struct EndpointView {
    pub operation_id: Seq<char>,
    pub handler_id: u64,
    pub handler_label: Seq<char>,
    pub method: Seq<char>,
    pub path: Seq<char>,
    pub body_content_type: ApiEndpointBodyContentType,
    pub request_body_max_bytes: Option<usize>,
    pub response_description: Option<Seq<char>>,
    pub tags: Seq<Seq<char>>,
    pub extension_mode: ExtensionMode,
    pub visible: bool,
    pub deprecated: bool,
    pub versions: ApiEndpointVersions,
}

impl View for ApiEndpoint {
    type V = EndpointView;

    open spec fn view(&self) -> EndpointView {
        EndpointView {
            operation_id: self.operation_id@,
            handler_id: self.handler.id,
            handler_label: self.handler.label@,
            method: self.method@,
            path: self.path@,
            body_content_type: self.body_content_type,
            request_body_max_bytes: self.request_body_max_bytes,
            response_description: match &self.response.description {
                Some(d) => Some(d@),
                None => None,
            },
            tags: self.tags.deep_view(),
            extension_mode: self.extension_mode,
            visible: self.visible,
            deprecated: self.deprecated,
            versions: self.versions,
        }
    }
}

impl Clone for ApiEndpoint {
    /// Cloning preserves the endpoint's value.
    fn clone(&self) -> (r: Self)
        ensures
            r@ == self@,
    {
        let r = ApiEndpoint {
            operation_id: self.operation_id.clone(),
            handler: self.handler.clone(),
            method: self.method.clone(),
            path: self.path.clone(),
            body_content_type: self.body_content_type,
            request_body_max_bytes: self.request_body_max_bytes,
            response: ApiEndpointResponse {
                description: match &self.response.description {
                    Some(d) => Some(d.clone()),
                    None => None,
                },
            },
            tags: self.tags.clone(),
            extension_mode: self.extension_mode,
            visible: self.visible,
            deprecated: self.deprecated,
            versions: self.versions,
        };
        proof {
            assert(r.tags.deep_view() =~= self.tags.deep_view()) by {
                assert(forall|i: int|
                    0 <= i < self.tags@.len() ==> #[trigger] r.tags@[i] == self.tags@[i]);
            };
        }
        r
    }
}

/// The endpoint-derived metadata a successful lookup carries.
#[derive(Debug)]
pub struct RequestEndpointMetadata {
    pub operation_id: String,
    pub variables: VariableSet,
    pub body_content_type: ApiEndpointBodyContentType,
    pub request_body_max_bytes: Option<usize>,
}

/// The result of a successful route lookup: the handler and the
/// endpoint-related metadata.
#[derive(Debug)]
pub struct RouterLookupResult {
    pub handler: RouteHandler,
    pub endpoint: RequestEndpointMetadata,
}

/// The mathematical value of a [`RouterLookupResult`].
pub struct LookupOkView {
    pub handler_id: u64,
    pub handler_label: Seq<char>,
    pub operation_id: Seq<char>,
    pub variables: Map<Seq<char>, VarValueView>,
    pub body_content_type: ApiEndpointBodyContentType,
    pub request_body_max_bytes: Option<usize>,
}

impl View for RouterLookupResult {
    type V = LookupOkView;

    open spec fn view(&self) -> LookupOkView {
        LookupOkView {
            handler_id: self.handler.id,
            handler_label: self.handler.label@,
            operation_id: self.endpoint.operation_id@,
            variables: self.endpoint.variables@,
            body_content_type: self.endpoint.body_content_type,
            request_body_max_bytes: self.endpoint.request_body_max_bytes,
        }
    }
}

/// The successful outcome a lookup owes when it selects `ep` with
/// bindings `vars`.
pub open spec fn ok_view_of(ep: EndpointView, vars: Map<Seq<char>, VarValueView>) -> LookupOkView {
    LookupOkView {
        handler_id: ep.handler_id,
        handler_label: ep.handler_label,
        operation_id: ep.operation_id,
        variables: vars,
        body_content_type: ep.body_content_type,
        request_body_max_bytes: ep.request_body_max_bytes,
    }
}

} // verus!
