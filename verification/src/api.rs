//! What the clients share: how a request is described, how a base URL is
//! extended to an endpoint, and how a response is read.
//!
//! Nothing here sends anything. A [`RequestPlan`] says what is to be sent;
//! the caller sends it and reports the status and the body that came back.

use crate::retry::{single_attempt, RetryPolicy};
use crate::text::optional_text;
use crate::urls::{join_url, url_join};
use vstd::prelude::*;

verus! {

/// `serde_json::Error`: why a value could not be written as JSON. It is
/// carried through as it is.
#[verifier::external_type_specification]
#[verifier::external_body]
pub struct ExJsonError(serde_json::Error);

/// The HTTP method of a request.
#[derive(Clone, Copy, Debug, PartialEq, Eq)]
pub enum Method {
    Get,
    Post,
}

/// What a request carries.
#[derive(Debug)]
pub enum RequestBody {
    /// Nothing.
    Empty,
    /// This JSON text.
    Json(String),
    /// A multipart form with one part named `part`, a file called
    /// `file_name` that holds `bytes`.
    File { part: String, file_name: String, bytes: Vec<u8> },
    /// A multipart form that the caller has built.
    Form,
}

/// The mathematical value of a [`RequestBody`].
pub ghost enum BodyModel {
    Empty,
    Json(Seq<char>),
    File { part: Seq<char>, file_name: Seq<char>, bytes: Seq<u8> },
    Form,
}

impl View for RequestBody {
    type V = BodyModel;

    open spec fn view(&self) -> BodyModel {
        match *self {
            RequestBody::Empty => BodyModel::Empty,
            RequestBody::Json(text) => BodyModel::Json(text@),
            RequestBody::File { part, file_name, bytes } => BodyModel::File {
                part: part@,
                file_name: file_name@,
                bytes: bytes@,
            },
            RequestBody::Form => BodyModel::Form,
        }
    }
}

/// A request, ready to be sent.
#[derive(Debug)]
pub struct RequestPlan {
    /// The HTTP method.
    pub method: Method,
    /// The absolute URL to send to.
    pub url: String,
    /// The value of the `Authorization` header; `None` sends no such header.
    pub authorization: Option<String>,
    /// Query parameters, as name and value.
    pub query: Vec<(String, String)>,
    /// What the request carries.
    pub body: RequestBody,
    /// How the request is repeated when no response is received.
    pub retry: RetryPolicy,
}

/// The mathematical value of a [`RequestPlan`].
pub ghost struct PlanModel {
    pub method: Method,
    pub url: Seq<char>,
    pub authorization: Option<Seq<char>>,
    pub query: Seq<(Seq<char>, Seq<char>)>,
    pub body: BodyModel,
    pub retry: RetryPolicy,
}

impl View for RequestPlan {
    type V = PlanModel;

    open spec fn view(&self) -> PlanModel {
        PlanModel {
            method: self.method,
            url: self.url@,
            authorization: optional_text(self.authorization),
            query: Seq::new(self.query@.len(), |i: int| (self.query@[i].0@, self.query@[i].1@)),
            body: self.body@,
            retry: self.retry,
        }
    }
}

/// Why a request could not be put together.
#[derive(Debug)]
pub enum RequestBuildError {
    /// The target is no absolute URL, or the endpoint cannot be resolved
    /// against the base URL.
    InvalidUrl(url::ParseError),
    /// The body could not be written as JSON.
    InvalidBody(serde_json::Error),
    /// The HTTP client refused the request.
    Rejected(String),
}

/// Why an exchange with a server failed.
#[derive(Debug)]
pub enum ApiError<M> {
    /// The request was malformed and never left the client.
    RequestBuild(RequestBuildError),
    /// No response was received.
    Transport(String),
    /// The server answered with an error status and this message.
    Response { status: u16, message: M },
    /// The body of the response did not have the expected shape.
    Deserialize(String),
}

/// What the body of a response is to be read as.
#[derive(Clone, Copy, Debug, PartialEq, Eq)]
pub enum BodyKind {
    /// The payload that the request asked for.
    Payload,
    /// A structured error message.
    ErrorMessage,
}

/// Whether `status` is a client error (4xx) or a server error (5xx).
pub open spec fn is_failure(status: u16) -> bool {
    400 <= status < 600
}

/// Whether `status` is a client error (4xx) or a server error (5xx).
pub fn status_is_failure(status: u16) -> (failure: bool)
    ensures
        failure == is_failure(status),
{
    400 <= status && status < 600
}

/// Says what the body of a response with this status is to be read as.
pub fn expected_body(status: u16) -> (kind: BodyKind)
    ensures
        kind == if is_failure(status) {
            BodyKind::ErrorMessage
        } else {
            BodyKind::Payload
        },
{
    if status_is_failure(status) {
        BodyKind::ErrorMessage
    } else {
        BodyKind::Payload
    }
}

/// The result of an exchange that ended without an error status, given how
/// reading the body as the payload went.
pub fn accept_payload<T, M>(parsed: Result<T, String>) -> (result: Result<T, ApiError<M>>)
    ensures
        result == match parsed {
            Ok(payload) => Ok::<T, ApiError<M>>(payload),
            Err(detail) => Err(ApiError::Deserialize(detail)),
        },
{
    match parsed {
        Ok(payload) => Ok(payload),
        Err(detail) => Err(ApiError::Deserialize(detail)),
    }
}

/// The error of an exchange that ended with the error status `status`,
/// given how reading the body as an error message went: the message with
/// the status where it could be read, the reading error otherwise.
pub fn rejection<M>(status: u16, parsed: Result<M, String>) -> (error: ApiError<M>)
    ensures
        error == match parsed {
            Ok(message) => ApiError::Response { status, message },
            Err(detail) => ApiError::Deserialize(detail),
        },
{
    match parsed {
        Ok(message) => ApiError::Response { status, message },
        Err(detail) => ApiError::Deserialize(detail),
    }
}

/// The capabilities that every client has: a base URL, and a name for the
/// kind of service it talks to.
pub trait ControllerApi {
    /// The base URL, as text.
    spec fn base_url(&self) -> Seq<char>;

    /// The base URL.
    fn url(&self) -> (url: &str)
        ensures
            url@ == self.base_url(),
    ;

    /// The kind of service.
    fn api_type(&self) -> &'static str;
}

/// Plans a request to the endpoint `path` below the base URL of `api`:
/// without a body, and attempted once.
///
/// The plan is owed whenever `path` resolves against the base URL.
pub fn build_request<C: ControllerApi>(
    api: &C,
    method: Method,
    path: &str,
    authorization: Option<String>,
) -> (plan: Result<RequestPlan, RequestBuildError>)
    ensures
        match plan {
            Ok(request) => url_join(api.base_url(), path@) == Some(request.url@) && request@ == (
            PlanModel {
                method,
                url: request.url@,
                authorization: optional_text(authorization),
                query: Seq::empty(),
                body: BodyModel::Empty,
                retry: single_attempt(),
            }),
            Err(error) => url_join(api.base_url(), path@) is None && error is InvalidUrl,
        },
{
    match join_url(api.url(), path) {
        Ok(url) => {
            let request = RequestPlan {
                method,
                url,
                authorization,
                query: Vec::new(),
                body: RequestBody::Empty,
                retry: RetryPolicy::once(),
            };
            proof {
                assert(request@.query =~= Seq::empty());
            }
            Ok(request)
        },
        Err(cause) => Err(RequestBuildError::InvalidUrl(cause)),
    }
}

} // verus!
