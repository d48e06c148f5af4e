//! The client of the tournament service: what it sends to poll for a match,
//! to fetch assets, directly or through the caching proxy, and to report a
//! result, and how it reads the answers.

use crate::api::{
    build_request, is_failure, status_is_failure, ApiError, BodyModel, ControllerApi, Method,
    PlanModel, RequestBody, RequestBuildError, RequestPlan,
};
use crate::retry::{proxy_retries, single_attempt, RetryPolicy};
use crate::text::{
    contains_ignoring_case, ends_with, lowercase, mentions, optional_text, same_text,
    text_ends_with,
};
use crate::urls::{is_normal_url, parse_url, url_join, url_parse};
use vstd::prelude::*;
use vstd::slice::slice_to_vec;

verus! {

/// The domain of the tournament service. A host belongs to the service
/// when this is its name, or when its name ends in a dot and this.
pub const SERVICE_DOMAIN: &'static str = "aiarena.net";

/// What the service answers, in lower case, to a result that it already has.
pub const DUPLICATE_RESULT_PHRASE: &'static str = "result with this match already exists";

/// Why a client could not be made: the base URL is no absolute URL.
#[derive(Debug)]
pub struct ConstructionError {
    pub cause: url::ParseError,
}

/// The endpoint of the tournament service and the token that opens it.
pub struct AiArenaApiClient {
    url: String,
    token: String,
}

/// The `Authorization` header that carries `token`.
pub open spec fn token_header_text(token: Seq<char>) -> Seq<char> {
    "Token "@ + token
}

/// Whether a URL with this host is served by the tournament service: the
/// host is the service's domain itself or a subdomain of it. A name that
/// merely holds the domain somewhere belongs to someone else.
pub open spec fn is_service_host(host: Option<Seq<char>>) -> bool {
    host matches Some(name) && (name == SERVICE_DOMAIN@ || ends_with(
        name,
        seq!['.'] + SERVICE_DOMAIN@,
    ))
}

/// Whether the body of an error response says that the result is already
/// on record.
pub open spec fn reports_duplicate(body: Option<Seq<char>>) -> bool {
    body matches Some(text) && mentions(lowercase(text), DUPLICATE_RESULT_PHRASE@)
}

/// The plan of a download from the parsed URL `target` by a client that
/// holds `token`: attempted once, and the token goes along exactly to the
/// service's own hosts.
pub open spec fn download_plan(target: crate::urls::UrlModel, token: Seq<char>) -> PlanModel {
    PlanModel {
        method: Method::Get,
        url: target.text,
        authorization: if is_service_host(target.host) {
            Some(token_header_text(token))
        } else {
            None
        },
        query: Seq::empty(),
        body: BodyModel::Empty,
        retry: single_attempt(),
    }
}

impl AiArenaApiClient {
    /// Path of the endpoint that hands out the next match.
    pub const API_MATCHES_ENDPOINT: &'static str = "/api/arenaclient/v2/next-match/";

    /// Path of the endpoint that takes in a result.
    pub const API_RESULTS_ENDPOINT: &'static str = "/api/arenaclient/v2/submit-result/";

    /// The token.
    pub closed spec fn token(&self) -> Seq<char> {
        self.token@
    }

    /// A client is well formed when its base URL is an absolute URL in
    /// its normal form.
    pub open spec fn wf(&self) -> bool {
        is_normal_url(self.base_url())
    }

    /// Makes a client for the service at `website_url`. Fails at once where
    /// `website_url` is no absolute URL. The client keeps the URL in its
    /// normal form.
    pub fn new(website_url: &str, token: &str) -> (made: Result<Self, ConstructionError>)
        ensures
            match made {
                Ok(client) => url_parse(website_url@) matches Some(parsed) && parsed.text
                    == client.base_url() && client.wf() && client.token() == token@,
                Err(_) => url_parse(website_url@) is None,
            },
    {
        match parse_url(website_url) {
            Ok(parsed) => Ok(AiArenaApiClient { url: parsed.text, token: token.to_owned() }),
            Err(cause) => Err(ConstructionError { cause }),
        }
    }

    /// The value of the `Authorization` header.
    pub fn token_header(&self) -> (header: String)
        ensures
            header@ == token_header_text(self.token()),
    {
        let mut header = "Token ".to_owned();
        header.append(self.token.as_str());
        header
    }

    /// Plans the poll for the next match: one authenticated `POST`, without
    /// a body, to the next-match endpoint.
    pub fn get_match(&self) -> (plan: Result<RequestPlan, RequestBuildError>)
        ensures
            match plan {
                Ok(request) => url_join(self.base_url(), Self::API_MATCHES_ENDPOINT@) == Some(request.url@)
                    && request@ == (PlanModel {
                    method: Method::Post,
                    url: request.url@,
                    authorization: Some(token_header_text(self.token())),
                    query: Seq::empty(),
                    body: BodyModel::Empty,
                    retry: single_attempt(),
                }),
                Err(error) => url_join(self.base_url(), Self::API_MATCHES_ENDPOINT@) is None
                    && error is InvalidUrl,
            },
    {
        build_request(self, Method::Post, Self::API_MATCHES_ENDPOINT, Some(self.token_header()))
    }

    /// Plans the download of a map from `map_url`, which may lie on any
    /// host. The token goes along exactly where the host belongs to the
    /// tournament service.
    pub fn download_map(&self, map_url: &str, _add_auth_header: bool) -> (plan: Result<
        RequestPlan,
        RequestBuildError,
    >)
        ensures
            match plan {
                Ok(request) => url_parse(map_url@) matches Some(target) && request@
                    == download_plan(target, self.token()),
                Err(error) => url_parse(map_url@) is None && error is InvalidUrl,
            },
    {
        self.download(map_url)
    }

    /// Plans the download of a bot package from `url`, which may lie on
    /// any host. The token goes along exactly where the host belongs to the
    /// tournament service.
    pub fn download_zip(&self, url: &str, _add_auth_header: bool) -> (plan: Result<
        RequestPlan,
        RequestBuildError,
    >)
        ensures
            match plan {
                Ok(request) => url_parse(url@) matches Some(target) && request@ == download_plan(
                    target,
                    self.token(),
                ),
                Err(error) => url_parse(url@) is None && error is InvalidUrl,
            },
    {
        self.download(url)
    }

    /// Plans a `GET` of `url`.
    fn download(&self, url: &str) -> (plan: Result<RequestPlan, RequestBuildError>)
        ensures
            match plan {
                Ok(request) => url_parse(url@) matches Some(target) && request@ == download_plan(
                    target,
                    self.token(),
                ),
                Err(error) => url_parse(url@) is None && error is InvalidUrl,
            },
    {
        match parse_url(url) {
            Ok(target) => {
                let authorization = if host_is_service(&target.host) {
                    Some(self.token_header())
                } else {
                    None
                };
                let request = RequestPlan {
                    method: Method::Get,
                    url: target.text,
                    authorization,
                    query: Vec::new(),
                    body: RequestBody::Empty,
                    retry: RetryPolicy::once(),
                };
                proof {
                    assert(request@.query =~= Seq::empty());
                }
                Ok(request)
            },
            Err(cause) => Err(RequestBuildError::InvalidUrl(cause)),
        }
    }

    /// Plans the download of `source_url` through the caching proxy at
    /// `url`. The proxy fetches the source once, keeps it under
    /// `unique_key`, and checks it against `md5_hash`. The plan is owed
    /// whenever `url` is an absolute URL.
    pub fn download_cached_file(
        &self,
        url: &str,
        source_url: &str,
        unique_key: &str,
        md5_hash: &str,
    ) -> (plan: Result<RequestPlan, RequestBuildError>)
        ensures
            match plan {
                Ok(request) => url_parse(url@) matches Some(proxy) && request@
                    == cached_download_plan(proxy, source_url@, unique_key@, md5_hash@),
                Err(error) => url_parse(url@) is None && error is InvalidUrl,
            },
    {
        let proxy = match parse_url(url) {
            Ok(proxy) => proxy,
            Err(cause) => {
                return Err(RequestBuildError::InvalidUrl(cause));
            },
        };
        let json_body = CacheDownloadRequest {
            unique_key: unique_key.to_owned(),
            url: source_url.to_owned(),
            md5_hash: md5_hash.to_owned(),
        };
        let json = match json_body.to_json() {
            Ok(json) => json,
            Err(error) => {
                return Err(error);
            },
        };
        let request = RequestPlan {
            method: Method::Post,
            url: proxy.text,
            authorization: None,
            query: Vec::new(),
            body: RequestBody::Json(json),
            retry: RetryPolicy::cache_proxy(),
        };
        proof {
            assert(request@.query =~= Seq::empty());
        }
        Ok(request)
    }

    /// Plans the upload of `file` to the caching proxy at `url`, to be kept
    /// under `unique_key`.
    pub fn cache_upload(&self, url: &str, unique_key: String, file: &[u8]) -> (plan: Result<
        RequestPlan,
        RequestBuildError,
    >)
        ensures
            match plan {
                Ok(request) => url_parse(url@) matches Some(proxy) && request@
                    == cache_upload_plan(proxy, unique_key@, file@),
                Err(error) => url_parse(url@) is None && error is InvalidUrl,
            },
    {
        let proxy = match parse_url(url) {
            Ok(proxy) => proxy,
            Err(cause) => {
                return Err(RequestBuildError::InvalidUrl(cause));
            },
        };
        let mut query: Vec<(String, String)> = Vec::new();
        query.push(("uniqueKey".to_owned(), unique_key.clone()));
        let request = RequestPlan {
            method: Method::Post,
            url: proxy.text,
            authorization: None,
            query,
            body: RequestBody::File {
                part: "file".to_owned(),
                file_name: unique_key,
                bytes: slice_to_vec(file),
            },
            retry: RetryPolicy::cache_proxy(),
        };
        proof {
            assert(request@.query =~= seq![("uniqueKey"@, unique_key@)]);
        }
        Ok(request)
    }

    /// Plans the report of a result: one authenticated `POST` of the
    /// caller's form to the submit-result endpoint.
    pub fn submit_result(&self) -> (plan: Result<RequestPlan, RequestBuildError>)
        ensures
            match plan {
                Ok(request) => url_join(self.base_url(), Self::API_RESULTS_ENDPOINT@) == Some(request.url@)
                    && request@ == (PlanModel {
                    method: Method::Post,
                    url: request.url@,
                    authorization: Some(token_header_text(self.token())),
                    query: Seq::empty(),
                    body: BodyModel::Form,
                    retry: single_attempt(),
                }),
                Err(error) => url_join(self.base_url(), Self::API_RESULTS_ENDPOINT@) is None
                    && error is InvalidUrl,
            },
    {
        match build_request(self, Method::Post, Self::API_RESULTS_ENDPOINT, Some(self.token_header())) {
            Ok(request) => Ok(RequestPlan { body: RequestBody::Form, ..request }),
            Err(error) => Err(error),
        }
    }
}

impl ControllerApi for AiArenaApiClient {
    /// The base URL, in its normal form.
    closed spec fn base_url(&self) -> Seq<char> {
        self.url@
    }

    fn url(&self) -> (url: &str) {
        self.url.as_str()
    }

    fn api_type(&self) -> (kind: &'static str)
        ensures
            kind@ == "BotController"@,
    {
        "BotController"
    }
}

/// What the caching proxy is asked for: to fetch `url` once, to keep it
/// under `unique_key`, and to check it against `md5_hash`.
#[derive(Debug)]
pub struct CacheDownloadRequest {
    /// The key under which the proxy keeps the artifact.
    pub unique_key: String,
    /// Where the proxy fetches the artifact from.
    pub url: String,
    /// The hash that the artifact must have.
    pub md5_hash: String,
}

impl Clone for CacheDownloadRequest {
    fn clone(&self) -> (copy: Self)
        ensures
            copy.unique_key@ == self.unique_key@,
            copy.url@ == self.url@,
            copy.md5_hash@ == self.md5_hash@,
    {
        CacheDownloadRequest {
            unique_key: self.unique_key.clone(),
            url: self.url.clone(),
            md5_hash: self.md5_hash.clone(),
        }
    }
}

/// The JSON string literal that stands for `text`.
pub uninterp spec fn json_string(text: Seq<char>) -> Seq<char>;

/// `serde_json::to_string` on a string: it succeeds on every string, and
/// the result is the JSON string literal that stands for `text`.
#[verifier::external_body]
pub(crate) fn write_json_string(text: &str) -> (written: Result<String, serde_json::Error>)
    ensures
        written is Ok,
        written matches Ok(literal) ==> literal@ == json_string(text@),
{
    serde_json::to_string(text)
}

/// A JSON object with exactly the fields `uniqueKey`, `url` and `md5hash`,
/// in this order, whose values are the given JSON literals.
pub open spec fn cache_request_frame(
    unique_key: Seq<char>,
    url: Seq<char>,
    md5_hash: Seq<char>,
) -> Seq<char> {
    "{\"uniqueKey\":"@ + unique_key + ",\"url\":"@ + url + ",\"md5hash\":"@ + md5_hash + "}"@
}

/// The wire form of a request to the caching proxy: the frame around the
/// JSON string literals of its three values.
pub open spec fn cache_request_json(
    unique_key: Seq<char>,
    url: Seq<char>,
    md5_hash: Seq<char>,
) -> Seq<char> {
    cache_request_frame(json_string(unique_key), json_string(url), json_string(md5_hash))
}

/// Puts three JSON literals into the frame of a request to the caching
/// proxy.
pub fn frame_cache_request(unique_key: &str, url: &str, md5_hash: &str) -> (json: String)
    ensures
        json@ == cache_request_frame(unique_key@, url@, md5_hash@),
{
    let mut json = "{\"uniqueKey\":".to_owned();
    json.append(unique_key);
    json.append(",\"url\":");
    json.append(url);
    json.append(",\"md5hash\":");
    json.append(md5_hash);
    json.append("}");
    json
}

impl CacheDownloadRequest {
    /// Writes the request in its wire form. Every request can be written.
    pub fn to_json(&self) -> (written: Result<String, RequestBuildError>)
        ensures
            written matches Ok(json) && json@ == cache_request_json(
                self.unique_key@,
                self.url@,
                self.md5_hash@,
            ),
    {
        let key = match write_json_string(self.unique_key.as_str()) {
            Ok(literal) => literal,
            Err(cause) => {
                return Err(RequestBuildError::InvalidBody(cause));
            },
        };
        let url = match write_json_string(self.url.as_str()) {
            Ok(literal) => literal,
            Err(cause) => {
                return Err(RequestBuildError::InvalidBody(cause));
            },
        };
        let hash = match write_json_string(self.md5_hash.as_str()) {
            Ok(literal) => literal,
            Err(cause) => {
                return Err(RequestBuildError::InvalidBody(cause));
            },
        };
        Ok(frame_cache_request(key.as_str(), url.as_str(), hash.as_str()))
    }
}

/// The plan of a download through the caching proxy at the parsed URL
/// `proxy`: an unauthenticated `POST` of the request in its wire form,
/// repeated on transport failures as the proxy's retry rule says.
pub open spec fn cached_download_plan(
    proxy: crate::urls::UrlModel,
    source_url: Seq<char>,
    unique_key: Seq<char>,
    md5_hash: Seq<char>,
) -> PlanModel {
    PlanModel {
        method: Method::Post,
        url: proxy.text,
        authorization: None,
        query: Seq::empty(),
        body: BodyModel::Json(cache_request_json(unique_key, source_url, md5_hash)),
        retry: proxy_retries(),
    }
}

/// The plan of an upload to the caching proxy at the parsed URL `proxy`:
/// an unauthenticated `POST` with the key as the query parameter
/// `uniqueKey` and the file as the only part of a multipart form, repeated
/// on transport failures as the proxy's retry rule says.
pub open spec fn cache_upload_plan(
    proxy: crate::urls::UrlModel,
    unique_key: Seq<char>,
    file: Seq<u8>,
) -> PlanModel {
    PlanModel {
        method: Method::Post,
        url: proxy.text,
        authorization: None,
        query: seq![("uniqueKey"@, unique_key)],
        body: BodyModel::File { part: "file"@, file_name: unique_key, bytes: file },
        retry: proxy_retries(),
    }
}

/// Says whether a URL with this host is served by the tournament service.
pub fn host_is_service(host: &Option<String>) -> (ours: bool)
    ensures
        ours == is_service_host(optional_text(*host)),
{
    match host {
        Some(name) => {
            if same_text(name.as_str(), SERVICE_DOMAIN) {
                return true;
            }
            let mut subdomain = ".".to_owned();
            subdomain.append(SERVICE_DOMAIN);
            proof {
                reveal_strlit(".");
                assert("."@ =~= seq!['.']);
            }
            text_ends_with(name.as_str(), subdomain.as_str())
        },
        None => false,
    }
}

/// Says whether the body of an error response reports, in any letter case,
/// that the result is already on record.
pub fn is_duplicate_report(body: &str) -> (duplicate: bool)
    ensures
        duplicate == reports_duplicate(Some(body@)),
{
    contains_ignoring_case(body, DUPLICATE_RESULT_PHRASE)
}

/// Settles the status of a result report. An error status whose body says,
/// in any letter case, that the result is already on record counts as
/// `200`: the report had taken effect before. Every other status stands.
pub fn submit_result_status(status: u16, body: Option<&str>) -> (settled: u16)
    ensures
        settled == if is_failure(status) && reports_duplicate(
            match body {
                Some(text) => Some(text@),
                None => None,
            },
        ) {
            200u16
        } else {
            status
        },
{
    if status_is_failure(status) {
        match body {
            Some(text) => {
                if is_duplicate_report(text) {
                    return 200;
                }
            },
            None => {},
        }
    }
    status
}

/// Reads the answer to an upload to the cache: an error status is an error
/// that carries the body as its message; any other status is success.
pub fn cache_upload_result(status: u16, content: String) -> (result: Result<(), ApiError<String>>)
    ensures
        result == if is_failure(status) {
            Err::<(), ApiError<String>>(ApiError::Response { status, message: content })
        } else {
            Ok(())
        },
{
    if status_is_failure(status) {
        Err(ApiError::Response { status, message: content })
    } else {
        Ok(())
    }
}

} // verus!
