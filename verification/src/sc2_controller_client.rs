//! The client of the process launcher: the service on this machine that
//! starts a game engine and knows where the maps are.

use crate::api::{
    build_request, BodyModel, ControllerApi, Method, PlanModel, RequestBuildError, RequestPlan,
};
use crate::retry::single_attempt;
use crate::urls::{is_normal_url, parse_url, url_join, url_parse};
use vstd::prelude::*;

verus! {

/// A port number.
pub type Port = u16;

/// Path of the endpoint that starts a game engine.
pub const START_ENDPOINT: &'static str = "/start";

/// Path below which the launcher resolves map names.
pub const FIND_MAP_ENDPOINT: &'static str = "/find_map/";

/// The decimal digit that stands for `value`, for `value` below ten.
pub open spec fn digit(value: nat) -> char {
    "0123456789"@[value as int]
}

/// `value` written in decimal, without leading zeros.
pub open spec fn decimal(value: nat) -> Seq<char>
    decreases value,
{
    if value < 10 {
        seq![digit(value)]
    } else {
        decimal(value / 10).push(digit(value % 10))
    }
}

/// The address of the launcher that listens on `host` and `port`, as it
/// is handed to the URL parser.
pub open spec fn launcher_url(host: Seq<char>, port: Port) -> Seq<char> {
    "http://"@ + host + ":"@ + decimal(port as nat)
}

/// Appends `value`, written in decimal, to `out`.
pub fn append_decimal(out: &mut String, value: u16)
    ensures
        final(out)@ == old(out)@ + decimal(value as nat),
    decreases value,
{
    if value >= 10 {
        append_decimal(out, value / 10);
    }
    let last: usize = (value % 10) as usize;
    proof {
        reveal_strlit("0123456789");
    }
    let digits = "0123456789";
    let one = digits.substring_ascii(last, last + 1);
    out.append(one);
    proof {
        assert(one@ =~= seq![digit((value % 10) as nat)]);
        if value >= 10 {
            assert(old(out)@ + decimal((value / 10) as nat) + one@ =~= old(out)@ + decimal(
                value as nat,
            ));
        }
    }
}

/// Why a launcher client could not be made: host and port give no
/// absolute URL.
#[derive(Debug)]
pub struct LauncherAddressError {
    pub cause: url::ParseError,
}

/// The endpoint of the process launcher.
#[derive(Debug)]
pub struct SC2Controller {
    url: String,
    process_key: Port,
}

impl SC2Controller {
    /// The key of the process that this client speaks for.
    pub closed spec fn key(&self) -> Port {
        self.process_key
    }

    /// A client is well formed when its base URL is an absolute URL in
    /// its normal form.
    pub open spec fn wf(&self) -> bool {
        is_normal_url(self.base_url())
    }

    /// Makes a client for the launcher on `host` and `port`. Fails at once
    /// where the two give no absolute URL. The client keeps the URL in its
    /// normal form.
    pub fn new(host: &str, port: Port) -> (made: Result<Self, LauncherAddressError>)
        ensures
            match made {
                Ok(client) => url_parse(launcher_url(host@, port)) matches Some(parsed)
                    && parsed.text == client.base_url() && client.wf() && client.key() == 0,
                Err(_) => url_parse(launcher_url(host@, port)) is None,
            },
    {
        let mut url_string = "http://".to_owned();
        url_string.append(host);
        url_string.append(":");
        append_decimal(&mut url_string, port);
        match parse_url(url_string.as_str()) {
            Ok(parsed) => Ok(SC2Controller { url: parsed.text, process_key: 0 }),
            Err(cause) => Err(LauncherAddressError { cause }),
        }
    }

    /// Records the key of the process that this client speaks for.
    pub fn set_process_key(&mut self, process_key: Port)
        ensures
            final(self).key() == process_key,
            final(self).base_url() == old(self).base_url(),
    {
        self.process_key = process_key
    }

    /// The key of the process that this client speaks for.
    pub fn process_key(&self) -> (key: Port)
        ensures
            key == self.key(),
    {
        self.process_key
    }

    /// Plans the request that starts a game engine: a `POST` to the start
    /// endpoint.
    pub fn start(&self) -> (plan: Result<RequestPlan, RequestBuildError>)
        ensures
            match plan {
                Ok(request) => url_join(self.base_url(), START_ENDPOINT@) == Some(request.url@)
                    && request@ == (PlanModel {
                    method: Method::Post,
                    url: request.url@,
                    authorization: None,
                    query: Seq::empty(),
                    body: BodyModel::Empty,
                    retry: single_attempt(),
                }),
                Err(error) => url_join(self.base_url(), START_ENDPOINT@) is None && error is InvalidUrl,
            },
    {
        build_request(self, Method::Post, START_ENDPOINT, None)
    }

    /// As [`SC2Controller::start`], for a client that is given up with the call.
    pub fn start_owned(self) -> (plan: Result<RequestPlan, RequestBuildError>)
        ensures
            match plan {
                Ok(request) => url_join(self.base_url(), START_ENDPOINT@) == Some(request.url@)
                    && request@ == (PlanModel {
                    method: Method::Post,
                    url: request.url@,
                    authorization: None,
                    query: Seq::empty(),
                    body: BodyModel::Empty,
                    retry: single_attempt(),
                }),
                Err(error) => url_join(self.base_url(), START_ENDPOINT@) is None && error is InvalidUrl,
            },
    {
        self.start()
    }

    /// Plans the request that resolves `map_name`: a `GET` below the
    /// find-map endpoint.
    pub fn find_map(&self, map_name: &str) -> (plan: Result<RequestPlan, RequestBuildError>)
        ensures
            match plan {
                Ok(request) => url_join(self.base_url(), FIND_MAP_ENDPOINT@ + map_name@) == Some(
                    request.url@,
                ) && request@ == (PlanModel {
                    method: Method::Get,
                    url: request.url@,
                    authorization: None,
                    query: Seq::empty(),
                    body: BodyModel::Empty,
                    retry: single_attempt(),
                }),
                Err(error) => url_join(self.base_url(), FIND_MAP_ENDPOINT@ + map_name@) is None
                    && error is InvalidUrl,
            },
    {
        let mut path = FIND_MAP_ENDPOINT.to_owned();
        path.append(map_name);
        build_request(self, Method::Get, path.as_str(), None)
    }
}

impl Clone for SC2Controller {
    fn clone(&self) -> (copy: Self)
        ensures
            copy.base_url() == self.base_url(),
            copy.key() == self.key(),
    {
        SC2Controller { url: self.url.clone(), process_key: self.process_key }
    }
}

impl ControllerApi for SC2Controller {
    /// The base URL: the normal form of `http://{host}:{port}`.
    closed spec fn base_url(&self) -> Seq<char> {
        self.url@
    }

    fn url(&self) -> (url: &str) {
        self.url.as_str()
    }

    fn api_type(&self) -> (kind: &'static str)
        ensures
            kind@ == "SC2Controller"@,
    {
        "SC2Controller"
    }
}

} // verus!
