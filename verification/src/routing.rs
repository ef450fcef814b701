//! The request router and the control-plane request handling: every request
//! is answered by the control handler, the file server, the proxy, or a 404,
//! in that order of priority.

use vstd::prelude::*;
use vstd::string::StringExecFns;
use vstd::utf8::encode_utf8;

use crate::Action;
use crate::config::Config;
use crate::strutil::chars_subrange;
use crate::strutil::chars_to_string;
use crate::strutil::chars_append_str;
use crate::strutil::spec_is_prefix;
use crate::strutil::str_chars;
use crate::strutil::str_utf8_bytes;

verus! {

/// The `Server` response header value.
pub const SERVER_HEADER: &'static str = "Penguin v0.1.0";

/// A complete in-memory HTTP response: status code, headers in order, body.
pub struct HttpResponse {
    pub status: u16,
    pub headers: Vec<(String, String)>,
    pub body: Vec<u8>,
}

/// The mathematical content of a header list.
pub open spec fn spec_headers(v: Seq<(String, String)>) -> Seq<(Seq<char>, Seq<char>)> {
    v.map_values(|p: (String, String)| (p.0@, p.1@))
}

/// The `Server: Penguin ...` header alone.
pub open spec fn spec_server_header_only(v: Seq<(String, String)>) -> bool {
    spec_headers(v) =~= seq![("Server"@, SERVER_HEADER@)]
}

fn server_only_headers() -> (r: Vec<(String, String)>)
    ensures
        spec_server_header_only(r@),
{
    let mut r: Vec<(String, String)> = Vec::new();
    r.push((String::from_str("Server"), String::from_str(SERVER_HEADER)));
    proof {
        assert(spec_headers(r@) =~= seq![("Server"@, SERVER_HEADER@)]);
    }
    r
}

/// A `400 Bad Request` response with the given diagnostic body.
pub fn bad_request(msg: &str) -> (r: HttpResponse)
    ensures
        r.status == 400,
        spec_server_header_only(r.headers@),
        r.body@ == encode_utf8(msg@),
{
    HttpResponse { status: 400, headers: server_only_headers(), body: str_utf8_bytes(msg) }
}

/// The `404 Not Found` response.
pub fn not_found() -> (r: HttpResponse)
    ensures
        r.status == 404,
        spec_server_header_only(r.headers@),
        r.body@ == encode_utf8("Not found\n"@),
{
    HttpResponse { status: 404, headers: server_only_headers(), body: str_utf8_bytes("Not found\n") }
}

/// The `500 Internal Server Error` response built from a caught panic
/// message; no stack trace is leaked.
pub fn internal_server_error(msg: &str) -> (r: HttpResponse)
    ensures
        r.status == 500,
        spec_server_header_only(r.headers@),
        r.body@ == encode_utf8(
            "Internal server error: this is a bug in Penguin!\n\n"@ + msg@ + "\n"@,
        ),
{
    let mut v = str_chars("Internal server error: this is a bug in Penguin!\n\n");
    chars_append_str(&mut v, msg);
    chars_append_str(&mut v, "\n");
    let s = chars_to_string(&v);
    HttpResponse { status: 500, headers: server_only_headers(), body: str_utf8_bytes(s.as_str()) }
}

/// The `416 Range Not Satisfiable` response: an empty body.
pub fn range_not_satisfiable() -> (r: HttpResponse)
    ensures
        r.status == 416,
        spec_server_header_only(r.headers@),
        r.body@.len() == 0,
{
    HttpResponse { status: 416, headers: server_only_headers(), body: Vec::new() }
}

/// The `200 OK` response with an empty body that the control endpoints
/// answer with.
pub fn empty_ok() -> (r: HttpResponse)
    ensures
        r.status == 200,
        spec_server_header_only(r.headers@),
        r.body@.len() == 0,
{
    HttpResponse { status: 200, headers: server_only_headers(), body: Vec::new() }
}

/// `path` without its leading slashes.
pub open spec fn spec_trim_slashes(s: Seq<char>) -> Seq<char>
    decreases s.len(),
{
    if s.len() > 0 && s[0] == '/' {
        spec_trim_slashes(s.skip(1))
    } else {
        s
    }
}

fn trim_slashes(v: &Vec<char>, from: usize) -> (r: Vec<char>)
    requires
        from <= v@.len(),
    ensures
        r@ == spec_trim_slashes(v@.skip(from as int)),
{
    let n = v.len();
    let mut lo: usize = from;
    while lo < n && v[lo] == '/'
        invariant
            from <= lo <= n,
            spec_trim_slashes(v@.skip(from as int)) == spec_trim_slashes(v@.skip(lo as int)),
        decreases n - lo,
    {
        proof {
            assert(v@.skip(lo as int).skip(1) =~= v@.skip(lo + 1));
        }
        lo = lo + 1;
    }
    proof {
        assert(spec_trim_slashes(v@.skip(lo as int)) == v@.skip(lo as int));
    }
    chars_subrange(v, lo, n)
}

/// Whether mount `i` of `c` matches the request path: its URI path is a
/// prefix of the path.
pub open spec fn spec_mount_matches(c: &Config, i: int, path: Seq<char>) -> bool {
    spec_is_prefix(c.mounts@[i].uri_path@, path)
}

/// The subpath served under a mount: the request path with the mount's URI
/// path and any further leading slashes removed.
pub open spec fn spec_mount_subpath(c: &Config, i: int, path: Seq<char>) -> Seq<char> {
    spec_trim_slashes(path.skip(c.mounts@[i].uri_path@.len() as int))
}

/// The winning mount for a path: it matches, no matching mount has a longer
/// URI path, and among equally long matches the one latest in the list wins.
pub open spec fn spec_best_mount(c: &Config, i: int, path: Seq<char>) -> bool {
    &&& 0 <= i < c.mounts@.len()
    &&& spec_mount_matches(c, i, path)
    &&& forall|j: int|
        0 <= j < c.mounts@.len() && #[trigger] spec_mount_matches(c, j, path) ==> c.mounts@[j].uri_path@.len()
            <= c.mounts@[i].uri_path@.len()
    &&& forall|j: int|
        i < j < c.mounts@.len() && #[trigger] spec_mount_matches(c, j, path)
            ==> c.mounts@[j].uri_path@.len() < c.mounts@[i].uri_path@.len()
}

/// Picks the most specific mount matching the request path, together with
/// the subpath below it.
pub fn choose_mount(config: &Config, path: &str) -> (r: Option<(usize, String)>)
    ensures
        match r {
            Some((i, sub)) => spec_best_mount(config, i as int, path@) && sub@
                == spec_mount_subpath(config, i as int, path@),
            None => forall|j: int|
                0 <= j < config.mounts@.len() ==> !spec_mount_matches(config, j, path@),
        },
{
    let pathv = str_chars(path);
    let n = config.mounts.len();
    let mut best: Option<usize> = None;
    let mut i: usize = 0;
    while i < n
        invariant
            0 <= i <= n,
            n == config.mounts@.len(),
            pathv@ == path@,
            match best {
                Some(b) => {
                    &&& b < i
                    &&& spec_mount_matches(config, b as int, path@)
                    &&& forall|j: int|
                        0 <= j < i && #[trigger] spec_mount_matches(config, j, path@)
                            ==> config.mounts@[j].uri_path@.len()
                            <= config.mounts@[b as int].uri_path@.len()
                    &&& forall|j: int|
                        b < j < i && #[trigger] spec_mount_matches(config, j, path@)
                            ==> config.mounts@[j].uri_path@.len()
                            < config.mounts@[b as int].uri_path@.len()
                },
                None => forall|j: int|
                    0 <= j < i ==> !spec_mount_matches(config, j, path@),
            },
        decreases n - i,
    {
        let mv = str_chars(config.mounts[i].uri_path.as_str());
        if crate::strutil::chars_is_prefix(&mv, &pathv) {
            let better = match best {
                None => true,
                Some(b) => {
                    let bv = str_chars(config.mounts[b].uri_path.as_str());
                    mv.len() >= bv.len()
                },
            };
            if better {
                best = Some(i);
            }
        }
        i = i + 1;
    }
    match best {
        Some(b) => {
            let bv = str_chars(config.mounts[b].uri_path.as_str());
            proof {
                assert(bv@.len() <= pathv@.len());
            }
            let sub = trim_slashes(&pathv, bv.len());
            Some((b, chars_to_string(&sub)))
        }
        None => None,
    }
}

/// Where a request is routed.
pub enum Route {
    /// The path lies under the control path.
    Control,
    /// A mount matches: serve `subpath` from mount `mount`.
    Files { mount: usize, subpath: String },
    /// No mount matches and a proxy is configured.
    Proxy,
    /// No mount matches and no proxy is configured.
    NotFound,
}

/// Routes one request path: the control handler wins, then the most specific
/// matching mount, then the proxy, then 404.
pub fn route(config: &Config, path: &str) -> (r: Route)
    ensures
        ({
            let control = spec_is_prefix(config.control_path@, path@);
            match r {
                Route::Control => control,
                Route::Files { mount, subpath } => !control && spec_best_mount(
                    config,
                    mount as int,
                    path@,
                ) && subpath@ == spec_mount_subpath(config, mount as int, path@),
                Route::Proxy => !control && config.proxy is Some && forall|j: int|
                    0 <= j < config.mounts@.len() ==> !spec_mount_matches(config, j, path@),
                Route::NotFound => !control && config.proxy is None && forall|j: int|
                    0 <= j < config.mounts@.len() ==> !spec_mount_matches(config, j, path@),
            }
        }),
{
    let pathv = str_chars(path);
    let ctrl = str_chars(config.control_path.as_str());
    if crate::strutil::chars_is_prefix(&ctrl, &pathv) {
        return Route::Control;
    }
    match choose_mount(config, path) {
        Some((i, sub)) => Route::Files { mount: i, subpath: sub },
        None => {
            if config.proxy.is_some() {
                Route::Proxy
            } else {
                Route::NotFound
            }
        }
    }
}

/// What the control handler decides to do before any body is read.
pub enum ControlPlan {
    /// The request asks for a WebSocket upgrade.
    Upgrade,
    /// `GET <control>/client.js`: serve the client script.
    ClientJs,
    /// `POST <control>/reload`: publish a reload.
    Reload,
    /// `POST <control>/message`: the body must be read first.
    NeedMessageBody,
    /// Anything else under the control path is rejected.
    BadPath,
}

/// Decides a control request from the upgrade flag, the method, and the path
/// remainder after the control path.
pub fn control_plan(is_upgrade: bool, method: &str, subpath: &str) -> (r: ControlPlan)
    ensures
        ({
            let client_js = method@ == "GET"@ && subpath@ == "/client.js"@;
            let reload = method@ == "POST"@ && subpath@ == "/reload"@;
            let message = method@ == "POST"@ && subpath@ == "/message"@;
            match r {
                ControlPlan::Upgrade => is_upgrade,
                ControlPlan::ClientJs => !is_upgrade && client_js,
                ControlPlan::Reload => !is_upgrade && reload,
                ControlPlan::NeedMessageBody => !is_upgrade && message,
                ControlPlan::BadPath => !is_upgrade && !client_js && !reload && !message,
            }
        }),
{
    if is_upgrade {
        return ControlPlan::Upgrade;
    }
    let mv = str_chars(method);
    let sv = str_chars(subpath);
    let is_post = crate::strutil::chars_eq_str(&mv, "POST");
    let is_get = crate::strutil::chars_eq_str(&mv, "GET");
    if is_get && crate::strutil::chars_eq_str(&sv, "/client.js") {
        ControlPlan::ClientJs
    } else if is_post && crate::strutil::chars_eq_str(&sv, "/reload") {
        ControlPlan::Reload
    } else if is_post && crate::strutil::chars_eq_str(&sv, "/message") {
        ControlPlan::NeedMessageBody
    } else {
        ControlPlan::BadPath
    }
}

/// The response serving the browser-side client script.
pub fn client_js_response(config: &Config) -> (r: HttpResponse)
    ensures
        r.status == 200,
        r.body@ == encode_utf8(
            crate::strutil::spec_replace_all(
                crate::inject::CLIENT_JS_TEMPLATE@,
                "{{ control_path }}"@,
                config.control_path@,
            ),
        ),
        spec_headers(r.headers@) =~= seq![
            ("Content-Type"@, "application/javascript"@),
            ("Server"@, SERVER_HEADER@),
        ],
{
    let js = crate::inject::script(config);
    let mut headers: Vec<(String, String)> = Vec::new();
    headers.push(
        (String::from_str("Content-Type"), String::from_str("application/javascript")),
    );
    headers.push((String::from_str("Server"), String::from_str(SERVER_HEADER)));
    proof {
        assert(spec_headers(headers@) =~= seq![
            ("Content-Type"@, "application/javascript"@),
            ("Server"@, SERVER_HEADER@),
        ]);
    }
    HttpResponse { status: 200, headers, body: str_utf8_bytes(js.as_str()) }
}

/// The outcome of `POST <control>/message` once the body was read: a
/// non-UTF-8 body is rejected with a 400, a UTF-8 body is published verbatim.
pub fn message_outcome(body_utf8: Option<String>) -> (r: Result<Action, HttpResponse>)
    ensures
        match r {
            Ok(a) => body_utf8 matches Some(s) && a matches Action::Message(m) && m@ == s@,
            Err(resp) => body_utf8 is None && resp.status == 400 && resp.body@ == encode_utf8(
                "Bad request: request body is not UTF8\n"@,
            ),
        },
{
    match body_utf8 {
        Some(s) => Ok(Action::Message(s)),
        None => Err(bad_request("Bad request: request body is not UTF8\n")),
    }
}

/// The body of the rejection for other requests under the control path.
pub fn control_bad_path_response() -> (r: HttpResponse)
    ensures
        r.status == 400,
        r.body@ == encode_utf8("Invalid request to libpenguin control path\n"@),
{
    bad_request("Invalid request to libpenguin control path\n")
}

} // verus!
