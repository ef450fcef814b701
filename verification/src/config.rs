//! Server configuration: mounts, proxy target, control path, and validation.

use vstd::prelude::*;

use vstd::string::StringExecFns;

use crate::strutil::chars_eq_str;
use crate::strutil::chars_subrange;
use crate::strutil::chars_to_string;
use crate::strutil::str_chars;

verus! {

/// The URI path used for the server's internal control functions (for
/// example, opening WebSocket connections). It is chosen to be unlikely to
/// clash with real application paths while staying easy to type.
pub const DEFAULT_CONTROL_PATH: &'static str = "/~~penguin";

/// The normal form of a configured URI path: one trailing `/` is removed
/// (unless the path is just `/`), and a leading `/` is added when missing.
pub open spec fn spec_normalize_path(s: Seq<char>) -> Seq<char> {
    let t = if s.len() > 1 && s[s.len() - 1] == '/' {
        s.subrange(0, s.len() - 1)
    } else {
        s
    };
    if t.len() == 0 || t[0] != '/' {
        seq!['/'] + t
    } else {
        t
    }
}

/// Normalizes a configured URI path in place: removes one trailing `/` (except
/// on the root path) and prepends a `/` when the path does not start with one.
pub fn normalize_path(path: &mut String)
    ensures
        final(path)@ == spec_normalize_path(old(path)@),
{
    let mut v = str_chars(path.as_str());
    if v.len() > 1 && v[v.len() - 1] == '/' {
        v.pop();
        proof {
            assert(v@ =~= old(path)@.subrange(0, old(path)@.len() - 1));
        }
    }
    if v.len() == 0 || v[0] != '/' {
        v.insert(0, '/');
    }
    *path = chars_to_string(&v);
}

/// A mapping from a URI path prefix to a directory on the file system.
#[derive(Debug, Clone)]
pub struct Mount {
    /// Path prefix of the URI that maps to the directory. Starts with `/` and
    /// does not end with `/` (except when it is exactly `/`).
    pub uri_path: String,
    /// Path of the served directory on the file system.
    pub fs_path: String,
}

/// Scheme of a proxy target: plain or TLS HTTP.
#[derive(Debug, Clone, Copy, PartialEq, Eq, Structural)]
pub enum Scheme {
    Http,
    Https,
}

/// A proxy target: scheme plus authority (host and optional port) of the
/// upstream origin that unmatched requests are forwarded to.
#[derive(Debug, Clone, PartialEq, Eq)]
pub struct ProxyTarget {
    pub scheme: Scheme,
    pub authority: String,
}

/// The default TCP port of a scheme, used when the authority names none.
pub fn default_port(s: &Scheme) -> (r: u16)
    ensures
        r == (match s {
            Scheme::Http => 80u16,
            Scheme::Https => 443u16,
        }),
{
    match s {
        Scheme::Http => 80,
        Scheme::Https => 443,
    }
}

/// A valid server configuration, produced by [`Builder::validate`].
#[derive(Debug, Clone)]
pub struct Config {
    pub bind_addr: String,
    pub proxy: Option<ProxyTarget>,
    pub mounts: Vec<Mount>,
    pub control_path: String,
}

impl Config {
    /// The mount list has no two entries with the same URI path.
    pub open spec fn mounts_unique(&self) -> bool {
        forall|i: int, j: int|
            0 <= i < j < self.mounts@.len() ==> self.mounts@[i].uri_path@ != self.mounts@[j].uri_path@
    }

    /// Validation invariant: unique mounts, at least one backend, and no root
    /// mount next to a proxy (the proxy would never be reached).
    pub open spec fn wf(&self) -> bool {
        &&& self.mounts_unique()
        &&& self.proxy is Some || self.mounts@.len() > 0
        &&& self.proxy is Some ==> forall|i: int|
            0 <= i < self.mounts@.len() ==> self.mounts@[i].uri_path@ != seq!['/']
    }

    /// The configured proxy target, if any.
    pub fn proxy(&self) -> (r: Option<&ProxyTarget>)
        ensures
            r is Some <==> self.proxy is Some,
            r matches Some(t) ==> self.proxy matches Some(t2) && t == t2,
    {
        self.proxy.as_ref()
    }

    /// The configured mounts.
    pub fn mounts(&self) -> (r: &Vec<Mount>)
        ensures
            r == &self.mounts,
    {
        &self.mounts
    }

    /// The control path (`/~~penguin` unless overridden).
    pub fn control_path(&self) -> (r: &str)
        ensures
            r@ == self.control_path@,
    {
        self.control_path.as_str()
    }

    /// The socket address the server listens on, as `host:port` text.
    pub fn bind_addr(&self) -> (r: &str)
        ensures
            r@ == self.bind_addr@,
    {
        self.bind_addr.as_str()
    }
}

/// Configuration validation error.
#[derive(Debug)]
pub enum ConfigError {
    /// The same URI path was added as a mount twice.
    DuplicateUriPath(String),
    /// A proxy was configured together with a mount on `/`, which would make
    /// the proxy unreachable.
    ProxyAndRootMount,
    /// Neither a proxy nor a mount was specified: the server would always
    /// respond 404.
    NoProxyOrMount,
}

impl ConfigError {
    /// A human-readable description of the error.
    pub fn message(&self) -> (r: String)
        ensures
            self matches ConfigError::DuplicateUriPath(p)
                ==> r@ == "URI path '"@ + p@ + "' was added as mount twice"@,
            self is ProxyAndRootMount ==> r@ == "a proxy was configured but a mount on '/' was added as well (in \
                    that case, the proxy would be ignored)"@,
            self is NoProxyOrMount ==> r@ == "neither a proxy nor a mount was specified: server would always \
                    respond 404 in this case"@,
    {
        match self {
            ConfigError::DuplicateUriPath(p) => {
                let mut v = str_chars("URI path '");
                crate::strutil::chars_append_str(&mut v, p.as_str());
                crate::strutil::chars_append_str(&mut v, "' was added as mount twice");
                chars_to_string(&v)
            }
            ConfigError::ProxyAndRootMount => {
                String::from_str(
                    "a proxy was configured but a mount on '/' was added as well (in \
                    that case, the proxy would be ignored)",
                )
            }
            ConfigError::NoProxyOrMount => {
                String::from_str(
                    "neither a proxy nor a mount was specified: server would always \
                    respond 404 in this case",
                )
            }
        }
    }
}

/// Builder for a server configuration.
#[derive(Debug, Clone)]
pub struct Builder(pub Config);

impl Builder {
    /// Starts a configuration listening on the given socket address
    /// (`host:port` text).
    pub fn new(bind_addr: String) -> (r: Builder)
        ensures
            r.0.bind_addr@ == bind_addr@,
            r.0.proxy is None,
            r.0.mounts@.len() == 0,
            r.0.control_path@ == DEFAULT_CONTROL_PATH@,
    {
        Builder(
            Config {
                bind_addr,
                proxy: None,
                control_path: String::from_str(DEFAULT_CONTROL_PATH),
                mounts: Vec::new(),
            },
        )
    }

    /// Enables a proxy: requests that match no mount are forwarded to the
    /// given target. May be set only once per builder.
    pub fn proxy(self, target: ProxyTarget) -> (r: Builder)
        requires
            self.0.proxy is None,
        ensures
            r.0.proxy matches Some(t) && t == target,
            r.0.bind_addr == self.0.bind_addr,
            r.0.mounts == self.0.mounts,
            r.0.control_path == self.0.control_path,
    {
        let Builder(mut config) = self;
        config.proxy = Some(target);
        Builder(config)
    }

    /// Adds a mount: the directory `fs_path` is served under the (normalized)
    /// URI path `uri_path`. Returns [`ConfigError::DuplicateUriPath`] when the
    /// same URI path was already added.
    pub fn add_mount(self, uri_path: String, fs_path: String) -> (r: Result<Builder, ConfigError>)
        ensures
            ({
                let norm = spec_normalize_path(uri_path@);
                let dup = exists|i: int|
                    0 <= i < self.0.mounts@.len() && self.0.mounts@[i].uri_path@ == norm;
                match r {
                    Ok(b) => {
                        &&& !dup
                        &&& b.0.mounts@.len() == self.0.mounts@.len() + 1
                        &&& b.0.mounts@.subrange(0, self.0.mounts@.len() as int) == self.0.mounts@
                        &&& b.0.mounts@.last().uri_path@ == norm
                        &&& b.0.mounts@.last().fs_path@ == fs_path@
                        &&& b.0.bind_addr == self.0.bind_addr
                        &&& b.0.proxy == self.0.proxy
                        &&& b.0.control_path == self.0.control_path
                    },
                    Err(e) => dup && (e matches ConfigError::DuplicateUriPath(p) && p@ == norm),
                }
            }),
    {
        let mut uri_path = uri_path;
        normalize_path(&mut uri_path);
        let norm = str_chars(uri_path.as_str());

        let Builder(mut config) = self;
        let n = config.mounts.len();
        let mut i: usize = 0;
        while i < n
            invariant
                0 <= i <= n,
                n == config.mounts@.len(),
                norm@ == uri_path@,
                forall|j: int| 0 <= j < i ==> config.mounts@[j].uri_path@ != norm@,
            decreases n - i,
        {
            if chars_eq_str(&norm, config.mounts[i].uri_path.as_str()) {
                proof {
                    assert(self.0.mounts@[i as int].uri_path@ == norm@);
                }
                return Err(ConfigError::DuplicateUriPath(uri_path));
            }
            i = i + 1;
        }

        let ghost pre = config.mounts@;
        config.mounts.push(Mount { uri_path, fs_path });
        proof {
            assert(config.mounts@.subrange(0, pre.len() as int) =~= pre);
        }
        Ok(Builder(config))
    }

    /// Overrides the default control path with a custom (normalized) path.
    pub fn set_control_path(self, path: String) -> (r: Builder)
        ensures
            r.0.control_path@ == spec_normalize_path(path@),
            r.0.bind_addr == self.0.bind_addr,
            r.0.proxy == self.0.proxy,
            r.0.mounts == self.0.mounts,
    {
        let Builder(mut config) = self;
        let mut path = path;
        normalize_path(&mut path);
        config.control_path = path;
        Builder(config)
    }

    /// Validates the configuration and returns the finished [`Config`]:
    /// an empty configuration and a proxy combined with a root mount are
    /// rejected; everything else is returned unchanged.
    pub fn validate(self) -> (r: Result<Config, ConfigError>)
        ensures
            match r {
                Ok(c) => {
                    &&& c == self.0
                    &&& (self.0.proxy is Some || self.0.mounts@.len() > 0)
                    &&& (self.0.proxy is Some ==> forall|i: int|
                        0 <= i < self.0.mounts@.len() ==> self.0.mounts@[i].uri_path@ != seq![
                            '/',
                        ])
                    &&& (self.0.mounts_unique() ==> c.wf())
                },
                Err(e) => match e {
                    ConfigError::NoProxyOrMount => self.0.proxy is None
                        && self.0.mounts@.len() == 0,
                    ConfigError::ProxyAndRootMount => self.0.proxy is Some && exists|i: int|
                        0 <= i < self.0.mounts@.len() && self.0.mounts@[i].uri_path@ == seq!['/'],
                    _ => false,
                },
            },
    {
        if self.0.proxy.is_none() && self.0.mounts.len() == 0 {
            return Err(ConfigError::NoProxyOrMount);
        }

        if self.0.proxy.is_some() {
            let root = str_chars("/");
            proof {
                reveal_strlit("/");
                assert(root@ =~= seq!['/']);
            }
            let n = self.0.mounts.len();
            let mut i: usize = 0;
            while i < n
                invariant
                    0 <= i <= n,
                    n == self.0.mounts@.len(),
                    root@ == seq!['/'],
                    forall|j: int| 0 <= j < i ==> self.0.mounts@[j].uri_path@ != seq!['/'],
                decreases n - i,
            {
                if chars_eq_str(&root, self.0.mounts[i].uri_path.as_str()) {
                    proof {
                        assert(self.0.mounts@[i as int].uri_path@ == seq!['/']);
                    }
                    return Err(ConfigError::ProxyAndRootMount);
                }
                i = i + 1;
            }
        }

        Ok(self.0)
    }
}

/// Adding a mount with a fresh URI path keeps the mount list free of
/// duplicates; together with [`Builder::add_mount`]'s contract this carries
/// uniqueness from an empty builder through every successful addition.
pub proof fn lemma_mounts_unique_push(mounts: Seq<Mount>, m: Mount)
    requires
        forall|i: int, j: int|
            0 <= i < j < mounts.len() ==> mounts[i].uri_path@ != mounts[j].uri_path@,
        forall|i: int| 0 <= i < mounts.len() ==> (#[trigger] mounts[i]).uri_path@ != m.uri_path@,
    ensures
        forall|i: int, j: int|
            0 <= i < j < mounts.push(m).len() ==> mounts.push(m)[i].uri_path@ != mounts.push(
                m,
            )[j].uri_path@,
{
    assert forall|i: int, j: int| 0 <= i < j < mounts.push(m).len() implies mounts.push(
        m,
    )[i].uri_path@ != mounts.push(m)[j].uri_path@ by {
        if j < mounts.len() {
            assert(mounts.push(m)[i] == mounts[i]);
            assert(mounts.push(m)[j] == mounts[j]);
        } else {
            assert(mounts.push(m)[i] == mounts[i]);
            assert(mounts.push(m)[j] == m);
        }
    }
}

/// Decimal digits.
pub open spec fn spec_is_digit(c: char) -> bool {
    48 <= (c as u32) <= 57
}

/// The number denoted by a digit sequence, read left to right.
pub open spec fn spec_digits_val(s: Seq<char>) -> int
    decreases s.len(),
{
    if s.len() == 0 {
        0
    } else {
        spec_digits_val(s.drop_last()) * 10 + ((s.last() as u32) - 48)
    }
}

/// The value of a digit sequence never shrinks as digits are appended.
proof fn lemma_digits_val_mono(s: Seq<char>, i: int)
    requires
        0 <= i <= s.len(),
        forall|j: int| 0 <= j < s.len() ==> spec_is_digit(s[j]),
        spec_digits_val(s.take(i)) >= 0,
    ensures
        spec_digits_val(s.take(i)) <= spec_digits_val(s),
        spec_digits_val(s) >= 0,
    decreases s.len() - i,
{
    if i < s.len() {
        assert(s.take(i + 1).drop_last() =~= s.take(i));
        assert(s.take(i + 1).last() == s[i]);
        lemma_digits_val_mono(s, i + 1);
    } else {
        assert(s.take(i) =~= s);
    }
}

/// Whether a digit sequence is a valid dotted-quad octet: one to three
/// digits, no leading zero (except `0` itself), value at most 255.
pub open spec fn spec_is_octet(s: Seq<char>) -> bool {
    &&& 1 <= s.len() <= 3
    &&& forall|j: int| 0 <= j < s.len() ==> spec_is_digit(s[j])
    &&& (s.len() > 1 ==> s[0] != '0')
    &&& spec_digits_val(s) <= 255
}

/// The value of a valid octet text, or nothing.
fn octet_val(v: &Vec<char>) -> (r: Option<u32>)
    ensures
        (r is Some) == spec_is_octet(v@),
        r matches Some(x) ==> x as int == spec_digits_val(v@),
{
    let n = v.len();
    if n < 1 || n > 3 {
        return None;
    }
    let mut val: u32 = 0;
    let mut i: usize = 0;
    while i < n
        invariant
            0 <= i <= n,
            n == v@.len() <= 3,
            forall|j: int| 0 <= j < i ==> spec_is_digit(v@[j]),
            val as int == spec_digits_val(v@.take(i as int)),
            i == 0 ==> val == 0,
            i == 1 ==> val <= 9,
            i == 2 ==> val <= 99,
            i == 3 ==> val <= 999,
        decreases n - i,
    {
        let u = v[i] as u32;
        if u < 48 || u > 57 {
            return None;
        }
        proof {
            assert(v@.take(i + 1).drop_last() =~= v@.take(i as int));
            assert(v@.take(i + 1).last() == v@[i as int]);
        }
        val = val * 10 + (u - 48);
        i = i + 1;
    }
    proof {
        assert(v@.take(n as int) =~= v@);
    }
    if n > 1 && v[0] == '0' {
        return None;
    }
    if val > 255 {
        return None;
    }
    Some(val)
}

/// Whether a host text is an IPv4 loopback address: a dotted quad whose
/// first octet is 127.
pub open spec fn spec_is_loopback_ipv4(h: Seq<char>) -> bool {
    let ps = crate::strutil::spec_split(h, '.');
    &&& ps.len() == 4
    &&& forall|j: int| 0 <= j < 4 ==> spec_is_octet(#[trigger] ps[j])
    &&& spec_digits_val(ps[0]) == 127
}

/// Whether a host is local: `localhost` or an IPv4 loopback address. A
/// bracketed IPv6 literal is never recognized here, so an IPv6 target needs
/// an explicit scheme.
pub open spec fn spec_is_loopback_host(h: Seq<char>) -> bool {
    h == "localhost"@ || spec_is_loopback_ipv4(h)
}

/// Tests whether a host text is local.
fn is_loopback_host(h: &Vec<char>) -> (r: bool)
    ensures
        r == spec_is_loopback_host(h@),
{
    if chars_eq_str(h, "localhost") {
        return true;
    }
    let ps = crate::strutil::split_char(h, '.');
    if ps.len() != 4 {
        return false;
    }
    let mut first_val: u32 = 0;
    let mut i: usize = 0;
    while i < 4
        invariant
            0 <= i <= 4,
            ps@.len() == 4,
            ps.deep_view() == crate::strutil::spec_split(h@, '.'),
            forall|j: int| 0 <= j < i ==> spec_is_octet(#[trigger] ps.deep_view()[j]),
            i > 0 ==> first_val as int == spec_digits_val(ps.deep_view()[0]),
        decreases 4 - i,
    {
        proof {
            assert(ps.deep_view()[i as int] =~= ps@[i as int]@);
        }
        match octet_val(&ps[i]) {
            None => {
                return false;
            }
            Some(x) => {
                if i == 0 {
                    first_val = x;
                }
            }
        }
        i = i + 1;
    }
    first_val == 127
}

/// Error from parsing a proxy target out of a string.
#[derive(Debug, PartialEq, Eq, Structural)]
pub enum ProxyTargetParseError {
    /// The string could not be parsed as a URI.
    InvalidUri,
    /// The parsed URI has a path, but a proxy target must not have one.
    HasPath,
    /// The URI has no scheme, and the host is not local, so `http` cannot be
    /// assumed; a scheme other than `http` or `https` is treated the same.
    MissingScheme,
    /// The URI has no authority (host), but one is needed.
    MissingAuthority,
}

/// Whether a parsed path-and-query is a real path (anything but empty or
/// `/`).
pub open spec fn spec_real_path(pq: Option<Seq<char>>) -> bool {
    pq matches Some(p) && p != ""@ && p != "/"@
}

impl ProxyTarget {
    /// Parses a proxy target: a URI holding only a scheme and an authority.
    /// The scheme may be omitted when the host is `localhost` or an IPv4
    /// loopback address; it then defaults to `http`.
    pub fn parse(s: &str) -> (r: Result<ProxyTarget, ProxyTargetParseError>)
        ensures
            ({
                let ok = crate::uri::spec_uri_ok(s@);
                let pq = crate::uri::spec_uri_path_query(s@);
                let auth = crate::uri::spec_uri_authority(s@);
                match r {
                    Err(ProxyTargetParseError::InvalidUri) => !ok,
                    Err(ProxyTargetParseError::HasPath) => ok && spec_real_path(pq),
                    Err(ProxyTargetParseError::MissingAuthority) => ok && !spec_real_path(pq)
                        && auth is None,
                    Err(ProxyTargetParseError::MissingScheme) => ok && !spec_real_path(pq) && (
                    auth matches Some(a) && (match crate::uri::spec_uri_scheme(s@) {
                        Some(sc) => sc != "http"@ && sc != "https"@,
                        None => !spec_is_loopback_host(crate::uri::spec_authority_host(a)),
                    })),
                    Ok(t) => ok && !spec_real_path(pq) && (auth matches Some(a) && t.authority@
                        == a && (match crate::uri::spec_uri_scheme(s@) {
                        Some(sc) => (sc == "http"@ && t.scheme is Http) || (sc == "https"@
                            && t.scheme is Https),
                        None => spec_is_loopback_host(crate::uri::spec_authority_host(a))
                            && t.scheme is Http,
                    })),
                }
            }),
    {
        let parts = match crate::uri::parse_uri(s) {
            None => {
                return Err(ProxyTargetParseError::InvalidUri);
            }
            Some(p) => p,
        };
        match &parts.path_and_query {
            Some(p) => {
                let pv = str_chars(p.as_str());
                if !chars_eq_str(&pv, "") && !chars_eq_str(&pv, "/") {
                    return Err(ProxyTargetParseError::HasPath);
                }
            }
            None => {}
        }
        let authority = match parts.authority {
            None => {
                return Err(ProxyTargetParseError::MissingAuthority);
            }
            Some(a) => a,
        };
        match &parts.scheme {
            Some(sc) => {
                let sv = str_chars(sc.as_str());
                if chars_eq_str(&sv, "http") {
                    Ok(ProxyTarget { scheme: Scheme::Http, authority })
                } else if chars_eq_str(&sv, "https") {
                    Ok(ProxyTarget { scheme: Scheme::Https, authority })
                } else {
                    Err(ProxyTargetParseError::MissingScheme)
                }
            }
            None => {
                let host = match &parts.host {
                    Some(h) => h,
                    None => {
                        return Err(ProxyTargetParseError::MissingScheme);
                    }
                };
                let hv = str_chars(host.as_str());
                if is_loopback_host(&hv) {
                    Ok(ProxyTarget { scheme: Scheme::Http, authority })
                } else {
                    Err(ProxyTargetParseError::MissingScheme)
                }
            }
        }
    }
}

impl std::str::FromStr for ProxyTarget {
    type Err = ProxyTargetParseError;

    fn from_str(s: &str) -> Result<ProxyTarget, ProxyTargetParseError> {
        ProxyTarget::parse(s)
    }
}

/// Whether every character of `t` is a decimal digit.
pub open spec fn spec_all_digits(t: Seq<char>) -> bool {
    forall|j: int| 0 <= j < t.len() ==> spec_is_digit(t[j])
}

/// The number a string denotes when parsed as an unsigned 64-bit integer:
/// an optional `+`, then at least one digit, with a value that fits.
pub open spec fn spec_parse_u64(s: Seq<char>) -> Option<int> {
    let t = if s.len() > 0 && s[0] == '+' {
        s.skip(1)
    } else {
        s
    };
    if t.len() >= 1 && spec_all_digits(t) && spec_digits_val(t) <= u64::MAX {
        Option::Some(spec_digits_val(t))
    } else {
        Option::None
    }
}

/// Parses an unsigned 64-bit integer, as `str::parse::<u64>` accepts it.
pub fn parse_u64(s: &str) -> (r: Option<u64>)
    ensures
        match r {
            Some(x) => spec_parse_u64(s@) == Option::Some(x as int),
            None => spec_parse_u64(s@) is None,
        },
{
    let v = str_chars(s);
    let start: usize = if v.len() > 0 && v[0] == '+' {
        1
    } else {
        0
    };
    let ghost t = if start == 1 {
        v@.skip(1)
    } else {
        v@
    };
    let n = v.len();
    if n == start {
        return None;
    }
    let mut val: u64 = 0;
    let mut i: usize = start;
    while i < n
        invariant
            start <= i <= n,
            n == v@.len(),
            t == if start == 1 {
                v@.skip(1)
            } else {
                v@
            },
            t.len() == n - start,
            forall|j: int| 0 <= j < i - start ==> spec_is_digit(t[j]),
            forall|j: int| 0 <= j < i - start ==> t[j] == v@[j + start],
            val as int == spec_digits_val(t.take(i - start)),
        decreases n - i,
    {
        let u = v[i] as u32;
        if u < 48 || u > 57 {
            proof {
                assert(t[i - start] == v@[i as int]);
                assert(!spec_is_digit(t[i - start]));
                assert(0 <= i - start < t.len());
                assert(!spec_all_digits(t));
                assert(spec_parse_u64(s@) is None);
            }
            return None;
        }
        proof {
            assert(t[i - start] == v@[i as int]);
            assert(t.take(i - start + 1).drop_last() =~= t.take(i - start));
            assert(t.take(i - start + 1).last() == t[i - start]);
        }
        let d = (u - 48) as u64;
        if val > (u64::MAX - d) / 10 {
            proof {
                assert(t.take(i - start + 1) =~= t.take(i + 1 - start));
                assert(spec_digits_val(t.take(i + 1 - start)) > u64::MAX);
                if spec_all_digits(t) {
                    lemma_digits_val_mono(t, i + 1 - start);
                    assert(spec_digits_val(t) > u64::MAX);
                }
                assert(spec_parse_u64(s@) is None);
            }
            return None;
        }
        val = val * 10 + d;
        i = i + 1;
    }
    proof {
        assert(t.take(n - start) =~= t);
        assert(spec_all_digits(t));
    }
    Some(val)
}

pub assume_specification[ core::time::Duration::from_millis ](ms: u64) -> core::time::Duration;

/// Parses a duration given as a number of milliseconds. Exactly the strings
/// that denote an unsigned 64-bit number are accepted.
pub fn parse_duration(s: &str) -> (r: Result<core::time::Duration, &'static str>)
    ensures
        (r is Ok) == (spec_parse_u64(s@) is Some),
        r matches Err(e) ==> e@ == "failed to parse as positive integer"@,
{
    match parse_u64(s) {
        Some(ms) => Ok(core::time::Duration::from_millis(ms)),
        None => Err("failed to parse as positive integer"),
    }
}

/// The URI path of a mount given on the command line: a leading `/` is
/// added when missing, then one trailing `/` is removed (except on `/`).
pub open spec fn spec_mount_uri(s: Seq<char>) -> Seq<char> {
    let t = if s.len() == 0 || s[0] != '/' {
        seq!['/'] + s
    } else {
        s
    };
    if t.len() > 1 && t[t.len() - 1] == '/' {
        t.drop_last()
    } else {
        t
    }
}

/// Parses a `<uri>:<path>` mount argument: the part before the first colon
/// is the (normalized) URI path, the part after it the file-system path.
pub fn parse_mount(s: &str) -> (r: Result<Mount, &'static str>)
    ensures
        ({
            let v = s@;
            let colon = crate::strutil::spec_find(v, ':');
            match r {
                Ok(m) => colon < v.len() && m.uri_path@ == spec_mount_uri(v.take(colon))
                    && m.fs_path@ == v.skip(colon + 1),
                Err(e) => colon == v.len() && e@ == "does not contain a colon"@,
            }
        }),
{
    let v = str_chars(s);
    let colon = crate::strutil::find_char(&v, ':');
    if colon == v.len() {
        return Err("does not contain a colon");
    }
    let fs = chars_subrange(&v, colon + 1, v.len());
    proof {
        assert(fs@ =~= v@.skip(colon + 1));
    }
    let mut uri = chars_subrange(&v, 0, colon);
    proof {
        assert(uri@ =~= v@.take(colon as int));
    }
    if uri.len() == 0 || uri[0] != '/' {
        uri.insert(0, '/');
    }
    let ghost t = uri@;
    if uri.len() > 1 && uri[uri.len() - 1] == '/' {
        uri.pop();
        proof {
            assert(uri@ =~= t.drop_last());
        }
    }
    proof {
        assert(uri@ =~= spec_mount_uri(v@.take(colon as int)));
    }
    Ok(Mount { uri_path: chars_to_string(&uri), fs_path: chars_to_string(&fs) })
}

} // verus!
