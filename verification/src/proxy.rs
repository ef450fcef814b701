//! Proxy backend logic: request adjustment (header filtering), response
//! adjustment (body sniffing, decompression, injection, re-encoding), header
//! rewriting, and the gateway-error page.

use std::io::Read;

use vstd::prelude::*;

use crate::config::Config;
use crate::inject;
use crate::strutil::bytes_eq;
use crate::strutil::chars_append;
use crate::strutil::chars_append_str;
use crate::strutil::chars_eq_str;
use crate::strutil::chars_subrange;
use crate::strutil::chars_to_string;
use crate::strutil::find_char;
use crate::strutil::spec_find;
use crate::strutil::spec_join;
use crate::strutil::spec_replace_all;
use crate::strutil::spec_split;
use crate::strutil::spec_trim;
use crate::strutil::split_char;
use crate::strutil::str_chars;
use crate::strutil::str_utf8_bytes;
use crate::strutil::trim_chars;
use crate::uri::parse_uri;
use crate::uri::spec_uri_authority;
use crate::uri::spec_uri_ok;
use crate::uri::spec_uri_path_query;
use vstd::string::StrSliceExecFns;
use vstd::string::StringExecFns;
use vstd::utf8::encode_utf8;

verus! {

/// Whether one (already trimmed) `Accept-Encoding` element is kept: its
/// encoding name, the part before any `;q=...` parameters, must be one of the
/// encodings the proxy can re-encode (`gzip`, `br`) or `identity`.
pub open spec fn spec_keep_token(t: Seq<char>) -> bool {
    let name = t.take(spec_find(t, ';'));
    name == "gzip"@ || name == "br"@ || name == "identity"@
}

/// The value of a filtered `Accept-Encoding` header: the comma-separated
/// elements are trimmed, those with unsupported encoding names are dropped,
/// and the kept ones (with their parameters) are joined with `", "`.
pub open spec fn spec_filter_encodings(s: Seq<char>) -> Seq<char> {
    spec_join(
        spec_split(s, ',').map_values(|p: Seq<char>| spec_trim(p)).filter(
            |t: Seq<char>| spec_keep_token(t),
        ),
        ", "@,
    )
}

/// Filters an `Accept-Encoding` header value down to the encodings the proxy
/// supports, preserving order and quality parameters of the kept entries.
pub fn filter_encodings(orig: &str) -> (r: String)
    ensures
        r@ == spec_filter_encodings(orig@),
{
    let chars = str_chars(orig);
    let parts = split_char(&chars, ',');
    let ghost partsv = parts.deep_view();
    let ghost keepf = |t: Seq<char>| spec_keep_token(t);

    let n = parts.len();
    let mut out: Vec<char> = Vec::new();
    let mut any: bool = false;
    let mut i: usize = 0;
    proof {
        reveal(Seq::filter);
        assert(partsv.take(0) =~= Seq::<Seq<char>>::empty());
        assert(partsv.take(0).map_values(|p: Seq<char>| spec_trim(p)) =~= Seq::<
            Seq<char>,
        >::empty());
    }
    while i < n
        invariant
            0 <= i <= n,
            n == partsv.len(),
            partsv == parts.deep_view(),
            n == parts@.len(),
            out@ == spec_join(
                partsv.take(i as int).map_values(|p: Seq<char>| spec_trim(p)).filter(keepf),
                ", "@,
            ),
            any == (partsv.take(i as int).map_values(|p: Seq<char>| spec_trim(p)).filter(
                keepf,
            ).len() > 0),
        decreases n - i,
    {
        let ghost kept = partsv.take(i as int).map_values(|p: Seq<char>| spec_trim(p)).filter(
            keepf,
        );
        proof {
            assert(partsv[i as int] =~= parts@[i as int]@);
        }
        let t = trim_chars(&parts[i]);
        let pos = find_char(&t, ';');
        let name = chars_subrange(&t, 0, pos);
        let keep = chars_eq_str(&name, "gzip") || chars_eq_str(&name, "br") || chars_eq_str(
            &name,
            "identity",
        );
        proof {
            reveal(Seq::filter);
            assert(name@ == t@.take(spec_find(t@, ';')));
            assert(keep == spec_keep_token(t@));
            let m = partsv.take(i + 1).map_values(|p: Seq<char>| spec_trim(p));
            assert(m.drop_last() =~= partsv.take(i as int).map_values(
                |p: Seq<char>| spec_trim(p),
            ));
            assert(m.last() == spec_trim(partsv[i as int]));
            assert(m.last() == t@);
            if keep {
                assert(m.filter(keepf) == m.drop_last().filter(keepf).push(t@));
            } else {
                assert(m.filter(keepf) == m.drop_last().filter(keepf));
            }
        }
        if keep {
            if any {
                chars_append_str(&mut out, ", ");
            }
            chars_append(&mut out, &t);
            proof {
                if kept.len() == 0 {
                    assert(spec_join(kept.push(t@), ", "@) == t@);
                    assert(out@ =~= t@);
                } else {
                    assert(kept.push(t@).drop_last() =~= kept);
                    assert(spec_join(kept.push(t@), ", "@) == spec_join(kept, ", "@) + ", "@
                        + t@);
                }
            }
            any = true;
        }
        i = i + 1;
    }
    proof {
        assert(partsv.take(n as int) =~= partsv);
    }
    chars_to_string(&out)
}

/// What gzip-decoding a byte sequence yields: the decoded bytes, or nothing
/// when the sequence is not a valid gzip stream. Decoding is a function of
/// the bytes alone.
pub uninterp spec fn spec_gunzip(c: Seq<u8>) -> Option<Seq<u8>>;

/// What brotli-decoding a byte sequence yields, in the same sense.
pub uninterp spec fn spec_unbrotli(c: Seq<u8>) -> Option<Seq<u8>>;

/// Relies on flate2's `GzEncoder`: it produces a gzip stream that decodes
/// back to exactly the input (gzip is lossless), and compressing bytes held
/// in memory does not fail.
#[verifier::external_body]
fn gzip_compress(b: &Vec<u8>) -> (r: Vec<u8>)
    ensures
        spec_gunzip(r@) == Option::Some(b@),
{
    let mut out = Vec::new();
    flate2::read::GzEncoder::new(&b[..], flate2::Compression::best())
        .read_to_end(&mut out)
        .expect("unexpected error while compressing in memory");
    out
}

/// Relies on flate2's `GzDecoder`: decoding depends on the compressed bytes
/// alone, and fails exactly on streams that do not decode.
#[verifier::external_body]
fn gzip_decompress(c: &Vec<u8>) -> (r: Option<Vec<u8>>)
    ensures
        match r {
            Some(d) => spec_gunzip(c@) == Option::Some(d@),
            None => spec_gunzip(c@) is None,
        },
{
    let mut out = Vec::new();
    match flate2::read::GzDecoder::new(&c[..]).read_to_end(&mut out) {
        Ok(_) => Some(out),
        Err(_) => None,
    }
}

/// Relies on brotli's `BrotliCompress` with default parameters: it produces
/// a brotli stream that decodes back to exactly the input, and compressing
/// bytes held in memory does not fail.
#[verifier::external_body]
fn brotli_compress(b: &Vec<u8>) -> (r: Vec<u8>)
    ensures
        spec_unbrotli(r@) == Option::Some(b@),
{
    let mut out = Vec::new();
    let params = brotli::enc::BrotliEncoderParams::default();
    brotli::BrotliCompress(&mut &b[..], &mut out, &params)
        .expect("unexpected error while compressing in memory");
    out
}

/// Relies on brotli's `BrotliDecompress`: decoding depends on the compressed
/// bytes alone, and fails exactly on streams that do not decode.
#[verifier::external_body]
fn brotli_decompress(c: &Vec<u8>) -> (r: Option<Vec<u8>>)
    ensures
        match r {
            Some(d) => spec_unbrotli(c@) == Option::Some(d@),
            None => spec_unbrotli(c@) is None,
        },
{
    let mut out = Vec::new();
    match brotli::BrotliDecompress(&mut &c[..], &mut out) {
        Ok(()) => Some(out),
        Err(_) => None,
    }
}

/// The `Content-Encoding` of a proxied response, as far as the injection
/// pipeline distinguishes it.
pub enum ContentEncoding {
    /// No `Content-Encoding` header: the body is plain.
    Plain,
    /// `gzip`.
    Gzip,
    /// `br`.
    Br,
    /// Any other value: the body is left alone.
    Other,
}

/// Classifies a `Content-Encoding` header value.
pub fn parse_content_encoding(header: &Option<Vec<u8>>) -> (r: ContentEncoding)
    ensures
        match r {
            ContentEncoding::Plain => header is None,
            ContentEncoding::Gzip => header matches Some(h) && h@ == encode_utf8("gzip"@),
            ContentEncoding::Br => header matches Some(h) && h@ == encode_utf8("br"@),
            ContentEncoding::Other => header matches Some(h) && h@ != encode_utf8("gzip"@) && h@
                != encode_utf8("br"@),
        },
{
    match header {
        None => ContentEncoding::Plain,
        Some(h) => {
            let gz = str_utf8_bytes("gzip");
            let br = str_utf8_bytes("br");
            if bytes_eq(h, &gz) {
                ContentEncoding::Gzip
            } else if bytes_eq(h, &br) {
                ContentEncoding::Br
            } else {
                ContentEncoding::Other
            }
        }
    }
}

/// The result of transforming a proxied HTML body.
pub enum BodyTransform {
    /// The body was (decoded,) injected (and re-encoded).
    Done(Vec<u8>),
    /// The content encoding is unsupported: the body is unchanged.
    Unknown(Vec<u8>),
    /// The declared encoding did not decode.
    DecodeFailed,
}

/// Injects the client script into a fully buffered HTML body: a plain body
/// is injected directly; a gzip or brotli body is decoded, injected, and
/// re-encoded with the same encoding, so that decoding the output yields
/// exactly the injected original; an unknown encoding leaves the body
/// untouched; a body that does not decode is reported as failed.
pub fn transform_html_body(body: Vec<u8>, encoding: &ContentEncoding, config: &Config) -> (r:
    BodyTransform)
    ensures
        ({
            let tag = inject::spec_script_tag(config.control_path@);
            match encoding {
                ContentEncoding::Plain => (r matches BodyTransform::Done(b) && b@
                    == inject::spec_inject(body@, tag)),
                ContentEncoding::Gzip => match spec_gunzip(body@) {
                    Option::Some(d) => (r matches BodyTransform::Done(c) && spec_gunzip(c@)
                        == Option::Some(inject::spec_inject(d, tag))),
                    Option::None => r is DecodeFailed,
                },
                ContentEncoding::Br => match spec_unbrotli(body@) {
                    Option::Some(d) => (r matches BodyTransform::Done(c) && spec_unbrotli(c@)
                        == Option::Some(inject::spec_inject(d, tag))),
                    Option::None => r is DecodeFailed,
                },
                ContentEncoding::Other => (r matches BodyTransform::Unknown(b) && b@ == body@),
            }
        }),
{
    match encoding {
        ContentEncoding::Plain => BodyTransform::Done(inject::into(&body, config)),
        ContentEncoding::Gzip => match gzip_decompress(&body) {
            Some(d) => {
                let injected = inject::into(&d, config);
                BodyTransform::Done(gzip_compress(&injected))
            }
            None => BodyTransform::DecodeFailed,
        },
        ContentEncoding::Br => match brotli_decompress(&body) {
            Some(d) => {
                let injected = inject::into(&d, config);
                BodyTransform::Done(brotli_compress(&injected))
            }
            None => BodyTransform::DecodeFailed,
        },
        ContentEncoding::Other => BodyTransform::Unknown(body),
    }
}

/// What `infer`'s HTML matcher says of a buffer: a pure function of the
/// bytes.
pub uninterp spec fn spec_infer_html(b: Seq<u8>) -> bool;

/// Relies on `infer::text::is_html`: the matcher inspects the buffer alone.
#[verifier::external_body]
fn infer_is_html(b: &Vec<u8>) -> (r: bool)
    ensures
        r == spec_infer_html(b@),
{
    infer::text::is_html(b.as_slice())
}

/// Whether a sniffed body prefix is taken for HTML: it holds no zero byte
/// and the HTML matcher accepts it.
pub open spec fn spec_sniffs_html(b: Seq<u8>) -> bool {
    (forall|i: int| 0 <= i < b.len() ==> b[i] != 0) && spec_infer_html(b)
}

/// Tests whether a body prefix is taken for HTML.
pub fn looks_like_html(body_start: &Vec<u8>) -> (r: bool)
    ensures
        r == spec_sniffs_html(body_start@),
{
    let n = body_start.len();
    let mut i: usize = 0;
    while i < n
        invariant
            0 <= i <= n,
            forall|j: int| 0 <= j < i ==> body_start@[j] != 0,
        decreases n - i,
    {
        if body_start[i] == 0 {
            return false;
        }
        i = i + 1;
    }
    infer_is_html(body_start)
}

/// Whether a `Content-Type` header value declares HTML.
pub open spec fn spec_ct_is_html(ct: Seq<u8>) -> bool {
    ||| crate::strutil::spec_bytes_at(ct, 0, encode_utf8("text/html"@))
    ||| crate::strutil::spec_bytes_at(ct, 0, encode_utf8("application/xhtml+xml"@))
}

/// How the proxied response body is classified.
pub struct SniffDecision {
    /// Inject the script (after decoding) and re-encode.
    pub treat_as_html: bool,
    /// Log once: the body looks like HTML but no `Content-Type` was sent.
    pub warn_missing_ct: bool,
    /// Log once: the body looks like HTML but the `Content-Type` disagrees.
    pub warn_mismatch: bool,
}

/// Classifies a proxied response: a declared `Content-Type` decides; without
/// one, a body prefix that looks like HTML is treated as HTML (with a
/// warning); a body that looks like HTML against its declared type is left
/// alone (with a warning).
pub fn sniff_decision(content_type: &Option<Vec<u8>>, body_start: &Vec<u8>) -> (r: SniffDecision)
    ensures
        r.treat_as_html == match content_type {
            Some(c) => spec_ct_is_html(c@),
            None => spec_sniffs_html(body_start@),
        },
        r.warn_missing_ct == (content_type is None && spec_sniffs_html(body_start@)),
        r.warn_mismatch == (content_type matches Some(c) && !spec_ct_is_html(c@)
            && spec_sniffs_html(body_start@)),
{
    let looks = looks_like_html(body_start);
    match content_type {
        None => SniffDecision {
            treat_as_html: looks,
            warn_missing_ct: looks,
            warn_mismatch: false,
        },
        Some(c) => {
            let html_pat = str_utf8_bytes("text/html");
            let xhtml_pat = str_utf8_bytes("application/xhtml+xml");
            let ct_html = crate::strutil::bytes_match_at(c, 0, &html_pat)
                || crate::strutil::bytes_match_at(c, 0, &xhtml_pat);
            SniffDecision {
                treat_as_html: ct_html,
                warn_missing_ct: false,
                warn_mismatch: !ct_html && looks,
            }
        }
    }
}

/// Filters an `Accept-Encoding` request header for forwarding: only the
/// encodings the proxy can re-encode stay; an empty remainder means the
/// header is removed.
pub fn adjust_accept_encoding(value: &str) -> (r: Option<String>)
    ensures
        match r {
            Some(s) => s@ == spec_filter_encodings(value@) && s@.len() > 0,
            None => spec_filter_encodings(value@).len() == 0,
        },
{
    let s = filter_encodings(value);
    if s.as_str().unicode_len() == 0 {
        None
    } else {
        Some(s)
    }
}

/// The value the `Host` request header is rewritten to: the proxy target's
/// authority.
pub fn host_header_value(target: &crate::config::ProxyTarget) -> (r: String)
    ensures
        r@ == target.authority@,
{
    target.authority.clone()
}

/// The path-and-query of a parsed URI, or the empty text.
pub open spec fn spec_pq_or_empty(o: Option<Seq<char>>) -> Seq<char> {
    match o {
        Option::Some(p) => p,
        Option::None => Seq::empty(),
    }
}

/// Whether a `Location` header points at the proxy target itself: it parses
/// as a URI whose authority equals the target's, ASCII-case-insensitively.
pub open spec fn spec_location_is_internal(value: Seq<char>, authority: Seq<char>) -> bool {
    spec_uri_ok(value) && (spec_uri_authority(value) matches Option::Some(a)
        && crate::csp::spec_lower(a) == crate::csp::spec_lower(authority))
}

/// Rewrites a `Location` header that points at the proxy target: the
/// redirect is kept on this server by replacing scheme and authority with
/// plain HTTP on the bind address. Any other (or unparseable) location is
/// left alone.
pub fn rewrite_location(
    value: &str,
    target: &crate::config::ProxyTarget,
    bind_addr: &str,
) -> (r: Option<String>)
    ensures
        match r {
            Some(out) => spec_location_is_internal(value@, target.authority@) && out@ == "http://"@
                + bind_addr@ + spec_pq_or_empty(spec_uri_path_query(value@)),
            None => !spec_location_is_internal(value@, target.authority@),
        },
{
    let parts = match parse_uri(value) {
        Some(p) => p,
        None => {
            return None;
        }
    };
    let a = match &parts.authority {
        Some(a) => a,
        None => {
            return None;
        }
    };
    let av = str_chars(a.as_str());
    let tv = str_chars(target.authority.as_str());
    let al = crate::csp::lower_chars(&av);
    let tl = crate::csp::lower_chars(&tv);
    if !crate::strutil::chars_eq(&al, &tl) {
        return None;
    }
    let mut v = str_chars("http://");
    chars_append_str(&mut v, bind_addr);
    match &parts.path_and_query {
        Some(pq) => {
            chars_append_str(&mut v, pq.as_str());
        }
        None => {}
    }
    Some(chars_to_string(&v))
}

/// The gateway-error page, rendered when the proxy target cannot be
/// reached. It carries the error text and loads the client script, so the
/// page reloads itself once the target recovers.
pub const PROXY_ERROR_HTML: &'static str = r#"<!DOCTYPE html>
<html>
  <head>
    <meta charset="utf-8">
    <title>Cannot reach proxy target</title>
    <style>
      body { font-family: sans-serif; background: #222; color: #eee; margin: 0; }
      main { max-width: 720px; margin: 64px auto; padding: 0 16px; }
      pre { background: #333; color: #ccc; padding: 16px; overflow: auto; }
    </style>
  </head>
  <body>
    <main>
      <h1>Cannot reach the proxy target</h1>
      <p>This page reloads automatically as soon as the target is reachable again.</p>
      <pre>{{ error }}</pre>
    </main>
    <script src="{{ control_path }}/client.js" defer></script>
  </body>
</html>
"#;

/// The gateway-error response: `504 Gateway Timeout` when the failure was a
/// timeout, `502 Bad Gateway` otherwise, with the error page as HTML body.
pub fn gateway_error_response(msg: &str, is_timeout: bool, config: &Config) -> (r:
    crate::routing::HttpResponse)
    ensures
        r.status == (if is_timeout {
            504u16
        } else {
            502u16
        }),
        r.body@ == encode_utf8(
            spec_replace_all(
                spec_replace_all(PROXY_ERROR_HTML@, "{{ error }}"@, msg@),
                "{{ control_path }}"@,
                config.control_path@,
            ),
        ),
        crate::routing::spec_headers(r.headers@) =~= seq![
            ("Server"@, crate::routing::SERVER_HEADER@),
            ("Content-Type"@, "text/html"@),
        ],
{
    let tpl = str_chars(PROXY_ERROR_HTML);
    let pat1 = str_chars("{{ error }}");
    let repl1 = str_chars(msg);
    let step1 = crate::strutil::replace_all(&tpl, &pat1, &repl1);
    let pat2 = str_chars("{{ control_path }}");
    let repl2 = str_chars(config.control_path.as_str());
    let step2 = crate::strutil::replace_all(&step1, &pat2, &repl2);
    let html = chars_to_string(&step2);

    let status: u16 = if is_timeout {
        504
    } else {
        502
    };
    let mut headers: Vec<(String, String)> = Vec::new();
    headers.push((String::from_str("Server"), String::from_str(crate::routing::SERVER_HEADER)));
    headers.push((String::from_str("Content-Type"), String::from_str("text/html")));
    proof {
        assert(crate::routing::spec_headers(headers@) =~= seq![
            ("Server"@, crate::routing::SERVER_HEADER@),
            ("Content-Type"@, "text/html"@),
        ]);
    }
    crate::routing::HttpResponse { status, headers, body: str_utf8_bytes(html.as_str()) }
}

/// The delay before the first probe of an unreachable proxy target.
pub const POLL_START_MS: u64 = 250;

/// The upper bound on the probing delay.
pub const POLL_MAX_MS: u64 = 3000;

/// The next probing delay: half again as long, capped.
pub open spec fn spec_next_delay(ms: int) -> int {
    if ms * 3 / 2 > 3000 {
        3000
    } else {
        ms * 3 / 2
    }
}

/// Computes the next probing delay from the current one.
pub fn next_poll_delay(ms: u64) -> (r: u64)
    requires
        ms <= 3000,
    ensures
        r as int == spec_next_delay(ms as int),
        r <= 3000,
{
    let grown = ms * 3 / 2;
    if grown > 3000 {
        3000
    } else {
        grown
    }
}

/// What the re-availability poller does after one probe of the target.
pub enum PollerStep {
    /// The target is still down: wait for the grown delay and probe again.
    Retry { next_delay_ms: u64 },
    /// The target answered: publish one reload, clear the guard, and stop.
    PublishReloadAndStop,
}

/// Decides one iteration of the re-availability poller: the first successful
/// probe publishes a reload and ends the poller; a failed probe retries with
/// the delay grown half again, capped.
pub fn poller_step(probe_ok: bool, delay_ms: u64) -> (r: PollerStep)
    requires
        delay_ms <= 3000,
    ensures
        probe_ok ==> r is PublishReloadAndStop,
        !probe_ok ==> (r matches PollerStep::Retry { next_delay_ms } && next_delay_ms as int
            == spec_next_delay(delay_ms as int) && next_delay_ms <= 3000),
{
    if probe_ok {
        PollerStep::PublishReloadAndStop
    } else {
        PollerStep::Retry { next_delay_ms: next_poll_delay(delay_ms) }
    }
}

/// Per-server proxy state: the flag that guards the re-availability poller.
/// The flag is claimed with an atomic compare-and-swap before a poller task
/// is spawned and cleared when the poller exits, so at most one poller runs
/// per server at any time (see [`lemma_single_poller`]).
pub struct ProxyContext {
    is_polling_target: std::sync::atomic::AtomicBool,
}

impl ProxyContext {
    /// Creates the per-server proxy state with no poller running.
    pub fn new() -> ProxyContext {
        ProxyContext { is_polling_target: std::sync::atomic::AtomicBool::new(false) }
    }

    /// Claims the poller slot: succeeds exactly when no poller holds it,
    /// atomically (a sequentially consistent compare-and-swap of the flag
    /// from false to true).
    pub fn try_start_polling(&self) -> bool {
        self.is_polling_target.compare_exchange(
            false,
            true,
            std::sync::atomic::Ordering::SeqCst,
            std::sync::atomic::Ordering::SeqCst,
        ).is_ok()
    }

    /// Releases the poller slot when the poller exits.
    pub fn done_polling(&self) {
        self.is_polling_target.store(false, std::sync::atomic::Ordering::SeqCst);
    }
}

/// The abstract state of the poller guard: the flag value together with the
/// number of live poller tasks.
pub struct PollerModel {
    pub flag: bool,
    pub active: nat,
}

/// The guard invariant: the flag is set exactly while a poller lives, and
/// never more than one does.
pub open spec fn spec_poller_inv(m: PollerModel) -> bool {
    &&& (m.flag <==> m.active >= 1)
    &&& m.active <= 1
}

/// The effect of `try_start_polling` followed (on success) by spawning the
/// poller: the compare-and-swap succeeds exactly on a clear flag.
pub open spec fn spec_poller_try_start(m: PollerModel) -> (PollerModel, bool) {
    if !m.flag {
        (PollerModel { flag: true, active: m.active + 1 }, true)
    } else {
        (m, false)
    }
}

/// The effect of a poller clearing the flag and exiting.
pub open spec fn spec_poller_finish(m: PollerModel) -> PollerModel {
    PollerModel { flag: false, active: (m.active - 1) as nat }
}

/// At most one re-availability poller is ever active: the guard invariant
/// holds initially, is preserved by every claim and every exit, and bounds
/// the number of live pollers by one; a claim succeeds only when no poller
/// lives.
pub proof fn lemma_single_poller(m: PollerModel)
    requires
        spec_poller_inv(m),
    ensures
        m.active <= 1,
        spec_poller_try_start(m).1 ==> m.active == 0,
        spec_poller_inv(spec_poller_try_start(m).0),
        m.active >= 1 ==> spec_poller_inv(spec_poller_finish(m)),
        spec_poller_inv(PollerModel { flag: false, active: 0 }),
{
}

} // verus!
