use std::io::Read;

use penguin::Builder;
use penguin::Config;
use penguin::ProxyTarget;
use penguin::Scheme;
use penguin::proxy;
use penguin::proxy::BodyTransform;
use penguin::proxy::ContentEncoding;

fn config() -> Config {
    Builder::new("127.0.0.1:4090".to_string())
        .add_mount("/".to_string(), "./static".to_string())
        .unwrap()
        .validate()
        .unwrap()
}

fn injected(html: &[u8]) -> Vec<u8> {
    penguin::inject::into(&html.to_vec(), &config())
}

const HTML: &[u8] = b"<html><body>hello</body></html>";

#[test]
fn plain_body_is_injected() {
    let enc = proxy::parse_content_encoding(&None);
    match proxy::transform_html_body(HTML.to_vec(), &enc, &config()) {
        BodyTransform::Done(out) => assert_eq!(out, injected(HTML)),
        _ => panic!("expected a transformed body"),
    }
}

#[test]
fn gzip_body_round_trips_through_injection() {
    // compress the original page as an origin server would
    let mut compressed = Vec::new();
    flate2::read::GzEncoder::new(HTML, flate2::Compression::default())
        .read_to_end(&mut compressed)
        .unwrap();

    let enc = proxy::parse_content_encoding(&Some(b"gzip".to_vec()));
    assert!(matches!(enc, ContentEncoding::Gzip));
    let out = match proxy::transform_html_body(compressed, &enc, &config()) {
        BodyTransform::Done(out) => out,
        _ => panic!("expected a transformed body"),
    };

    // what the client decompresses is exactly the injected original
    let mut decompressed = Vec::new();
    flate2::read::GzDecoder::new(&out[..]).read_to_end(&mut decompressed).unwrap();
    assert_eq!(decompressed, injected(HTML));
}

#[test]
fn brotli_body_round_trips_through_injection() {
    let mut compressed = Vec::new();
    let params = brotli::enc::BrotliEncoderParams::default();
    brotli::BrotliCompress(&mut &HTML[..], &mut compressed, &params).unwrap();

    let enc = proxy::parse_content_encoding(&Some(b"br".to_vec()));
    let out = match proxy::transform_html_body(compressed, &enc, &config()) {
        BodyTransform::Done(out) => out,
        _ => panic!("expected a transformed body"),
    };

    let mut decompressed = Vec::new();
    brotli::BrotliDecompress(&mut &out[..], &mut decompressed).unwrap();
    assert_eq!(decompressed, injected(HTML));
}

#[test]
fn unknown_encoding_is_left_alone() {
    let enc = proxy::parse_content_encoding(&Some(b"zstd".to_vec()));
    match proxy::transform_html_body(HTML.to_vec(), &enc, &config()) {
        BodyTransform::Unknown(out) => assert_eq!(out, HTML),
        _ => panic!("expected the body unchanged"),
    }
}

#[test]
fn broken_stream_fails_to_decode() {
    let enc = proxy::parse_content_encoding(&Some(b"gzip".to_vec()));
    match proxy::transform_html_body(b"not gzip at all".to_vec(), &enc, &config()) {
        BodyTransform::DecodeFailed => {}
        _ => panic!("expected a decode failure"),
    }
}

#[test]
fn sniffing_follows_content_type_first() {
    let html_start = b"<html><body>x".to_vec();
    let d = proxy::sniff_decision(&Some(b"text/html; charset=utf-8".to_vec()), &html_start);
    assert!(d.treat_as_html && !d.warn_missing_ct && !d.warn_mismatch);

    let d = proxy::sniff_decision(&Some(b"application/json".to_vec()), &html_start);
    assert!(!d.treat_as_html && !d.warn_missing_ct && d.warn_mismatch);

    let d = proxy::sniff_decision(&None, &html_start);
    assert!(d.treat_as_html && d.warn_missing_ct && !d.warn_mismatch);

    let d = proxy::sniff_decision(&None, &b"\x00binary".to_vec());
    assert!(!d.treat_as_html && !d.warn_missing_ct && !d.warn_mismatch);
}

#[test]
fn accept_encoding_is_filtered_or_dropped() {
    assert_eq!(proxy::adjust_accept_encoding("gzip, deflate").as_deref(), Some("gzip"));
    assert_eq!(proxy::adjust_accept_encoding("deflate"), None);
}

#[test]
fn internal_redirects_stay_on_this_host() {
    let target = ProxyTarget { scheme: Scheme::Http, authority: "upstream:8000".to_string() };
    let out = proxy::rewrite_location(
        "http://upstream:8000/login?next=%2F",
        &target,
        "127.0.0.1:4090",
    );
    assert_eq!(out.as_deref(), Some("http://127.0.0.1:4090/login?next=%2F"));

    // host comparison ignores ASCII case
    let out = proxy::rewrite_location("http://UPSTREAM:8000/x", &target, "127.0.0.1:4090");
    assert_eq!(out.as_deref(), Some("http://127.0.0.1:4090/x"));

    // redirects elsewhere are left alone
    let out = proxy::rewrite_location("https://example.com/x", &target, "127.0.0.1:4090");
    assert_eq!(out, None);
}

#[test]
fn gateway_error_page_reloads_itself() {
    let resp = proxy::gateway_error_response("Failed to reach http://upstream/", false, &config());
    assert_eq!(resp.status, 502);
    let body = String::from_utf8(resp.body).unwrap();
    assert!(body.contains("Failed to reach http://upstream/"));
    assert!(body.contains("<script src=\"/~~penguin/client.js\" defer></script>"));

    let resp = proxy::gateway_error_response("timed out", true, &config());
    assert_eq!(resp.status, 504);
}

#[test]
fn poll_delay_grows_to_its_cap() {
    assert_eq!(proxy::next_poll_delay(250), 375);
    assert_eq!(proxy::next_poll_delay(375), 562);
    assert_eq!(proxy::next_poll_delay(2000), 3000);
    assert_eq!(proxy::next_poll_delay(3000), 3000);
}

#[test]
fn poller_stops_on_first_success() {
    match proxy::poller_step(true, 250) {
        proxy::PollerStep::PublishReloadAndStop => {}
        _ => panic!("a successful probe must end the poller"),
    }
    match proxy::poller_step(false, 250) {
        proxy::PollerStep::Retry { next_delay_ms } => assert_eq!(next_delay_ms, 375),
        _ => panic!("a failed probe must retry"),
    }
    match proxy::poller_step(false, 3000) {
        proxy::PollerStep::Retry { next_delay_ms } => assert_eq!(next_delay_ms, 3000),
        _ => panic!("a failed probe must retry"),
    }
}

#[test]
fn poller_flag_admits_one_poller() {
    let ctx = proxy::ProxyContext::new();
    assert!(ctx.try_start_polling());
    assert!(!ctx.try_start_polling());
    ctx.done_polling();
    assert!(ctx.try_start_polling());
}

#[test]
fn host_header_is_rewritten_to_target() {
    let target = ProxyTarget { scheme: Scheme::Https, authority: "upstream:8443".to_string() };
    assert_eq!(proxy::host_header_value(&target), "upstream:8443");
}
