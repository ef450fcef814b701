use penguin::Builder;
use penguin::Config;
use penguin::inject;

fn config() -> Config {
    Builder::new("127.0.0.1:4090".to_string())
        .add_mount("/".to_string(), "./static".to_string())
        .unwrap()
        .validate()
        .unwrap()
}

const TAG: &str = "<script src=\"/~~penguin/client.js\" defer></script>";

#[test]
fn injects_before_last_body_close() {
    let input = b"<html><body>hi</body></html>".to_vec();
    let out = inject::into(&input, &config());
    let expected = format!("<html><body>hi{}</body></html>", TAG);
    assert_eq!(out, expected.as_bytes());
}

#[test]
fn injects_before_last_of_several_body_closes() {
    let input = b"<body>a</body><body>b</body>!".to_vec();
    let out = inject::into(&input, &config());
    let expected = format!("<body>a</body><body>b{}</body>!", TAG);
    assert_eq!(out, expected.as_bytes());
}

#[test]
fn ignores_commented_body_close() {
    let input = b"<body>x</body><!-- </body> -->".to_vec();
    let out = inject::into(&input, &config());
    let expected = format!("<body>x{}</body><!-- </body> -->", TAG);
    assert_eq!(out, expected.as_bytes());
}

#[test]
fn comment_close_reenables_matching() {
    let input = b"<body>x</body><!-- c --></body>".to_vec();
    let out = inject::into(&input, &config());
    let expected = format!("<body>x</body><!-- c -->{}</body>", TAG);
    assert_eq!(out, expected.as_bytes());
}

#[test]
fn appends_when_no_body_close() {
    let input = b"just some text".to_vec();
    let out = inject::into(&input, &config());
    let expected = format!("just some text{}", TAG);
    assert_eq!(out, expected.as_bytes());
}

#[test]
fn tag_uses_custom_control_path() {
    let config = Builder::new("127.0.0.1:4090".to_string())
        .add_mount("/".to_string(), "./static".to_string())
        .unwrap()
        .set_control_path("/custom".to_string())
        .validate()
        .unwrap();
    let input = b"<body></body>".to_vec();
    let out = inject::into(&input, &config);
    let expected = "<body><script src=\"/custom/client.js\" defer></script></body>";
    assert_eq!(out, expected.as_bytes());
}

#[test]
fn client_script_substitutes_control_path() {
    let js = inject::script(&config());
    assert!(js.contains("var controlPath = \"/~~penguin\";"));
    assert!(!js.contains("{{ control_path }}"));
}
