use penguin::csp::rewrite_csp;

fn assert_rewritten(original: &str, expected_rewritten: &str) {
    let rewritten = rewrite_csp(original);
    if rewritten != expected_rewritten {
        panic!(
            "unexpected rewritten CSP header:\n\
                original: {}\n\
                expected: {}\n\
                actual:   {}\n",
            original, expected_rewritten, rewritten,
        );
    }
}

fn assert_not_rewritten(original: &str) {
    assert_rewritten(original, original);
}

#[test]
fn modify_csp() {
    assert_not_rewritten("default-src *");
    assert_not_rewritten("default-src 'self'");
    assert_not_rewritten("default-src 'self' https://google.com");
    assert_not_rewritten(
        "default-src 'none' https://google.com; \
            script-src 'self'; connect-src *",
    );

    assert_rewritten(
        "default-src 'none'",
        "connect-src 'self'; default-src 'none'; script-src 'self'; ",
    );
    assert_rewritten(
        "default-src 'none'; script-src http:",
        "connect-src 'self'; default-src 'none'; script-src http: 'self'; ",
    );
    assert_rewritten(
        "default-src 'self'; connect-src 'none'",
        "connect-src 'self'; default-src 'self'; ",
    );
    assert_rewritten(
        "default-src 'self'; script-src https:",
        "default-src 'self'; script-src https: 'self'; ",
    );
}

#[test]
fn modify_csp_lowercases_directive_names() {
    // `connect-src` is absent and `default-src` too, so connections are
    // already permitted; only `script-src` needs repair.
    assert_rewritten("SCRIPT-SRC 'none'", "script-src 'self'; ");
}

#[test]
fn modify_csp_accepts_tab_separated_sources() {
    assert_not_rewritten("default-src\t'self'");
}

#[test]
fn modify_csp_duplicate_directive_first_wins() {
    // The duplicate `script-src` is ignored; the first one already permits
    // 'self', but `connect-src` falls back to `default-src 'none'`.
    assert_rewritten(
        "script-src 'self'; script-src 'none'; default-src 'none'",
        "connect-src 'self'; default-src 'none'; script-src 'self'; ",
    );
}
