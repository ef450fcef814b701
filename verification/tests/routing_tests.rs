use penguin::Action;
use penguin::Builder;
use penguin::Config;
use penguin::ProxyTarget;
use penguin::Scheme;
use penguin::routing;
use penguin::routing::ControlPlan;
use penguin::routing::Route;
use penguin::ws;
use penguin::ws::WsCommand;
use penguin::ws::WsEvent;

fn two_mounts() -> Config {
    Builder::new("127.0.0.1:4090".to_string())
        .add_mount("/a".to_string(), "./A".to_string())
        .unwrap()
        .add_mount("/a/b".to_string(), "./B".to_string())
        .unwrap()
        .validate()
        .unwrap()
}

#[test]
fn most_specific_mount_wins() {
    let config = two_mounts();
    match routing::route(&config, "/a/b/x.txt") {
        Route::Files { mount, subpath } => {
            assert_eq!(config.mounts()[mount].fs_path, "./B");
            assert_eq!(subpath, "x.txt");
        }
        _ => panic!("expected a file route"),
    }
    match routing::route(&config, "/a/x.txt") {
        Route::Files { mount, subpath } => {
            assert_eq!(config.mounts()[mount].fs_path, "./A");
            assert_eq!(subpath, "x.txt");
        }
        _ => panic!("expected a file route"),
    }
}

#[test]
fn control_path_wins_over_mounts() {
    let config = two_mounts();
    assert!(matches!(routing::route(&config, "/~~penguin/reload"), Route::Control));
}

#[test]
fn unmatched_path_goes_to_proxy_or_404() {
    let with_proxy = Builder::new("127.0.0.1:4090".to_string())
        .proxy(ProxyTarget { scheme: Scheme::Http, authority: "localhost:8000".to_string() })
        .add_mount("/assets".to_string(), "./A".to_string())
        .unwrap()
        .validate()
        .unwrap();
    assert!(matches!(routing::route(&with_proxy, "/other"), Route::Proxy));

    let without_proxy = two_mounts();
    assert!(matches!(routing::route(&without_proxy, "/other"), Route::NotFound));
}

#[test]
fn mount_prefix_is_textual() {
    // `str::strip_prefix` semantics: the mount `/a` also matches `/ab`.
    let config = two_mounts();
    match routing::route(&config, "/ab") {
        Route::Files { mount, subpath } => {
            assert_eq!(config.mounts()[mount].uri_path, "/a");
            assert_eq!(subpath, "b");
        }
        _ => panic!("expected a file route"),
    }
}

#[test]
fn control_plan_cases() {
    assert!(matches!(routing::control_plan(true, "GET", "/anything"), ControlPlan::Upgrade));
    assert!(matches!(routing::control_plan(false, "POST", "/reload"), ControlPlan::Reload));
    assert!(matches!(
        routing::control_plan(false, "POST", "/message"),
        ControlPlan::NeedMessageBody
    ));
    assert!(matches!(routing::control_plan(false, "GET", "/client.js"), ControlPlan::ClientJs));
    assert!(matches!(routing::control_plan(false, "GET", "/reload"), ControlPlan::BadPath));
    assert!(matches!(routing::control_plan(false, "POST", "/other"), ControlPlan::BadPath));
}

#[test]
fn message_outcome_rejects_non_utf8() {
    match routing::message_outcome(None) {
        Err(resp) => {
            assert_eq!(resp.status, 400);
            assert_eq!(resp.body, b"Bad request: request body is not UTF8\n");
        }
        Ok(_) => panic!("expected a rejection"),
    }
    match routing::message_outcome(Some("hello".to_string())) {
        Ok(Action::Message(m)) => assert_eq!(m, "hello"),
        other => panic!("unexpected outcome: {:?}", other.is_ok()),
    }
}

#[test]
fn not_found_and_bad_request_responses() {
    let nf = routing::not_found();
    assert_eq!(nf.status, 404);
    assert_eq!(nf.body, b"Not found\n");
    assert_eq!(nf.headers, vec![("Server".to_string(), "Penguin v0.1.0".to_string())]);

    let br = routing::bad_request("nope\n");
    assert_eq!(br.status, 400);
    assert_eq!(br.body, b"nope\n");

    let ise = routing::internal_server_error("boom");
    assert_eq!(ise.status, 500);
    assert_eq!(
        ise.body,
        b"Internal server error: this is a bug in Penguin!\n\nboom\n"
    );
}

#[test]
fn client_js_is_served_with_control_path() {
    let config = two_mounts();
    let resp = routing::client_js_response(&config);
    assert_eq!(resp.status, 200);
    let body = String::from_utf8(resp.body).unwrap();
    assert!(body.contains("/~~penguin"));
}

#[test]
fn ws_actions_become_frames() {
    match ws::ws_step(WsEvent::Recv(Action::Reload)) {
        WsCommand::Send(f) => assert_eq!(f, "reload"),
        _ => panic!("expected a frame"),
    }
    match ws::ws_step(WsEvent::Recv(Action::Message("hi <b>there</b>".to_string()))) {
        WsCommand::Send(f) => assert_eq!(f, "message\nhi <b>there</b>"),
        _ => panic!("expected a frame"),
    }
}

#[test]
fn ws_lagged_session_stays_connected() {
    assert!(matches!(ws::ws_step(WsEvent::RecvLagged(1000)), WsCommand::Continue));
    assert!(matches!(ws::ws_step(WsEvent::PeerOther), WsCommand::Continue));
    assert!(matches!(ws::ws_step(WsEvent::PeerPing), WsCommand::Flush));
}

#[test]
fn ws_session_ends_on_close_and_errors() {
    assert!(matches!(ws::ws_step(WsEvent::RecvClosed), WsCommand::End));
    assert!(matches!(ws::ws_step(WsEvent::PeerNone), WsCommand::End));
    assert!(matches!(ws::ws_step(WsEvent::PeerClose), WsCommand::End));
    assert!(matches!(ws::ws_step(WsEvent::PeerReset), WsCommand::End));
    assert!(matches!(ws::ws_step(WsEvent::PeerError), WsCommand::End));
}
