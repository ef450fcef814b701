use penguin::Builder;
use penguin::Config;
use penguin::fileserver;
use penguin::fileserver::DirEntry;
use penguin::fileserver::FileServeOutcome;
use penguin::fileserver::FsView;
use penguin::fileserver::MountFsInfo;
use penguin::fileserver::ServePlan;

fn config() -> Config {
    Builder::new("127.0.0.1:4090".to_string())
        .add_mount("/".to_string(), "./root".to_string())
        .unwrap()
        .validate()
        .unwrap()
}

#[test]
fn path_prefix_is_component_aware() {
    assert!(fileserver::is_path_prefix("/srv/www", "/srv/www"));
    assert!(fileserver::is_path_prefix("/srv/www", "/srv/www/index.html"));
    assert!(!fileserver::is_path_prefix("/srv/www", "/srv/www-other/x"));
    assert!(fileserver::is_path_prefix("/", "/etc/passwd"));
    assert!(!fileserver::is_path_prefix("/srv", "/etc/passwd"));
}

#[test]
fn traversal_attempt_is_rejected() {
    let fs = FsView {
        canonical_req: Some("/etc/passwd".to_string()),
        canonical_root: Some("/srv/root".to_string()),
        exists: true,
        is_file: true,
        index_is_file: false,
    };
    assert!(matches!(fileserver::serve_plan(&fs), ServePlan::Traversal));

    let resp = fileserver::traversal_response();
    assert_eq!(resp.status, 400);
    assert_eq!(
        resp.body,
        b"Bad request: requested file outside of served directory\n"
    );
}

#[test]
fn serve_plan_dispatch() {
    let base = FsView {
        canonical_req: Some("/srv/root/x".to_string()),
        canonical_root: Some("/srv/root".to_string()),
        exists: true,
        is_file: true,
        index_is_file: false,
    };
    assert!(matches!(fileserver::serve_plan(&base), ServePlan::File));

    let dir_with_index = FsView { is_file: false, index_is_file: true, ..clone_fs(&base) };
    assert!(matches!(fileserver::serve_plan(&dir_with_index), ServePlan::IndexFile));

    let dir_plain = FsView { is_file: false, ..clone_fs(&base) };
    assert!(matches!(fileserver::serve_plan(&dir_plain), ServePlan::ListDir));

    let missing = FsView { canonical_req: None, ..clone_fs(&base) };
    assert!(matches!(fileserver::serve_plan(&missing), ServePlan::NotFound));

    let gone = FsView { exists: false, ..clone_fs(&base) };
    assert!(matches!(fileserver::serve_plan(&gone), ServePlan::NotFound));
}

fn clone_fs(fs: &FsView) -> FsView {
    FsView {
        canonical_req: fs.canonical_req.clone(),
        canonical_root: fs.canonical_root.clone(),
        exists: fs.exists,
        is_file: fs.is_file,
        index_is_file: fs.index_is_file,
    }
}

#[test]
fn html_files_are_injected() {
    match fileserver::file_response("site/index.html", 123, &None) {
        FileServeOutcome::ReadWholeAndInject => {}
        _ => panic!("expected the HTML path"),
    }

    let raw = b"<html><body>hi</body></html>".to_vec();
    let resp = fileserver::html_file_response(&raw, &config());
    assert_eq!(resp.status, 200);
    let expected =
        "<html><body>hi<script src=\"/~~penguin/client.js\" defer></script></body></html>";
    assert_eq!(resp.body, expected.as_bytes());
    let len = expected.len().to_string();
    assert!(resp.headers.contains(&("Content-Length".to_string(), len)));
    assert!(resp.headers.contains(&("Content-Type".to_string(), "text/html".to_string())));
}

#[test]
fn plain_files_stream_whole() {
    match fileserver::file_response("data.txt", 100, &None) {
        FileServeOutcome::StreamWhole { headers } => {
            assert!(headers.contains(&("Content-Length".to_string(), "100".to_string())));
            assert!(headers.contains(&("Accept-Ranges".to_string(), "bytes".to_string())));
            assert!(headers.contains(&("Content-Type".to_string(), "text/plain".to_string())));
        }
        _ => panic!("expected whole-file streaming"),
    }
}

#[test]
fn single_range_is_served_partially() {
    let header = Some(b"bytes=0-49".to_vec());
    match fileserver::file_response("data.bin", 100, &header) {
        FileServeOutcome::StreamRange { start, length, headers } => {
            assert_eq!(start, 0);
            assert_eq!(length, 50);
            assert!(headers.contains(&("Content-Length".to_string(), "50".to_string())));
            assert!(headers.contains(
                &("Content-Range".to_string(), "bytes 0-50/100".to_string())
            ));
        }
        _ => panic!("expected a partial response"),
    }
}

#[test]
fn suffix_range_is_served_partially() {
    let header = Some(b"bytes=-20".to_vec());
    match fileserver::file_response("data.bin", 100, &header) {
        FileServeOutcome::StreamRange { start, length, .. } => {
            assert_eq!(start, 80);
            assert_eq!(length, 20);
        }
        _ => panic!("expected a partial response"),
    }
}

#[test]
fn multiple_ranges_are_rejected() {
    let header = Some(b"bytes=0-1,3-4".to_vec());
    match fileserver::file_response("data.bin", 100, &header) {
        FileServeOutcome::Reject(resp) => {
            assert_eq!(resp.status, 400);
            assert_eq!(resp.body, b"multiple ranges in 'Range' header not supported");
        }
        _ => panic!("expected a rejection"),
    }
}

#[test]
fn out_of_range_is_unsatisfiable() {
    let header = Some(b"bytes=200-300".to_vec());
    match fileserver::file_response("data.bin", 100, &header) {
        FileServeOutcome::Reject(resp) => {
            assert_eq!(resp.status, 416);
            assert!(resp.body.is_empty());
        }
        _ => panic!("expected a rejection"),
    }
}

#[test]
fn suffix_range_on_empty_file_serves_empty_partial() {
    // http_range clamps a suffix range on an empty file to zero bytes; the
    // result is an empty 206, as when streaming the range directly.
    let header = Some(b"bytes=-1".to_vec());
    match fileserver::file_response("data.bin", 0, &header) {
        FileServeOutcome::StreamRange { start, length, headers } => {
            assert_eq!(start, 0);
            assert_eq!(length, 0);
            assert!(headers.contains(&("Content-Length".to_string(), "0".to_string())));
            assert!(headers.contains(
                &("Content-Range".to_string(), "bytes 0-0/0".to_string())
            ));
        }
        _ => panic!("expected a degenerate partial response"),
    }
}

#[test]
fn start_range_on_empty_file_is_unsatisfiable() {
    // a start-based range never overlaps an empty file
    let header = Some(b"bytes=0-".to_vec());
    match fileserver::file_response("data.bin", 0, &header) {
        FileServeOutcome::Reject(resp) => {
            assert_eq!(resp.status, 416);
            assert!(resp.body.is_empty());
        }
        _ => panic!("expected a rejection"),
    }
}

#[test]
fn malformed_range_is_bad_request() {
    let header = Some(b"bytes=a-b".to_vec());
    match fileserver::file_response("data.bin", 100, &header) {
        FileServeOutcome::Reject(resp) => {
            assert_eq!(resp.status, 400);
        }
        _ => panic!("expected a rejection"),
    }
}

#[test]
fn dir_listing_sorts_folders_before_files() {
    let config = Builder::new("127.0.0.1:4090".to_string())
        .add_mount("/".to_string(), "./root".to_string())
        .unwrap()
        .add_mount("/zmount".to_string(), "./elsewhere".to_string())
        .unwrap()
        .validate()
        .unwrap();
    let entries = vec![
        DirEntry { name: "b.txt".to_string(), is_file: true },
        DirEntry { name: "a".to_string(), is_file: false },
    ];
    let mount_fs = vec![
        MountFsInfo { exists: true, is_dir: true },
        MountFsInfo { exists: true, is_dir: true },
    ];
    let html = fileserver::dir_listing_html("/", &entries, &mount_fs, &config);

    let a = html.find("<li><a href=\"a/\" class=\"real\"><code>a/</code></a></li>").unwrap();
    let z = html
        .find("<li><a href=\"zmount/\" class=\"mount\"><code>zmount/</code></a></li>")
        .unwrap();
    let b = html.find("<li><a href=\"b.txt\" class=\"real\"><code>b.txt</code></a></li>").unwrap();
    // folders (sorted) come first, then files
    assert!(a < z && z < b);
    // templates are filled in
    assert!(html.contains("Index of <code>/</code>"));
    assert!(html.contains("/~~penguin/client.js"));
}

#[test]
fn dir_listing_skips_missing_mounts_and_self() {
    let config = Builder::new("127.0.0.1:4090".to_string())
        .add_mount("/".to_string(), "./root".to_string())
        .unwrap()
        .add_mount("/gone".to_string(), "./missing".to_string())
        .unwrap()
        .validate()
        .unwrap();
    let entries: Vec<DirEntry> = Vec::new();
    let mount_fs = vec![
        MountFsInfo { exists: true, is_dir: true },
        MountFsInfo { exists: false, is_dir: false },
    ];
    let html = fileserver::dir_listing_html("/", &entries, &mount_fs, &config);
    // the missing mount is not listed; the mount at the listed path itself is
    // not listed either
    assert!(!html.contains("gone"));
    assert!(!html.contains("class=\"mount\""));
}

#[test]
fn serve_index_html_at_root() {
    // a root mount, a request for `/`, and a directory holding `index.html`
    let config = config();
    match penguin::routing::route(&config, "/") {
        penguin::routing::Route::Files { mount, subpath } => {
            assert_eq!(mount, 0);
            assert_eq!(subpath, "");
        }
        _ => panic!("expected the file backend"),
    }

    let fs = FsView {
        canonical_req: Some("/srv/root".to_string()),
        canonical_root: Some("/srv/root".to_string()),
        exists: true,
        is_file: false,
        index_is_file: true,
    };
    assert!(matches!(fileserver::serve_plan(&fs), ServePlan::IndexFile));

    let raw = b"<html><body>hi</body></html>".to_vec();
    let resp = fileserver::html_file_response(&raw, &config);
    assert_eq!(resp.status, 200);
    let body = String::from_utf8(resp.body).unwrap();
    assert_eq!(
        body,
        "<html><body>hi<script src=\"/~~penguin/client.js\" defer></script></body></html>"
    );
    assert!(resp.headers.contains(&("Content-Type".to_string(), "text/html".to_string())));
}

#[test]
fn decimal_formatting() {
    assert_eq!(fileserver::u64_to_string(0), "0");
    assert_eq!(fileserver::u64_to_string(42), "42");
    assert_eq!(fileserver::u64_to_string(18446744073709551615), "18446744073709551615");
}
