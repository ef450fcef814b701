//! File backend: resolving a request below a mount, traversal protection,
//! and the response plans for files, HTML files, and byte ranges. The
//! filesystem itself is driven by the caller, which feeds the observed facts
//! into the decision functions here.

use vstd::prelude::*;
use vstd::string::StrSliceExecFns;
use vstd::string::StringExecFns;
use vstd::utf8::encode_utf8;

use crate::config::Config;
use crate::inject;
use crate::routing::HttpResponse;
use crate::routing::SERVER_HEADER;
use crate::routing::bad_request;
use crate::routing::spec_headers;
use crate::strutil::chars_append;
use crate::strutil::chars_append_str;
use crate::strutil::chars_is_prefix;
use crate::strutil::chars_subrange;
use crate::strutil::chars_to_string;
use crate::strutil::spec_is_prefix;
use crate::strutil::str_chars;
use crate::strutil::str_utf8_bytes;

verus! {

/// The decimal digit character for `0 <= d <= 9`.
pub open spec fn spec_digit_char(d: int) -> char {
    ((48 + d) as u8) as char
}

/// The decimal representation of a non-negative number.
pub open spec fn spec_decimal(n: int) -> Seq<char>
    decreases n,
{
    if n < 10 {
        seq![spec_digit_char(n)]
    } else {
        spec_decimal(n / 10) + seq![spec_digit_char(n % 10)]
    }
}

/// Formats a number in decimal.
pub fn u64_to_chars(n: u64) -> (v: Vec<char>)
    ensures
        v@ == spec_decimal(n as int),
    decreases n,
{
    if n < 10 {
        let mut v: Vec<char> = Vec::new();
        v.push((((n as u8) + 48) as u8) as char);
        proof {
            assert(v@ =~= spec_decimal(n as int));
        }
        v
    } else {
        let mut v = u64_to_chars(n / 10);
        v.push((((n % 10) as u8 + 48) as u8) as char);
        proof {
            assert(v@ =~= spec_decimal(n as int));
        }
        v
    }
}

/// Formats a number as a decimal string.
pub fn u64_to_string(n: u64) -> (s: String)
    ensures
        s@ == spec_decimal(n as int),
{
    let v = u64_to_chars(n);
    chars_to_string(&v)
}

/// Whether the canonical path `p` is `root` itself or lies below it: `root`
/// is a prefix ending at a path component boundary.
pub open spec fn spec_is_path_prefix(root: Seq<char>, p: Seq<char>) -> bool {
    ||| p == root
    ||| (spec_is_prefix(root, p) && (root == seq!['/'] || (p.len() > root.len() && p[root.len() as int]
        == '/')))
}

/// Tests whether the canonical path `p` equals `root` or lies below it.
pub fn is_path_prefix(root: &str, p: &str) -> (r: bool)
    ensures
        r == spec_is_path_prefix(root@, p@),
{
    let rv = str_chars(root);
    let pv = str_chars(p);
    if crate::strutil::chars_eq(&rv, &pv) {
        return true;
    }
    if !chars_is_prefix(&rv, &pv) {
        return false;
    }
    let slash = str_chars("/");
    proof {
        reveal_strlit("/");
        assert(slash@ =~= seq!['/']);
    }
    if crate::strutil::chars_eq(&rv, &slash) {
        return true;
    }
    if pv.len() > rv.len() && pv[rv.len()] == '/' {
        return true;
    }
    false
}

/// What the caller observed on the file system for one request.
pub struct FsView {
    /// The canonical form of the requested path, when it exists.
    pub canonical_req: Option<String>,
    /// The canonical form of the mount's root directory, when it exists.
    pub canonical_root: Option<String>,
    /// Whether the requested path exists.
    pub exists: bool,
    /// Whether the requested path is a regular file.
    pub is_file: bool,
    /// Whether `index.html` inside the requested directory is a regular file.
    pub index_is_file: bool,
}

/// Whether the observed request path lies inside the observed root.
pub open spec fn spec_fs_safe(fs: &FsView) -> bool {
    fs.canonical_req matches Some(q) && fs.canonical_root matches Some(t)
        && spec_is_path_prefix(t@, q@)
}

/// How a request below a mount is served.
pub enum ServePlan {
    /// The path (or the root) does not exist.
    NotFound,
    /// The canonical path escapes the served directory: rejected.
    Traversal,
    /// Serve the requested file itself.
    File,
    /// Serve `index.html` inside the requested directory.
    IndexFile,
    /// List the contents of the requested directory.
    ListDir,
}

/// Decides how to serve a resolved request. Anything that is served (a file,
/// an index file, or a directory listing) lies inside the served directory:
/// a canonical path outside it is rejected, missing paths are 404.
pub fn serve_plan(fs: &FsView) -> (r: ServePlan)
    ensures
        ({
            let resolved = fs.canonical_req is Some && fs.canonical_root is Some;
            match r {
                ServePlan::NotFound => !resolved || (spec_fs_safe(fs) && !fs.exists),
                ServePlan::Traversal => resolved && !spec_fs_safe(fs),
                ServePlan::File => spec_fs_safe(fs) && fs.exists && fs.is_file,
                ServePlan::IndexFile => spec_fs_safe(fs) && fs.exists && !fs.is_file
                    && fs.index_is_file,
                ServePlan::ListDir => spec_fs_safe(fs) && fs.exists && !fs.is_file
                    && !fs.index_is_file,
            }
        }),
        (r is File || r is IndexFile || r is ListDir) ==> spec_fs_safe(fs),
{
    let q = match &fs.canonical_req {
        Some(q) => q,
        None => {
            return ServePlan::NotFound;
        }
    };
    let t = match &fs.canonical_root {
        Some(t) => t,
        None => {
            return ServePlan::NotFound;
        }
    };
    if !is_path_prefix(t.as_str(), q.as_str()) {
        return ServePlan::Traversal;
    }
    if !fs.exists {
        ServePlan::NotFound
    } else if fs.is_file {
        ServePlan::File
    } else if fs.index_is_file {
        ServePlan::IndexFile
    } else {
        ServePlan::ListDir
    }
}

/// The rejection sent for a traversal attempt.
pub fn traversal_response() -> (r: HttpResponse)
    ensures
        r.status == 400,
        r.body@ == encode_utf8("Bad request: requested file outside of served directory\n"@),
{
    bad_request("Bad request: requested file outside of served directory\n")
}

/// What `mime_guess::from_path` guesses for a path: a pure function of the
/// path text (the first guess, rendered as `type/subtype`).
pub uninterp spec fn spec_mime_of(path: Seq<char>) -> Option<Seq<char>>;

/// Relies on `mime_guess::from_path`: the guess is derived from the path's
/// extension alone, so it is a function of the path text.
#[verifier::external_body]
fn guess_mime(path: &str) -> (r: Option<String>)
    ensures
        (r is Some) == (spec_mime_of(path@) is Some),
        r matches Some(m) ==> spec_mime_of(path@) == Option::Some(m@),
{
    mime_guess::from_path(path).first().map(|m| m.to_string())
}

/// One parsed byte range: `length` bytes starting at `start`.
pub struct ByteRange {
    pub start: u64,
    pub length: u64,
}

/// Why a `Range` header was rejected.
pub enum RangeError {
    /// The header is syntactically invalid.
    Invalid,
    /// No requested range overlaps the file.
    NoOverlap,
}

/// What `http_range` parses out of a `Range` header against a file size:
/// the `(start, length)` ranges, or why the header was rejected. The parse
/// is a pure function of the header bytes and the size.
pub uninterp spec fn spec_http_ranges(header: Seq<u8>, size: u64) -> Result<
    Seq<(u64, u64)>,
    RangeError,
>;

/// The bounds `http_range` guarantees of every parsed range: it ends within
/// the file; in a non-empty file it starts inside the file and spans at
/// least one byte; on an empty file only the degenerate range remains (a
/// suffix range clamped to nothing).
pub open spec fn spec_range_in_bounds(start: u64, length: u64, size: u64) -> bool {
    &&& start + length <= size
    &&& size > 0 ==> start < size && length >= 1
    &&& size == 0 ==> start == 0 && length == 0
}

/// Relies on `http_range::HttpRange::parse_bytes`: its outcome depends on
/// the header bytes and the size alone, and every returned range is in
/// bounds in the sense of [`spec_range_in_bounds`] (a suffix range on an
/// empty file comes back clamped to zero bytes).
#[verifier::external_body]
fn parse_ranges(header: &Vec<u8>, size: u64) -> (r: Result<Vec<ByteRange>, RangeError>)
    ensures
        ({
            let m = spec_http_ranges(header@, size);
            match r {
                Ok(v) => (m matches Ok(mv) && v@.map_values(|b: ByteRange| (b.start, b.length))
                    == mv) && forall|i: int|
                    0 <= i < v@.len() ==> spec_range_in_bounds(
                        (#[trigger] v@[i]).start,
                        v@[i].length,
                        size,
                    ),
                Err(e) => m matches Err(me) && me == e,
            }
        }),
{
    match http_range::HttpRange::parse_bytes(header.as_slice(), size) {
        Ok(rs) => Ok(
            rs.iter().map(|hr| ByteRange { start: hr.start, length: hr.length }).collect(),
        ),
        Err(http_range::HttpRangeParseError::InvalidRange) => Err(RangeError::Invalid),
        Err(http_range::HttpRangeParseError::NoOverlap) => Err(RangeError::NoOverlap),
    }
}

/// How a non-HTML file is sent.
pub enum FilePlan {
    /// Read the file fully, inject the client script, send it as HTML.
    Html,
    /// Stream the whole file.
    Whole,
    /// Stream `length` bytes from `start` as a `206 Partial Content`. On an
    /// empty file a suffix range degenerates to an empty partial response.
    Ranged { start: u64, length: u64 },
    /// The `Range` header did not hold exactly one range.
    MultiRange,
    /// The `Range` header is syntactically invalid.
    BadRange,
    /// The requested range lies outside the file.
    Unsatisfiable,
}

/// Whether a guessed MIME type is HTML.
pub open spec fn spec_mime_is_html(mime: &Option<String>) -> bool {
    mime matches Some(m) && spec_is_prefix("text/html"@, m@)
}

/// Decides how a file is sent, from its guessed MIME type, its size, and
/// the request's `Range` header: HTML files are injected; a header parsing
/// to exactly one range is served as a partial response (the range the
/// header names, in bounds); any other parse count, a syntactically invalid
/// header, and a non-overlapping range are each rejected their own way;
/// without a `Range` header the file streams whole.
pub fn file_plan(mime: &Option<String>, file_size: u64, range_header: &Option<Vec<u8>>) -> (r:
    FilePlan)
    ensures
        ({
            let html = spec_mime_is_html(mime);
            match r {
                FilePlan::Html => html,
                FilePlan::Whole => !html && range_header is None,
                FilePlan::Ranged { start, length } => !html && (range_header matches Some(h) && (
                spec_http_ranges(h@, file_size) matches Ok(rs) && rs.len() == 1 && rs[0] == (
                start,
                length,
                ))) && spec_range_in_bounds(start, length, file_size),
                FilePlan::MultiRange => !html && (range_header matches Some(h) && (
                spec_http_ranges(h@, file_size) matches Ok(rs) && rs.len() != 1)),
                FilePlan::BadRange => !html && (range_header matches Some(h) && (spec_http_ranges(
                    h@,
                    file_size,
                ) matches Err(e) && e is Invalid)),
                FilePlan::Unsatisfiable => !html && (range_header matches Some(h) && (
                spec_http_ranges(h@, file_size) matches Err(e) && e is NoOverlap)),
            }
        }),
{
    let is_html = match mime {
        Some(m) => {
            let h = str_chars("text/html");
            let mv = str_chars(m.as_str());
            chars_is_prefix(&h, &mv)
        }
        None => false,
    };
    if is_html {
        return FilePlan::Html;
    }
    match range_header {
        None => FilePlan::Whole,
        Some(h) => match parse_ranges(h, file_size) {
            Ok(ranges) => {
                if ranges.len() == 1 {
                    let r0 = &ranges[0];
                    proof {
                        assert(ranges@.map_values(|b: ByteRange| (b.start, b.length))[0] == (
                        ranges@[0].start,
                        ranges@[0].length,
                        ));
                        assert(spec_range_in_bounds(
                            ranges@[0].start,
                            ranges@[0].length,
                            file_size,
                        ));
                    }
                    FilePlan::Ranged { start: r0.start, length: r0.length }
                } else {
                    FilePlan::MultiRange
                }
            }
            Err(RangeError::Invalid) => FilePlan::BadRange,
            Err(RangeError::NoOverlap) => FilePlan::Unsatisfiable,
        },
    }
}

/// The response for an HTML file: the raw bytes with the client script
/// injected, with the content length updated accordingly.
pub fn html_file_response(raw: &Vec<u8>, config: &Config) -> (r: HttpResponse)
    ensures
        r.status == 200,
        r.body@ == inject::spec_inject(raw@, inject::spec_script_tag(config.control_path@)),
        spec_headers(r.headers@) =~= seq![
            ("Content-Type"@, "text/html"@),
            ("Content-Length"@, spec_decimal(r.body@.len() as int)),
            ("Server"@, SERVER_HEADER@),
        ],
{
    let body = inject::into(raw, config);
    let len_str = u64_to_string(body.len() as u64);
    let mut headers: Vec<(String, String)> = Vec::new();
    headers.push((String::from_str("Content-Type"), String::from_str("text/html")));
    headers.push((String::from_str("Content-Length"), len_str));
    headers.push((String::from_str("Server"), String::from_str(SERVER_HEADER)));
    proof {
        assert(spec_headers(headers@) =~= seq![
            ("Content-Type"@, "text/html"@),
            ("Content-Length"@, spec_decimal(body@.len() as int)),
            ("Server"@, SERVER_HEADER@),
        ]);
    }
    HttpResponse { status: 200, headers, body }
}

/// The headers for streaming a whole file: `Server`, `Accept-Ranges`, the
/// MIME type when one was guessed, and the file size as content length.
pub fn whole_file_headers(mime: Option<String>, file_size: u64) -> (r: Vec<(String, String)>)
    ensures
        ({
            let base = seq![("Server"@, SERVER_HEADER@), ("Accept-Ranges"@, "bytes"@)];
            let tail = seq![("Content-Length"@, spec_decimal(file_size as int))];
            match mime {
                Some(m) => spec_headers(r@) =~= base + seq![("Content-Type"@, m@)] + tail,
                None => spec_headers(r@) =~= base + tail,
            }
        }),
{
    let mut headers: Vec<(String, String)> = Vec::new();
    headers.push((String::from_str("Server"), String::from_str(SERVER_HEADER)));
    headers.push((String::from_str("Accept-Ranges"), String::from_str("bytes")));
    let ghost had_mime = mime is Some;
    match mime {
        Some(m) => {
            headers.push((String::from_str("Content-Type"), m));
        }
        None => {}
    }
    headers.push((String::from_str("Content-Length"), u64_to_string(file_size)));
    proof {
        if had_mime {
            assert(spec_headers(headers@) =~= seq![
                ("Server"@, SERVER_HEADER@),
                ("Accept-Ranges"@, "bytes"@),
            ] + seq![("Content-Type"@, headers@[2].1@)] + seq![
                ("Content-Length"@, spec_decimal(file_size as int)),
            ]);
        } else {
            assert(spec_headers(headers@) =~= seq![
                ("Server"@, SERVER_HEADER@),
                ("Accept-Ranges"@, "bytes"@),
            ] + seq![("Content-Length"@, spec_decimal(file_size as int))]);
        }
    }
    headers
}

/// The `Content-Range` text of a partial response: `bytes
/// start-(start+length)/size`.
pub open spec fn spec_content_range(start: int, length: int, size: int) -> Seq<char> {
    "bytes "@ + spec_decimal(start) + "-"@ + spec_decimal(start + length) + "/"@ + spec_decimal(
        size,
    )
}

/// Formats the `Content-Range` value for a partial response.
pub fn content_range_value(start: u64, length: u64, file_size: u64) -> (r: String)
    requires
        start + length <= u64::MAX,
    ensures
        r@ == spec_content_range(start as int, length as int, file_size as int),
{
    let mut v = str_chars("bytes ");
    let sv = u64_to_chars(start);
    chars_append(&mut v, &sv);
    chars_append_str(&mut v, "-");
    let ev = u64_to_chars(start + length);
    chars_append(&mut v, &ev);
    chars_append_str(&mut v, "/");
    let fv = u64_to_chars(file_size);
    chars_append(&mut v, &fv);
    chars_to_string(&v)
}

/// The headers for a `206 Partial Content` response: `Server`,
/// `Accept-Ranges`, the MIME type when one was guessed, the range length as
/// content length, and the `Content-Range` header.
pub fn range_headers(mime: Option<String>, start: u64, length: u64, file_size: u64) -> (r: Vec<
    (String, String),
>)
    requires
        start + length <= file_size,
    ensures
        ({
            let base = seq![("Server"@, SERVER_HEADER@), ("Accept-Ranges"@, "bytes"@)];
            let tail = seq![
                ("Content-Length"@, spec_decimal(length as int)),
                (
                    "Content-Range"@,
                    spec_content_range(start as int, length as int, file_size as int),
                ),
            ];
            match mime {
                Some(m) => spec_headers(r@) =~= base + seq![("Content-Type"@, m@)] + tail,
                None => spec_headers(r@) =~= base + tail,
            }
        }),
{
    let mut headers: Vec<(String, String)> = Vec::new();
    headers.push((String::from_str("Server"), String::from_str(SERVER_HEADER)));
    headers.push((String::from_str("Accept-Ranges"), String::from_str("bytes")));
    let ghost had_mime = mime is Some;
    match mime {
        Some(m) => {
            headers.push((String::from_str("Content-Type"), m));
        }
        None => {}
    }
    headers.push((String::from_str("Content-Length"), u64_to_string(length)));
    headers.push(
        (String::from_str("Content-Range"), content_range_value(start, length, file_size)),
    );
    proof {
        if had_mime {
            assert(spec_headers(headers@) =~= seq![
                ("Server"@, SERVER_HEADER@),
                ("Accept-Ranges"@, "bytes"@),
            ] + seq![("Content-Type"@, headers@[2].1@)] + seq![
                ("Content-Length"@, spec_decimal(length as int)),
                (
                    "Content-Range"@,
                    spec_content_range(start as int, length as int, file_size as int),
                ),
            ]);
        } else {
            assert(spec_headers(headers@) =~= seq![
                ("Server"@, SERVER_HEADER@),
                ("Accept-Ranges"@, "bytes"@),
            ] + seq![
                ("Content-Length"@, spec_decimal(length as int)),
                (
                    "Content-Range"@,
                    spec_content_range(start as int, length as int, file_size as int),
                ),
            ]);
        }
    }
    headers
}

/// The headers of a whole-file streaming response.
pub open spec fn spec_whole_headers(mime: Option<Seq<char>>, size: int) -> Seq<
    (Seq<char>, Seq<char>),
> {
    seq![("Server"@, SERVER_HEADER@), ("Accept-Ranges"@, "bytes"@)] + (match mime {
        Option::Some(m) => seq![("Content-Type"@, m)],
        Option::None => Seq::empty(),
    }) + seq![("Content-Length"@, spec_decimal(size))]
}

/// The headers of a partial-content streaming response.
pub open spec fn spec_range_headers(
    mime: Option<Seq<char>>,
    start: int,
    length: int,
    size: int,
) -> Seq<(Seq<char>, Seq<char>)> {
    seq![("Server"@, SERVER_HEADER@), ("Accept-Ranges"@, "bytes"@)] + (match mime {
        Option::Some(m) => seq![("Content-Type"@, m)],
        Option::None => Seq::empty(),
    }) + seq![
        ("Content-Length"@, spec_decimal(length)),
        ("Content-Range"@, spec_content_range(start, length, size)),
    ]
}

/// How a file request is answered.
pub enum FileServeOutcome {
    /// Read the whole file; its injected form is the response body (see
    /// [`html_file_response`]).
    ReadWholeAndInject,
    /// Stream the whole file with these headers.
    StreamWhole { headers: Vec<(String, String)> },
    /// Stream `length` bytes from `start` as `206 Partial Content` with
    /// these headers.
    StreamRange { start: u64, length: u64, headers: Vec<(String, String)> },
    /// The `Range` header was rejected: a finished error response.
    Reject(HttpResponse),
}

/// Decides how a file is served, from its path (for the MIME guess), its
/// size, and the request's `Range` header. An HTML file is read whole and
/// injected; a header parsing to exactly one range streams as a partial
/// response (on an empty file degenerating to an empty one, as the parser
/// clamps a suffix range); any other parse count gets a 400, a
/// syntactically invalid header a 400, a non-overlapping range a 416; with
/// no `Range` header the file streams whole.
pub fn file_response(path: &str, file_size: u64, range_header: &Option<Vec<u8>>) -> (r:
    FileServeOutcome)
    ensures
        ({
            let mime = spec_mime_of(path@);
            let html = mime matches Some(m) && spec_is_prefix("text/html"@, m);
            match r {
                FileServeOutcome::ReadWholeAndInject => html,
                FileServeOutcome::StreamWhole { headers } => !html && range_header is None
                    && spec_headers(headers@) =~= spec_whole_headers(mime, file_size as int),
                FileServeOutcome::StreamRange { start, length, headers } => !html && (range_header
                    matches Some(h) && (spec_http_ranges(h@, file_size) matches Ok(rs) && rs.len()
                    == 1 && rs[0] == (start, length))) && spec_range_in_bounds(
                    start,
                    length,
                    file_size,
                ) && spec_headers(headers@) =~= spec_range_headers(
                    mime,
                    start as int,
                    length as int,
                    file_size as int,
                ),
                FileServeOutcome::Reject(resp) => !html && (range_header matches Some(h) && (
                match spec_http_ranges(h@, file_size) {
                    Ok(rs) => rs.len() != 1 && resp.status == 400 && resp.body@ == encode_utf8(
                        "multiple ranges in 'Range' header not supported"@,
                    ),
                    Err(e) => (e is Invalid && resp.status == 400 && resp.body@ == encode_utf8(
                        "Bad request: invalid 'Range' header\n"@,
                    )) || (e is NoOverlap && resp.status == 416 && resp.body@.len() == 0),
                })),
            }
        }),
{
    let mime = guess_mime(path);
    let plan = file_plan(&mime, file_size, range_header);
    match plan {
        FilePlan::Html => FileServeOutcome::ReadWholeAndInject,
        FilePlan::Whole => {
            let headers = whole_file_headers(mime, file_size);
            FileServeOutcome::StreamWhole { headers }
        }
        FilePlan::Ranged { start, length } => {
            let headers = range_headers(mime, start, length, file_size);
            FileServeOutcome::StreamRange { start, length, headers }
        }
        FilePlan::MultiRange => FileServeOutcome::Reject(
            bad_request("multiple ranges in 'Range' header not supported"),
        ),
        FilePlan::BadRange => FileServeOutcome::Reject(
            bad_request("Bad request: invalid 'Range' header\n"),
        ),
        FilePlan::Unsatisfiable => FileServeOutcome::Reject(
            crate::routing::range_not_satisfiable(),
        ),
    }
}

/// One entry read out of the listed directory.
pub struct DirEntry {
    /// The file name, as text.
    pub name: String,
    /// Whether the entry is a regular file (anything else lists as folder).
    pub is_file: bool,
}

/// What the file system says about one configured mount.
pub struct MountFsInfo {
    /// Whether the mount's directory exists.
    pub exists: bool,
    /// Whether the mount's path is a directory.
    pub is_dir: bool,
}

/// One line of the listing: its display text and whether it stands for a
/// mount.
struct ListEntry {
    text: Vec<char>,
    is_mount: bool,
}

/// The mathematical content of directory entries.
pub open spec fn spec_dir_entries_view(v: Seq<DirEntry>) -> Seq<(Seq<char>, bool)> {
    v.map_values(|d: DirEntry| (d.name@, d.is_file))
}

/// The folder lines for the real directory entries: every non-file, with a
/// trailing slash, in directory order.
pub open spec fn spec_fs_folders(entries: Seq<(Seq<char>, bool)>) -> Seq<(Seq<char>, bool)>
    decreases entries.len(),
{
    if entries.len() == 0 {
        Seq::empty()
    } else {
        spec_fs_folders(entries.drop_last()) + (if !entries.last().1 {
            seq![(entries.last().0 + seq!['/'], false)]
        } else {
            Seq::empty()
        })
    }
}

/// The file lines for the real directory entries.
pub open spec fn spec_fs_files(entries: Seq<(Seq<char>, bool)>) -> Seq<(Seq<char>, bool)>
    decreases entries.len(),
{
    if entries.len() == 0 {
        Seq::empty()
    } else {
        spec_fs_files(entries.drop_last()) + (if entries.last().1 {
            seq![(entries.last().0, false)]
        } else {
            Seq::empty()
        })
    }
}

/// The listing line contributed by one mount, for the folder list
/// (`folders` true) or the file list: a mount whose directory exists and
/// whose URI path lies strictly below the listed path contributes its next
/// path segment, as a folder or file line depending on what its path is.
pub open spec fn spec_one_mount_add(
    mp: Seq<char>,
    exists: bool,
    is_dir: bool,
    uri: Seq<char>,
    folders: bool,
) -> Seq<(Seq<char>, bool)> {
    if exists && spec_is_prefix(uri, mp) && mp != uri {
        let rest = mp.skip(uri.len() as int);
        let name = rest.take(crate::strutil::spec_find(rest, '/'));
        if folders && is_dir {
            seq![(name + seq!['/'], true)]
        } else if !folders && !is_dir {
            seq![(name, true)]
        } else {
            Seq::empty()
        }
    } else {
        Seq::empty()
    }
}

/// The listing lines contributed by all mounts, in mount order.
pub open spec fn spec_mount_adds(
    mounts: Seq<crate::config::Mount>,
    info: Seq<MountFsInfo>,
    uri: Seq<char>,
    folders: bool,
) -> Seq<(Seq<char>, bool)>
    decreases mounts.len(),
{
    if mounts.len() == 0 {
        Seq::empty()
    } else {
        spec_mount_adds(mounts.drop_last(), info.drop_last(), uri, folders) + spec_one_mount_add(
            mounts.last().uri_path@,
            info.last().exists,
            info.last().is_dir,
            uri,
            folders,
        )
    }
}

/// The listing order: by display text (lexicographically by scalar value),
/// mount lines after real lines of the same text.
pub open spec fn spec_entry_le(a: (Seq<char>, bool), b: (Seq<char>, bool)) -> bool {
    crate::csp::spec_lex_lt(a.0, b.0) || (a.0 == b.0 && (a.1 ==> b.1))
}

/// Stable insertion into a sorted line list: the new line goes before the
/// first strictly greater one.
pub open spec fn spec_insert_entry(
    list: Seq<(Seq<char>, bool)>,
    e: (Seq<char>, bool),
) -> Seq<(Seq<char>, bool)>
    decreases list.len(),
{
    if list.len() == 0 {
        seq![e]
    } else if spec_entry_le(list[0], e) {
        seq![list[0]] + spec_insert_entry(list.skip(1), e)
    } else {
        seq![e] + list
    }
}

/// Stable insertion sort of the line list (what a stable sort by the same
/// order yields).
pub open spec fn spec_sort_entries(list: Seq<(Seq<char>, bool)>) -> Seq<(Seq<char>, bool)>
    decreases list.len(),
{
    if list.len() == 0 {
        Seq::empty()
    } else {
        spec_insert_entry(spec_sort_entries(list.drop_last()), list.last())
    }
}

/// The HTML for one listing line.
pub open spec fn spec_render_entry(e: (Seq<char>, bool)) -> Seq<char> {
    "<li><a href=\""@ + e.0 + "\" class=\""@ + (if e.1 {
        "mount"@
    } else {
        "real"@
    }) + "\"><code>"@ + e.0 + "</code></a></li>\n"@
}

/// The rendered line block: a newline, then one line per entry.
pub open spec fn spec_entries_block(list: Seq<(Seq<char>, bool)>) -> Seq<char>
    decreases list.len(),
{
    if list.len() == 0 {
        "\n"@
    } else {
        spec_entries_block(list.drop_last()) + spec_render_entry(list.last())
    }
}

/// The listing lines of a directory: sorted folders first, then sorted
/// files, both with the matching mount lines mixed in.
pub open spec fn spec_dir_lines(
    entries: Seq<(Seq<char>, bool)>,
    mounts: Seq<crate::config::Mount>,
    info: Seq<MountFsInfo>,
    uri: Seq<char>,
) -> Seq<(Seq<char>, bool)> {
    spec_sort_entries(spec_fs_folders(entries) + spec_mount_adds(mounts, info, uri, true))
        + spec_sort_entries(spec_fs_files(entries) + spec_mount_adds(mounts, info, uri, false))
}

/// The directory-listing page: the template with the listed path, the
/// rendered lines, and the control path substituted.
pub open spec fn spec_dir_listing(
    uri: Seq<char>,
    entries: Seq<(Seq<char>, bool)>,
    mounts: Seq<crate::config::Mount>,
    info: Seq<MountFsInfo>,
    control_path: Seq<char>,
) -> Seq<char> {
    crate::strutil::spec_replace_all(
        crate::strutil::spec_replace_all(
            crate::strutil::spec_replace_all(DIR_LISTING_HTML@, "{{ uri_path }}"@, uri),
            "{{ entries }}"@,
            spec_entries_block(spec_dir_lines(entries, mounts, info, uri)),
        ),
        "{{ control_path }}"@,
        control_path,
    )
}

/// The directory-listing page template.
pub const DIR_LISTING_HTML: &'static str = r#"<!DOCTYPE html>
<html>
  <head>
    <meta charset="utf-8">
    <title>Index of {{ uri_path }}</title>
    <style>
      body { font-family: sans-serif; margin: 0; }
      main { max-width: 720px; margin: 32px auto; padding: 0 16px; }
      ul { list-style: none; padding: 0; }
      li { padding: 2px 0; }
      a.mount code { color: #7b2d86; }
      a.real code { color: #1d4ed8; }
    </style>
  </head>
  <body>
    <main>
      <h1>Index of <code>{{ uri_path }}</code></h1>
      <ul>{{ entries }}</ul>
    </main>
    <script src="{{ control_path }}/client.js" defer></script>
  </body>
</html>
"#;

/// Compares two listing lines.
fn entry_le(a: &ListEntry, b: &ListEntry) -> (r: bool)
    ensures
        r == spec_entry_le((a.text@, a.is_mount), (b.text@, b.is_mount)),
{
    if crate::csp::lex_lt(&a.text, &b.text) {
        true
    } else if crate::strutil::chars_eq(&a.text, &b.text) {
        !a.is_mount || b.is_mount
    } else {
        false
    }
}

/// Inserts a line into a sorted line list, keeping the order stable.
fn insert_entry(list: Vec<ListEntry>, e: ListEntry) -> (r: Vec<ListEntry>)
    ensures
        entry_views(r@) == spec_insert_entry(entry_views(list@), (e.text@, e.is_mount)),
    decreases list@.len(),
{
    if list.len() == 0 {
        let mut r: Vec<ListEntry> = Vec::new();
        r.push(e);
        proof {
            assert(entry_views(r@) =~= spec_insert_entry(
                entry_views(list@),
                (e.text@, e.is_mount),
            ));
        }
        r
    } else if entry_le(&list[0], &e) {
        proof {
            assert(entry_views(list@)[0] == (list@[0].text@, list@[0].is_mount));
        }
        let ghost listv = entry_views(list@);
        let mut rest = list;
        let head = rest.remove(0);
        proof {
            assert(entry_views(rest@) =~= listv.skip(1));
        }
        let r0 = insert_entry(rest, e);
        let mut r = r0;
        r.insert(0, head);
        proof {
            assert(entry_views(r@) =~= seq![listv[0]] + spec_insert_entry(
                listv.skip(1),
                (e.text@, e.is_mount),
            ));
        }
        r
    } else {
        proof {
            assert(entry_views(list@)[0] == (list@[0].text@, list@[0].is_mount));
        }
        let ghost listv = entry_views(list@);
        let ghost list0 = list@;
        let ghost ev = (e.text@, e.is_mount);
        let mut r = list;
        r.insert(0, e);
        proof {
            assert(r@.skip(1) =~= list0);
            assert(entry_views(r@) =~= seq![ev] + listv);
        }
        r
    }
}

/// The views of a line list.
spec fn entry_views(v: Seq<ListEntry>) -> Seq<(Seq<char>, bool)> {
    v.map_values(|e: ListEntry| (e.text@, e.is_mount))
}

/// Sorts a line list stably.
fn sort_entries(list: Vec<ListEntry>) -> (r: Vec<ListEntry>)
    ensures
        entry_views(r@) == spec_sort_entries(entry_views(list@)),
{
    let n = list.len();
    let mut list = list;
    let mut out: Vec<ListEntry> = Vec::new();
    let ghost listv = entry_views(list@);
    let mut i: usize = 0;
    proof {
        assert(listv.take(0) =~= Seq::<(Seq<char>, bool)>::empty());
        assert(entry_views(out@) =~= spec_sort_entries(listv.take(0)));
    }
    while i < n
        invariant
            0 <= i <= n,
            n == list@.len(),
            listv == entry_views(list@),
            entry_views(out@) == spec_sort_entries(listv.take(i as int)),
        decreases n - i,
    {
        let e = ListEntry {
            text: chars_subrange(&list[i].text, 0, list[i].text.len()),
            is_mount: list[i].is_mount,
        };
        proof {
            assert(listv[i as int] == (list@[i as int].text@, list@[i as int].is_mount));
            assert((e.text@, e.is_mount) == listv[i as int]);
            assert(listv.take(i + 1).drop_last() =~= listv.take(i as int));
            assert(listv.take(i + 1).last() == listv[i as int]);
        }
        out = insert_entry(out, e);
        i = i + 1;
    }
    proof {
        assert(listv.take(n as int) =~= listv);
    }
    out
}

/// Renders the line block of a sorted line list.
fn render_entries(list: &Vec<ListEntry>) -> (out: Vec<char>)
    ensures
        out@ == spec_entries_block(entry_views(list@)),
{
    let n = list.len();
    let mut out = str_chars("\n");
    let mut i: usize = 0;
    proof {
        assert(entry_views(list@).take(0) =~= Seq::<(Seq<char>, bool)>::empty());
    }
    while i < n
        invariant
            0 <= i <= n,
            n == list@.len(),
            out@ == spec_entries_block(entry_views(list@).take(i as int)),
        decreases n - i,
    {
        let ghost lv = entry_views(list@);
        chars_append_str(&mut out, "<li><a href=\"");
        chars_append(&mut out, &list[i].text);
        chars_append_str(&mut out, "\" class=\"");
        if list[i].is_mount {
            chars_append_str(&mut out, "mount");
        } else {
            chars_append_str(&mut out, "real");
        }
        chars_append_str(&mut out, "\"><code>");
        chars_append(&mut out, &list[i].text);
        chars_append_str(&mut out, "</code></a></li>\n");
        proof {
            assert(lv[i as int] == (list@[i as int].text@, list@[i as int].is_mount));
            assert(lv.take(i + 1).drop_last() =~= lv.take(i as int));
            assert(lv.take(i + 1).last() == lv[i as int]);
            assert(out@ =~= spec_entries_block(lv.take(i as int)) + spec_render_entry(
                lv[i as int],
            ));
        }
        i = i + 1;
    }
    proof {
        assert(entry_views(list@).take(n as int) =~= entry_views(list@));
    }
    out
}

/// The listing lines of the real directory entries (folders when `folders`,
/// files otherwise).
fn fs_lines(entries: &Vec<DirEntry>, folders: bool) -> (r: Vec<ListEntry>)
    ensures
        folders ==> entry_views(r@) == spec_fs_folders(spec_dir_entries_view(entries@)),
        !folders ==> entry_views(r@) == spec_fs_files(spec_dir_entries_view(entries@)),
{
    let ghost ev = spec_dir_entries_view(entries@);
    let n = entries.len();
    let mut r: Vec<ListEntry> = Vec::new();
    let mut i: usize = 0;
    proof {
        assert(ev.take(0) =~= Seq::<(Seq<char>, bool)>::empty());
        assert(entry_views(r@) =~= Seq::<(Seq<char>, bool)>::empty());
    }
    while i < n
        invariant
            0 <= i <= n,
            n == entries@.len(),
            ev == spec_dir_entries_view(entries@),
            folders ==> entry_views(r@) == spec_fs_folders(ev.take(i as int)),
            !folders ==> entry_views(r@) == spec_fs_files(ev.take(i as int)),
        decreases n - i,
    {
        proof {
            assert(ev[i as int] == (entries@[i as int].name@, entries@[i as int].is_file));
            assert(ev.take(i + 1).drop_last() =~= ev.take(i as int));
            assert(ev.take(i + 1).last() == ev[i as int]);
        }
        let is_file = entries[i].is_file;
        let ghost rv = entry_views(r@);
        if folders && !is_file {
            let mut text = str_chars(entries[i].name.as_str());
            text.push('/');
            proof {
                assert(text@ =~= entries@[i as int].name@ + seq!['/']);
            }
            r.push(ListEntry { text, is_mount: false });
            proof {
                assert(entry_views(r@) =~= rv + seq![
                    (entries@[i as int].name@ + seq!['/'], false),
                ]);
            }
        } else if !folders && is_file {
            let text = str_chars(entries[i].name.as_str());
            r.push(ListEntry { text, is_mount: false });
            proof {
                assert(entry_views(r@) =~= rv + seq![(entries@[i as int].name@, false)]);
            }
        } else {
            proof {
                assert(entry_views(r@) =~= rv + Seq::<(Seq<char>, bool)>::empty());
            }
        }
        i = i + 1;
    }
    proof {
        assert(ev.take(n as int) =~= ev);
    }
    r
}

/// The listing lines contributed by the mounts (folders when `folders`,
/// files otherwise).
fn mount_lines(
    config: &Config,
    info: &Vec<MountFsInfo>,
    uri: &Vec<char>,
    folders: bool,
) -> (r: Vec<ListEntry>)
    requires
        info@.len() == config.mounts@.len(),
    ensures
        entry_views(r@) == spec_mount_adds(config.mounts@, info@, uri@, folders),
{
    let n = config.mounts.len();
    let mut r: Vec<ListEntry> = Vec::new();
    let mut i: usize = 0;
    proof {
        assert(config.mounts@.take(0) =~= Seq::<crate::config::Mount>::empty());
        assert(info@.take(0) =~= Seq::<MountFsInfo>::empty());
        assert(entry_views(r@) =~= spec_mount_adds(
            config.mounts@.take(0),
            info@.take(0),
            uri@,
            folders,
        ));
    }
    while i < n
        invariant
            0 <= i <= n,
            n == config.mounts@.len() == info@.len(),
            entry_views(r@) == spec_mount_adds(
                config.mounts@.take(i as int),
                info@.take(i as int),
                uri@,
                folders,
            ),
        decreases n - i,
    {
        proof {
            assert(config.mounts@.take(i + 1).drop_last() =~= config.mounts@.take(i as int));
            assert(info@.take(i + 1).drop_last() =~= info@.take(i as int));
            assert(config.mounts@.take(i + 1).last() == config.mounts@[i as int]);
            assert(info@.take(i + 1).last() == info@[i as int]);
        }
        let mp = str_chars(config.mounts[i].uri_path.as_str());
        let ghost add = spec_one_mount_add(
            config.mounts@[i as int].uri_path@,
            info@[i as int].exists,
            info@[i as int].is_dir,
            uri@,
            folders,
        );
        if info[i].exists && chars_is_prefix(uri, &mp) && !crate::strutil::chars_eq(&mp, uri) {
            let rest = chars_subrange(&mp, uri.len(), mp.len());
            proof {
                assert(rest@ =~= mp@.skip(uri@.len() as int));
            }
            let pos = crate::strutil::find_char(&rest, '/');
            let name = chars_subrange(&rest, 0, pos);
            let ghost rv = entry_views(r@);
            if folders && info[i].is_dir {
                let mut text = name;
                text.push('/');
                proof {
                    assert(text@ =~= rest@.take(crate::strutil::spec_find(rest@, '/')) + seq![
                        '/',
                    ]);
                }
                r.push(ListEntry { text, is_mount: true });
                proof {
                    assert(add.len() == 1);
                    assert(entry_views(r@) =~= rv + add);
                }
            } else if !folders && !info[i].is_dir {
                r.push(ListEntry { text: name, is_mount: true });
                proof {
                    assert(add.len() == 1);
                    assert(entry_views(r@) =~= rv + add);
                }
            } else {
                proof {
                    assert(add =~= Seq::<(Seq<char>, bool)>::empty());
                    assert(entry_views(r@) =~= rv + add);
                }
            }
        } else {
            proof {
                assert(add =~= Seq::<(Seq<char>, bool)>::empty());
                assert(entry_views(r@) =~= entry_views(r@) + add);
            }
        }
        i = i + 1;
    }
    proof {
        assert(config.mounts@.take(n as int) =~= config.mounts@);
        assert(info@.take(n as int) =~= info@);
    }
    r
}

/// Appends all elements of `src` to `dst`, consuming `src`.
fn append_entries(dst: &mut Vec<ListEntry>, src: Vec<ListEntry>)
    ensures
        entry_views(final(dst)@) == entry_views(old(dst)@) + entry_views(src@),
{
    let ghost s0 = src@;
    let mut src2 = src;
    dst.append(&mut src2);
    proof {
        assert(entry_views(dst@) =~= entry_views(old(dst)@) + entry_views(s0));
    }
}

/// Renders the directory listing for one request: the real entries and the
/// mounts below the listed path, folders first, each sorted, substituted
/// into the listing template together with the path and the control path.
pub fn dir_listing_html(
    uri_path: &str,
    entries: &Vec<DirEntry>,
    mount_fs: &Vec<MountFsInfo>,
    config: &Config,
) -> (r: String)
    requires
        mount_fs@.len() == config.mounts@.len(),
    ensures
        r@ == spec_dir_listing(
            uri_path@,
            spec_dir_entries_view(entries@),
            config.mounts@,
            mount_fs@,
            config.control_path@,
        ),
{
    let uriv = str_chars(uri_path);
    let mut folders = fs_lines(entries, true);
    append_entries(&mut folders, mount_lines(config, mount_fs, &uriv, true));
    let mut files = fs_lines(entries, false);
    append_entries(&mut files, mount_lines(config, mount_fs, &uriv, false));

    let sorted_folders = sort_entries(folders);
    let sorted_files = sort_entries(files);

    let mut all = sorted_folders;
    append_entries(&mut all, sorted_files);
    proof {
        assert(entry_views(all@) =~= spec_dir_lines(
            spec_dir_entries_view(entries@),
            config.mounts@,
            mount_fs@,
            uriv@,
        ));
    }
    let block = render_entries(&all);

    let tpl = str_chars(DIR_LISTING_HTML);
    let pat1 = str_chars("{{ uri_path }}");
    let step1 = crate::strutil::replace_all(&tpl, &pat1, &uriv);
    let pat2 = str_chars("{{ entries }}");
    let step2 = crate::strutil::replace_all(&step1, &pat2, &block);
    let pat3 = str_chars("{{ control_path }}");
    let repl3 = str_chars(config.control_path.as_str());
    let step3 = crate::strutil::replace_all(&step2, &pat3, &repl3);
    chars_to_string(&step3)
}

/// The headers of the directory-listing response.
pub fn dir_listing_headers() -> (r: Vec<(String, String)>)
    ensures
        spec_headers(r@) =~= seq![
            ("Content-Type"@, "text/html; charset=utf-8"@),
            ("Server"@, SERVER_HEADER@),
        ],
{
    let mut headers: Vec<(String, String)> = Vec::new();
    headers.push(
        (String::from_str("Content-Type"), String::from_str("text/html; charset=utf-8")),
    );
    headers.push((String::from_str("Server"), String::from_str(SERVER_HEADER)));
    proof {
        assert(spec_headers(headers@) =~= seq![
            ("Content-Type"@, "text/html; charset=utf-8"@),
            ("Server"@, SERVER_HEADER@),
        ]);
    }
    headers
}

} // verus!
