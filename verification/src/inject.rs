//! HTML injection: insert the client `<script>` tag in front of the last
//! closing `body` tag that is not inside an HTML comment, or at the very end
//! when no such tag exists.

use vstd::prelude::*;
use vstd::utf8::encode_utf8;

use crate::config::Config;
use crate::strutil::bytes_append;
use crate::strutil::bytes_match_at;
use crate::strutil::bytes_subrange;
use crate::strutil::chars_append_str;
use crate::strutil::chars_to_string;
use crate::strutil::replace_all;
use crate::strutil::spec_bytes_at;
use crate::strutil::spec_replace_all;
use crate::strutil::str_chars;
use crate::strutil::str_utf8_bytes;

verus! {

/// The bytes of `</body>`.
pub open spec fn spec_body_close_tag() -> Seq<u8> {
    seq!['<' as u8, '/' as u8, 'b' as u8, 'o' as u8, 'd' as u8, 'y' as u8, '>' as u8]
}

/// The bytes of `<!--`.
pub open spec fn spec_comment_open() -> Seq<u8> {
    seq!['<' as u8, '!' as u8, '-' as u8, '-' as u8]
}

/// The bytes of `-->`.
pub open spec fn spec_comment_close() -> Seq<u8> {
    seq!['-' as u8, '-' as u8, '>' as u8]
}

/// Lifts an executable index option to its mathematical counterpart.
pub open spec fn spec_opt_int(o: Option<usize>) -> Option<int> {
    match o {
        Option::None => Option::<int>::None,
        Option::Some(i) => Option::Some(i as int),
    }
}

/// One left-to-right scan over `s` from position `i`, carrying whether the
/// scan is inside an HTML comment and the last `</body>` position seen so
/// far; yields the position of the last `</body>` outside comments.
pub open spec fn spec_scan(s: Seq<u8>, i: int, inside: bool, found: Option<int>) -> Option<int>
    decreases s.len() - i,
{
    if i < 0 || i >= s.len() {
        found
    } else if !inside && spec_bytes_at(s, i, spec_body_close_tag()) {
        spec_scan(s, i + 1, false, Option::Some(i))
    } else if !inside && spec_bytes_at(s, i, spec_comment_open()) {
        spec_scan(s, i + 1, true, found)
    } else if inside && spec_bytes_at(s, i, spec_comment_close()) {
        spec_scan(s, i + 1, false, found)
    } else {
        spec_scan(s, i + 1, inside, found)
    }
}

/// The position of the last `</body>` in `s` that is not inside a comment.
pub open spec fn spec_body_close_idx(s: Seq<u8>) -> Option<int> {
    spec_scan(s, 0, false, Option::None)
}

/// Where the script tag is inserted: before the last non-commented `</body>`,
/// or at the end when there is none.
pub open spec fn spec_insert_idx(s: Seq<u8>) -> int {
    match spec_body_close_idx(s) {
        Option::Some(i) => i,
        Option::None => s.len() as int,
    }
}

/// The injected output: the input with `tag` inserted at the insertion point.
pub open spec fn spec_inject(s: Seq<u8>, tag: Seq<u8>) -> Seq<u8> {
    let idx = spec_insert_idx(s);
    s.take(idx) + tag + s.skip(idx)
}

/// The found position always points at a real `</body>` occurrence.
proof fn lemma_scan_props(s: Seq<u8>, i: int, inside: bool, found: Option<int>)
    requires
        0 <= i <= s.len(),
        found matches Option::Some(f) ==> spec_bytes_at(s, f, spec_body_close_tag()),
    ensures
        spec_scan(s, i, inside, found) matches Option::Some(f) ==> spec_bytes_at(
            s,
            f,
            spec_body_close_tag(),
        ),
    decreases s.len() - i,
{
    if i < s.len() {
        if !inside && spec_bytes_at(s, i, spec_body_close_tag()) {
            lemma_scan_props(s, i + 1, false, Option::Some(i));
        } else if !inside && spec_bytes_at(s, i, spec_comment_open()) {
            lemma_scan_props(s, i + 1, true, found);
        } else if inside && spec_bytes_at(s, i, spec_comment_close()) {
            lemma_scan_props(s, i + 1, false, found);
        } else {
            lemma_scan_props(s, i + 1, inside, found);
        }
    }
}

/// The insertion point lies inside the input, and when a `</body>` was found
/// the tag really stands at that position.
pub proof fn lemma_insert_idx_range(s: Seq<u8>)
    ensures
        0 <= spec_insert_idx(s) <= s.len(),
        spec_body_close_idx(s) matches Option::Some(f) ==> spec_bytes_at(
            s,
            f,
            spec_body_close_tag(),
        ),
{
    lemma_scan_props(s, 0, false, Option::None);
}

/// Injection never loses a byte: stripping the inserted tag out of the output
/// reassembles the input exactly.
pub proof fn lemma_injection_preserves_input(s: Seq<u8>, tag: Seq<u8>)
    ensures
        ({
            let idx = spec_insert_idx(s);
            &&& 0 <= idx <= s.len()
            &&& spec_inject(s, tag) == s.take(idx) + tag + s.skip(idx)
            &&& s.take(idx) + s.skip(idx) == s
            &&& spec_inject(s, tag).len() == s.len() + tag.len()
        }),
{
    lemma_insert_idx_range(s);
    let idx = spec_insert_idx(s);
    assert(s.take(idx) + s.skip(idx) =~= s);
}

fn body_close_vec() -> (v: Vec<u8>)
    ensures
        v@ == spec_body_close_tag(),
{
    let mut v: Vec<u8> = Vec::new();
    v.push('<' as u8);
    v.push('/' as u8);
    v.push('b' as u8);
    v.push('o' as u8);
    v.push('d' as u8);
    v.push('y' as u8);
    v.push('>' as u8);
    proof {
        assert(v@ =~= spec_body_close_tag());
    }
    v
}

fn comment_open_vec() -> (v: Vec<u8>)
    ensures
        v@ == spec_comment_open(),
{
    let mut v: Vec<u8> = Vec::new();
    v.push('<' as u8);
    v.push('!' as u8);
    v.push('-' as u8);
    v.push('-' as u8);
    proof {
        assert(v@ =~= spec_comment_open());
    }
    v
}

fn comment_close_vec() -> (v: Vec<u8>)
    ensures
        v@ == spec_comment_close(),
{
    let mut v: Vec<u8> = Vec::new();
    v.push('-' as u8);
    v.push('-' as u8);
    v.push('>' as u8);
    proof {
        assert(v@ =~= spec_comment_close());
    }
    v
}

/// Finds the insertion point of `input`: the last `</body>` outside HTML
/// comments, or the input length when there is none.
pub fn find_insert_idx(input: &Vec<u8>) -> (idx: usize)
    ensures
        idx as int == spec_insert_idx(input@),
{
    let close_tag = body_close_vec();
    let open_c = comment_open_vec();
    let close_c = comment_close_vec();

    let n = input.len();
    let mut inside: bool = false;
    let mut found: Option<usize> = None;
    let mut i: usize = 0;
    while i < n
        invariant
            0 <= i <= n,
            found matches Some(f) ==> f < i,
            spec_scan(input@, i as int, inside, spec_opt_int(found)) == spec_body_close_idx(
                input@,
            ),
        decreases n - i,
    {
        if !inside && bytes_match_at(input, i, &close_tag) {
            found = Some(i);
        } else if !inside && bytes_match_at(input, i, &open_c) {
            inside = true;
        } else if inside && bytes_match_at(input, i, &close_c) {
            inside = false;
        }
        i = i + 1;
    }
    match found {
        Some(f) => f,
        None => n,
    }
}

/// Inserts `tag` into `input` at the insertion point.
pub fn inject_with_tag(input: &Vec<u8>, tag: &Vec<u8>) -> (out: Vec<u8>)
    ensures
        out@ == spec_inject(input@, tag@),
{
    let idx = find_insert_idx(input);
    proof {
        lemma_insert_idx_range(input@);
    }
    let mut out = bytes_subrange(input, 0, idx);
    bytes_append(&mut out, tag);
    let rest = bytes_subrange(input, idx, input.len());
    bytes_append(&mut out, &rest);
    proof {
        assert(input@.take(idx as int) =~= input@.subrange(0, idx as int));
        assert(input@.skip(idx as int) =~= input@.subrange(idx as int, input@.len() as int));
    }
    out
}

/// The script tag for a given control path, as characters.
pub open spec fn spec_script_tag_chars(control_path: Seq<char>) -> Seq<char> {
    "<script src=\""@ + control_path + "/client.js\" defer></script>"@
}

/// The script tag for a given control path, as UTF-8 bytes.
pub open spec fn spec_script_tag(control_path: Seq<char>) -> Seq<u8> {
    encode_utf8(spec_script_tag_chars(control_path))
}

/// Builds the `<script>` tag pointing at the client script under the control
/// path.
pub fn script_tag_bytes(config: &Config) -> (r: Vec<u8>)
    ensures
        r@ == spec_script_tag(config.control_path@),
{
    let mut v = str_chars("<script src=\"");
    chars_append_str(&mut v, config.control_path.as_str());
    chars_append_str(&mut v, "/client.js\" defer></script>");
    let s = chars_to_string(&v);
    str_utf8_bytes(s.as_str())
}

/// Injects the client script tag into `input`: the tag is inserted right
/// before the last `</body>` outside HTML comments, or appended at the end
/// when no closing body tag exists.
pub fn into(input: &Vec<u8>, config: &Config) -> (out: Vec<u8>)
    ensures
        out@ == spec_inject(input@, spec_script_tag(config.control_path@)),
{
    let tag = script_tag_bytes(config);
    inject_with_tag(input, &tag)
}

/// The browser-side client, with `{{ control_path }}` substituted. The script
/// opens a WebSocket back to the control plane and reacts to `reload` and
/// `message` frames.
pub const CLIENT_JS_TEMPLATE: &'static str = r#"(function () {
  "use strict";
  var controlPath = "{{ control_path }}";
  var scheme = location.protocol === "https:" ? "wss" : "ws";
  var overlay = null;

  function showMessage(text) {
    if (overlay === null) {
      overlay = document.createElement("div");
      overlay.style.cssText = "position:fixed;top:0;left:0;right:0;z-index:99999;"
        + "background:#222;color:#eee;font:14px monospace;padding:8px;";
      document.body.appendChild(overlay);
    }
    overlay.innerHTML = text;
  }

  function connect() {
    var socket = new WebSocket(scheme + "://" + location.host + controlPath);
    socket.onmessage = function (ev) {
      var data = ev.data;
      if (data === "reload") {
        location.reload();
      } else if (data.indexOf("message\n") === 0) {
        showMessage(data.slice(8));
      }
    };
    socket.onclose = function () {
      setTimeout(connect, 1000);
    };
  }

  connect();
})();
"#;

/// Returns the client script for this configuration: the template with every
/// `{{ control_path }}` placeholder replaced by the configured control path.
pub fn script(config: &Config) -> (r: String)
    ensures
        r@ == spec_replace_all(CLIENT_JS_TEMPLATE@, "{{ control_path }}"@, config.control_path@),
{
    let tpl = str_chars(CLIENT_JS_TEMPLATE);
    let pat = str_chars("{{ control_path }}");
    let repl = str_chars(config.control_path.as_str());
    let out = replace_all(&tpl, &pat, &repl);
    chars_to_string(&out)
}

} // verus!
