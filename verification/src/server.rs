//! Response construction for the static-asset server: MIME guessing,
//! reload-script injection into HTML bodies, error pages, the built-in
//! asset lookup, link formatting, and the bind-retry decision.
use vstd::prelude::*;
use vstd::string::*;
use vstd::utf8::{decode_utf8, decode_utf8_encode_utf8, encode_utf8, valid_utf8};

use crate::static_files::{
    dir_link_svg, dir_svg, entry_template, error_template, file_link_svg, file_svg,
    get_dir_link_svg, get_dir_svg, get_entry_html, get_error_html, get_file_link_svg,
    get_file_svg, get_index_css, get_listing_html, get_unknown_svg, get_websocket_html,
    index_css, listing_template, unknown_svg, websocket_template,
};
use crate::strutil::{
    dec_seq, escape_html, escape_seq, placeholder, render, replace_seq, str_eq, u64_to_dec,
};

verus! {

/// The process-wide fixed configuration, set once at startup and read
/// everywhere: the canonical served root, the advertised `host:port`, and
/// whether watching and script injection are enabled.
pub struct ServerContext {
    pub root: String,
    pub addr: String,
    pub watch: bool,
}

impl ServerContext {
    /// Fixes the configuration for the process lifetime.
    pub fn new(root: String, addr: String, watch: bool) -> (r: ServerContext)
        ensures
            r.root == root,
            r.addr == addr,
            r.watch == watch,
    {
        ServerContext { root, addr, watch }
    }
}

/// The body of an HTTP response: decoded text or raw file bytes.
pub enum ResponseBody {
    Text(String),
    Bytes(Vec<u8>),
}

/// A computed HTTP response: status code, content type, body.
pub struct Response {
    pub status: u16,
    pub content_type: String,
    pub body: ResponseBody,
}

/// What reading the resolved target yielded; error variants carry the
/// message to display.
pub enum ReadOutcome {
    Loaded(Vec<u8>),
    NotFound(String),
    Failed(String),
}

/// True iff the content type is HTML.
pub open spec fn html_mime(mime: Seq<char>) -> bool {
    mime == "text/html"@
}

/// The reload script fragment with the server's advertised address filled in.
pub open spec fn script_seq(addr: Seq<char>) -> Seq<char> {
    replace_seq(websocket_template(), placeholder("addr"@), addr)
}

/// The reload script fragment for the given advertised address.
pub fn reload_script(addr: &str) -> (r: String)
    ensures
        r@ == script_seq(addr@),
{
    render(get_websocket_html(), "addr", addr)
}

/// The HTML error page: the script slot filled iff watch mode is on, the
/// message escaped.
pub open spec fn error_page_seq(msg: Seq<char>, watch: bool, addr: Seq<char>) -> Seq<char> {
    let script = if watch {
        script_seq(addr)
    } else {
        Seq::<char>::empty()
    };
    replace_seq(
        replace_seq(error_template(), placeholder("script"@), script),
        placeholder("message"@),
        escape_seq(msg),
    )
}

/// A plain-text internal-failure response carrying the given message.
pub open spec fn is_internal_error(r: Response, msg: Seq<char>) -> bool {
    &&& r.status == 500
    &&& r.content_type@ == "text/plain"@
    &&& r.body matches ResponseBody::Text(s) && s@ == msg
}

/// Builds the internal-failure response for an error message.
pub fn internal_err(message: &str) -> (r: Response)
    ensures
        is_internal_error(r, message@),
{
    Response {
        status: 500,
        content_type: String::from_str("text/plain"),
        body: ResponseBody::Text(String::from_str(message)),
    }
}

/// An error response as the asset server sends it: the given status, the
/// negotiated content type; an HTML error page for HTML responses and an
/// empty body otherwise.
pub open spec fn is_error_response(
    r: Response,
    status: int,
    mime: Seq<char>,
    msg: Seq<char>,
    watch: bool,
    addr: Seq<char>,
) -> bool {
    &&& r.status == status
    &&& r.content_type@ == mime
    &&& if html_mime(mime) {
        r.body matches ResponseBody::Text(s) && s@ == error_page_seq(msg, watch, addr)
    } else {
        r.body matches ResponseBody::Bytes(b) && b@ == Seq::<u8>::empty()
    }
}

/// The message used when an HTML file cannot be decoded for injection.
pub open spec fn invalid_utf8_message() -> Seq<char> {
    "file is not valid UTF-8"@
}

/// How the asset server answers a read outcome: a 200 with the file's
/// bytes — the reload fragment appended when the response is HTML and
/// watch mode is on — a 404 or 500 error page, or an internal failure when
/// an HTML file is not decodable text.
pub open spec fn response_for(
    r: Response,
    mime: Seq<char>,
    read: ReadOutcome,
    watch: bool,
    addr: Seq<char>,
) -> bool {
    match read {
        ReadOutcome::Loaded(bytes) => {
            if html_mime(mime) && watch {
                if valid_utf8(bytes@) {
                    &&& r.status == 200
                    &&& r.content_type@ == mime
                    &&& r.body matches ResponseBody::Text(s) && s@ == decode_utf8(bytes@)
                        + script_seq(addr)
                } else {
                    is_internal_error(r, invalid_utf8_message())
                }
            } else {
                &&& r.status == 200
                &&& r.content_type@ == mime
                &&& r.body matches ResponseBody::Bytes(b) && b@ == bytes@
            }
        },
        ReadOutcome::NotFound(msg) => is_error_response(r, 404, mime, msg@, watch, addr),
        ReadOutcome::Failed(msg) => is_error_response(r, 500, mime, msg@, watch, addr),
    }
}

/// The MIME type that `mime_guess` derives from a path, `text/plain` when
/// it has no guess.
pub uninterp spec fn mime_guess_of(path: Seq<char>) -> Seq<char>;

/// Relies on `mime_guess::from_path(..).first_or_text_plain()`: the guess
/// is derived from the path's extension alone, so it is a function of the
/// path.
#[verifier::external_body]
fn guess_mime_type(path: &str) -> (r: String)
    ensures
        r@ == mime_guess_of(path@),
{
    mime_guess::from_path(path).first_or_text_plain().as_ref().to_string()
}

/// Relies on `String::from_utf8`: it succeeds exactly on valid UTF-8 input
/// and decodes the bytes to the characters they encode.
#[verifier::external_body]
fn bytes_to_text(bytes: Vec<u8>) -> (r: Result<String, ()>)
    ensures
        r is Ok <==> valid_utf8(bytes@),
        r matches Ok(s) ==> s@ == decode_utf8(bytes@),
{
    match String::from_utf8(bytes) {
        Ok(s) => Ok(s),
        Err(_) => Err(()),
    }
}

/// Builds the error response for a failed read.
fn error_response(status: u16, mime: String, msg: &str, watch: bool, addr: &str) -> (r: Response)
    ensures
        is_error_response(r, status as int, mime@, msg@, watch, addr@),
{
    let is_html = str_eq(mime.as_str(), "text/html");
    if is_html {
        let script = if watch {
            reload_script(addr)
        } else {
            String::new()
        };
        let page = render(get_error_html(), "script", script.as_str());
        let page = render(page, "message", escape_html(msg).as_str());
        Response { status, content_type: mime, body: ResponseBody::Text(page) }
    } else {
        Response { status, content_type: mime, body: ResponseBody::Bytes(Vec::new()) }
    }
}

/// Builds the response for a read outcome under an already-negotiated
/// content type.
pub fn respond_with_mime(mime: String, read: ReadOutcome, watch: bool, addr: &str) -> (r:
    Response)
    ensures
        response_for(r, mime@, read, watch, addr@),
{
    let is_html = str_eq(mime.as_str(), "text/html");
    match read {
        ReadOutcome::Loaded(bytes) => {
            if is_html && watch {
                match bytes_to_text(bytes) {
                    Ok(text) => {
                        let script = reload_script(addr);
                        let mut body = text;
                        body.append(script.as_str());
                        Response {
                            status: 200,
                            content_type: mime,
                            body: ResponseBody::Text(body),
                        }
                    },
                    Err(_) => internal_err("file is not valid UTF-8"),
                }
            } else {
                Response { status: 200, content_type: mime, body: ResponseBody::Bytes(bytes) }
            }
        },
        ReadOutcome::NotFound(msg) => error_response(404, mime, msg.as_str(), watch, addr),
        ReadOutcome::Failed(msg) => error_response(500, mime, msg.as_str(), watch, addr),
    }
}

/// Builds the response for a read outcome, guessing the content type from
/// the target path's extension.
pub fn respond_for_path(path: &str, read: ReadOutcome, watch: bool, addr: &str) -> (r: Response)
    ensures
        response_for(r, mime_guess_of(path@), read, watch, addr@),
{
    let mime = guess_mime_type(path);
    respond_with_mime(mime, read, watch, addr)
}

proof fn lemma_encode_concat(a: Seq<char>, b: Seq<char>)
    ensures
        encode_utf8(a + b) == encode_utf8(a) + encode_utf8(b),
    decreases a.len(),
{
    if a.len() == 0 {
        assert(a + b =~= b);
        assert(encode_utf8(a) =~= Seq::<u8>::empty());
        assert(encode_utf8(a) + encode_utf8(b) =~= encode_utf8(b));
    } else {
        assert((a + b).len() > 0);
        assert((a + b)[0] == a[0]);
        assert((a + b).drop_first() =~= a.drop_first() + b);
        lemma_encode_concat(a.drop_first(), b);
        assert(vstd::utf8::encode_scalar(a[0] as u32) + (encode_utf8(a.drop_first())
            + encode_utf8(b)) =~= (vstd::utf8::encode_scalar(a[0] as u32) + encode_utf8(
            a.drop_first(),
        )) + encode_utf8(b));
    }
}

/// Injection is exact at the byte level: when watch mode appends the
/// reload fragment to a decodable HTML file, the response body re-encodes
/// to the file's own bytes followed by the fragment's bytes — the served
/// content is the file's content, nothing altered, plus the fragment.
pub proof fn lemma_injected_body_bytes(bytes: Seq<u8>, addr: Seq<char>)
    requires
        valid_utf8(bytes),
    ensures
        encode_utf8(decode_utf8(bytes) + script_seq(addr)) == bytes + encode_utf8(
            script_seq(addr),
        ),
{
    lemma_encode_concat(decode_utf8(bytes), script_seq(addr));
    decode_utf8_encode_utf8(bytes);
}

/// The MIME type the built-in asset router serves for an extension.
pub open spec fn mime_type_seq(ext: Seq<char>) -> Seq<char> {
    if ext == "css"@ {
        "text/css"@
    } else if ext == "html"@ {
        "text/html"@
    } else if ext == "svg"@ {
        "image/svg+xml"@
    } else {
        "text/plain"@
    }
}

/// Maps a built-in asset's extension to its MIME type, `text/plain` for
/// anything unknown.
pub fn mime_type(ext: &str) -> (r: &'static str)
    ensures
        r@ == mime_type_seq(ext@),
{
    if str_eq(ext, "css") {
        "text/css"
    } else if str_eq(ext, "html") {
        "text/html"
    } else if str_eq(ext, "svg") {
        "image/svg+xml"
    } else {
        "text/plain"
    }
}

/// The content and MIME type of each built-in asset, by name.
pub open spec fn builtin_asset_spec(name: Seq<char>) -> Option<(Seq<char>, Seq<char>)> {
    if name == "index.css"@ {
        Some((index_css(), "text/css"@))
    } else if name == "entry.html"@ {
        Some((entry_template(), "text/html"@))
    } else if name == "listing.html"@ {
        Some((listing_template(), "text/html"@))
    } else if name == "dir.svg"@ {
        Some((dir_svg(), "image/svg+xml"@))
    } else if name == "file.svg"@ {
        Some((file_svg(), "image/svg+xml"@))
    } else if name == "dir-link.svg"@ {
        Some((dir_link_svg(), "image/svg+xml"@))
    } else if name == "file-link.svg"@ {
        Some((file_link_svg(), "image/svg+xml"@))
    } else if name == "unknown.svg"@ {
        Some((unknown_svg(), "image/svg+xml"@))
    } else {
        None
    }
}

/// Serves a built-in asset by name from the fixed lookup, never from the
/// filesystem; `None` for a name outside the table.
pub fn builtin_asset(name: &str) -> (r: Option<Response>)
    ensures
        match builtin_asset_spec(name@) {
            Some(asset) => r matches Some(resp) && resp.status == 200 && (resp.content_type@
                == asset.1) && (resp.body matches ResponseBody::Text(s) && s@ == asset.0),
            None => r is None,
        },
{
    proof {
        reveal_strlit("css");
        reveal_strlit("html");
        reveal_strlit("svg");
        assert("css"@.len() == 3);
        assert("html"@.len() == 4);
        assert("svg"@.len() == 3);
        assert("svg"@[0] == 's' && "css"@[0] == 'c');
        assert(mime_type_seq("css"@) == "text/css"@);
        assert(mime_type_seq("html"@) == "text/html"@);
        assert(mime_type_seq("svg"@) == "image/svg+xml"@);
    }
    let (content, ct): (String, &'static str) = if str_eq(name, "index.css") {
        (get_index_css(), mime_type("css"))
    } else if str_eq(name, "entry.html") {
        (get_entry_html(), mime_type("html"))
    } else if str_eq(name, "listing.html") {
        (get_listing_html(), mime_type("html"))
    } else if str_eq(name, "dir.svg") {
        (get_dir_svg(), mime_type("svg"))
    } else if str_eq(name, "file.svg") {
        (get_file_svg(), mime_type("svg"))
    } else if str_eq(name, "dir-link.svg") {
        (get_dir_link_svg(), mime_type("svg"))
    } else if str_eq(name, "file-link.svg") {
        (get_file_link_svg(), mime_type("svg"))
    } else if str_eq(name, "unknown.svg") {
        (get_unknown_svg(), mime_type("svg"))
    } else {
        return None;
    };
    Some(Response {
        status: 200,
        content_type: String::from_str(ct),
        body: ResponseBody::Text(content),
    })
}

/// Where a request for a directory is routed: its `index.html` when
/// present, the generated listing otherwise; a file is served directly.
#[derive(Clone, Copy, Debug, PartialEq, Eq, Structural)]
pub enum ServePlan {
    ServeIndex,
    ServeListing,
    ServeFile,
}

/// The routing decision for a resolved target.
pub open spec fn plan_spec(is_dir: bool, has_index: bool) -> ServePlan {
    if is_dir {
        if has_index {
            ServePlan::ServeIndex
        } else {
            ServePlan::ServeListing
        }
    } else {
        ServePlan::ServeFile
    }
}

/// Decides how to serve a resolved target: a directory's `index.html` when
/// it has one, its listing otherwise, the file itself for a non-directory.
pub fn plan_for_target(is_dir: bool, has_index: bool) -> (r: ServePlan)
    ensures
        r == plan_spec(is_dir, has_index),
{
    if is_dir {
        if has_index {
            ServePlan::ServeIndex
        } else {
            ServePlan::ServeListing
        }
    } else {
        ServePlan::ServeFile
    }
}

/// How an attempt to bind the listen address ended.
#[derive(Clone, Copy, Debug, PartialEq, Eq, Structural)]
pub enum BindOutcome {
    Bound,
    AddrInUse,
    OtherFailure,
}

/// What to do after a bind attempt.
#[derive(Clone, Copy, Debug, PartialEq, Eq, Structural)]
pub enum BindAction {
    Proceed,
    RetryNextPort(u16),
    Fail,
}

/// The bind-retry rule: address-in-use moves to the next port while one
/// exists; any other failure, or port exhaustion, aborts startup.
pub open spec fn bind_action_spec(outcome: BindOutcome, port: u16) -> BindAction {
    match outcome {
        BindOutcome::Bound => BindAction::Proceed,
        BindOutcome::AddrInUse => if port < 0xffff {
            BindAction::RetryNextPort((port + 1) as u16)
        } else {
            BindAction::Fail
        },
        BindOutcome::OtherFailure => BindAction::Fail,
    }
}

/// Decides the next step after a bind attempt.
pub fn next_bind_action(outcome: BindOutcome, port: u16) -> (r: BindAction)
    ensures
        r == bind_action_spec(outcome, port),
{
    match outcome {
        BindOutcome::Bound => BindAction::Proceed,
        BindOutcome::AddrInUse => if port < 0xffff {
            BindAction::RetryNextPort(port + 1)
        } else {
            BindAction::Fail
        },
        BindOutcome::OtherFailure => BindAction::Fail,
    }
}

/// `host:port`, the host bracketed for IPv6.
pub open spec fn host_port_seq(host: Seq<char>, is_v6: bool, port: int) -> Seq<char> {
    (if is_v6 {
        seq!['['] + host + seq![']']
    } else {
        host
    }) + seq![':'] + dec_seq(port)
}

/// `http://host:port`, the host bracketed for IPv6.
pub open spec fn link_seq(host: Seq<char>, is_v6: bool, port: int) -> Seq<char> {
    "http://"@ + host_port_seq(host, is_v6, port)
}

/// Formats the advertised `host:port` address embedded in the reload
/// fragment.
pub fn format_host_port(host: &str, is_v6: bool, port: u16) -> (r: String)
    ensures
        r@ == host_port_seq(host@, is_v6, port as int),
{
    let mut out = String::new();
    if is_v6 {
        out.append("[");
        out.append(host);
        out.append("]");
        proof {
            reveal_strlit("[");
            reveal_strlit("]");
            assert(out@ =~= seq!['['] + host@ + seq![']']);
        }
    } else {
        out.append(host);
    }
    out.append(":");
    let port_dec = u64_to_dec(port as u64);
    out.append(port_dec.as_str());
    proof {
        reveal_strlit(":");
        assert(out@ =~= host_port_seq(host@, is_v6, port as int));
    }
    out
}

/// Formats the server's link, like `http://127.0.0.1:8080`.
pub fn format_link(host: &str, is_v6: bool, port: u16) -> (r: String)
    ensures
        r@ == link_seq(host@, is_v6, port as int),
{
    let mut out = String::from_str("http://");
    let hp = format_host_port(host, is_v6, port);
    out.append(hp.as_str());
    out
}

} // verus!
