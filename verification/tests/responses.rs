use live_server::server::{
    builtin_asset, internal_err, next_bind_action, plan_for_target, respond_for_path,
    BindAction, BindOutcome, ReadOutcome, ResponseBody, ServePlan, ServerContext,
};
use live_server::static_files::{get_index_css, get_websocket_html};

const ADDR: &str = "127.0.0.1:8000";

fn script_for(addr: &str) -> String {
    get_websocket_html().replace("{{ addr }}", addr)
}

fn body_text(body: ResponseBody) -> String {
    match body {
        ResponseBody::Text(s) => s,
        ResponseBody::Bytes(_) => panic!("expected a text body"),
    }
}

fn body_bytes(body: ResponseBody) -> Vec<u8> {
    match body {
        ResponseBody::Bytes(b) => b,
        ResponseBody::Text(_) => panic!("expected a byte body"),
    }
}

#[test]
fn request() {
    let index_html = "<html>\n<head><title>t</title></head>\n<body>ok</body>\n</html>\n";
    let index_js = "console.log(\"loaded\");\n";

    // The directory has an index file, so it is served rather than listed.
    assert_eq!(plan_for_target(true, true), ServePlan::ServeIndex);

    // Requesting the index: 200, text/html, the file's content plus the
    // reload fragment carrying the bound address.
    let r = respond_for_path(
        "/root/index.html",
        ReadOutcome::Loaded(index_html.as_bytes().to_vec()),
        true,
        ADDR,
    );
    assert_eq!(r.status, 200);
    assert_eq!(r.content_type, "text/html");
    let expected = format!("{}{}", index_html, script_for(ADDR));
    assert_eq!(body_text(r.body), expected);

    // Requesting a script: exact bytes, no injection into non-HTML.
    let r = respond_for_path(
        "/root/index.js",
        ReadOutcome::Loaded(index_js.as_bytes().to_vec()),
        true,
        ADDR,
    );
    assert_eq!(r.status, 200);
    assert_eq!(r.content_type, "application/javascript");
    assert_eq!(body_bytes(r.body), index_js.as_bytes());

    // A missing HTML file: 404 with an HTML error page.
    let r = respond_for_path(
        "/root/404.html",
        ReadOutcome::NotFound("no such file".to_string()),
        true,
        ADDR,
    );
    assert_eq!(r.status, 404);
    assert_eq!(r.content_type, "text/html");
    let text = body_text(r.body);
    assert!(text.starts_with("<!DOCTYPE html>"));

    // A missing non-HTML file: 404, the guessed type still present, body
    // empty.
    let r = respond_for_path(
        "/root/favicon.ico",
        ReadOutcome::NotFound("no such file".to_string()),
        true,
        ADDR,
    );
    assert_eq!(r.status, 404);
    assert_eq!(r.content_type, "image/x-icon");
    assert!(body_bytes(r.body).is_empty());
}

#[test]
fn no_injection_when_watch_is_off() {
    let html = "<html><body>still</body></html>";
    let r = respond_for_path(
        "/root/page.html",
        ReadOutcome::Loaded(html.as_bytes().to_vec()),
        false,
        ADDR,
    );
    assert_eq!(r.status, 200);
    assert_eq!(r.content_type, "text/html");
    assert_eq!(body_bytes(r.body), html.as_bytes());
}

#[test]
fn error_page_reload_capable_only_in_watch_mode() {
    let r = respond_for_path(
        "/root/gone.html",
        ReadOutcome::NotFound("gone".to_string()),
        true,
        ADDR,
    );
    assert!(body_text(r.body).contains(&script_for(ADDR)));

    let r = respond_for_path(
        "/root/gone.html",
        ReadOutcome::NotFound("gone".to_string()),
        false,
        ADDR,
    );
    assert!(!body_text(r.body).contains("WebSocket"));
}

#[test]
fn error_page_escapes_the_message() {
    let r = respond_for_path(
        "/root/gone.html",
        ReadOutcome::NotFound("<script>bad()</script>".to_string()),
        false,
        ADDR,
    );
    let text = body_text(r.body);
    assert!(text.contains("&lt;script&gt;bad()&lt;/script&gt;"));
    assert!(!text.contains("<script>bad()"));
}

#[test]
fn read_failure_yields_500() {
    let r = respond_for_path(
        "/root/locked.html",
        ReadOutcome::Failed("permission denied".to_string()),
        false,
        ADDR,
    );
    assert_eq!(r.status, 500);
    assert_eq!(r.content_type, "text/html");
    let r = respond_for_path(
        "/root/locked.bin",
        ReadOutcome::Failed("permission denied".to_string()),
        false,
        ADDR,
    );
    assert_eq!(r.status, 500);
    assert!(body_bytes(r.body).is_empty());
}

#[test]
fn undecodable_html_yields_internal_error() {
    let r = respond_for_path(
        "/root/bad.html",
        ReadOutcome::Loaded(vec![0xff, 0xfe, 0x80]),
        true,
        ADDR,
    );
    assert_eq!(r.status, 500);
    assert_eq!(r.content_type, "text/plain");
    assert_eq!(body_text(r.body), "file is not valid UTF-8");
}

#[test]
fn internal_err_shape() {
    let r = internal_err("boom");
    assert_eq!(r.status, 500);
    assert_eq!(r.content_type, "text/plain");
    assert_eq!(body_text(r.body), "boom");
}

#[test]
fn builtin_assets_come_from_the_fixed_table() {
    let r = builtin_asset("index.css").unwrap();
    assert_eq!(r.status, 200);
    assert_eq!(r.content_type, "text/css");
    assert_eq!(body_text(r.body), get_index_css());

    let r = builtin_asset("dir.svg").unwrap();
    assert_eq!(r.content_type, "image/svg+xml");

    assert!(builtin_asset("nope.txt").is_none());
    assert!(builtin_asset("../index.css").is_none());
}

#[test]
fn routing_plans() {
    assert_eq!(plan_for_target(true, true), ServePlan::ServeIndex);
    assert_eq!(plan_for_target(true, false), ServePlan::ServeListing);
    assert_eq!(plan_for_target(false, true), ServePlan::ServeFile);
    assert_eq!(plan_for_target(false, false), ServePlan::ServeFile);
}

#[test]
fn bind_retry_on_address_in_use() {
    assert_eq!(next_bind_action(BindOutcome::Bound, 8000), BindAction::Proceed);
    assert_eq!(
        next_bind_action(BindOutcome::AddrInUse, 8000),
        BindAction::RetryNextPort(8001)
    );
    assert_eq!(next_bind_action(BindOutcome::AddrInUse, 65535), BindAction::Fail);
    assert_eq!(next_bind_action(BindOutcome::OtherFailure, 8000), BindAction::Fail);
}

#[test]
fn context_is_fixed_at_startup() {
    let ctx = ServerContext::new("/root".to_string(), ADDR.to_string(), true);
    assert_eq!(ctx.root, "/root");
    assert_eq!(ctx.addr, ADDR);
    assert!(ctx.watch);
}
