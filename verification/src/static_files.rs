//! Built-in assets: the listing page templates, the stylesheet, the entry
//! icons, and the reload script fragment. They form a fixed name-to-content
//! lookup — never touched by filesystem traversal — and each getter's
//! contract pins the exact content so the renderer's contracts compose.
use vstd::prelude::*;
use vstd::string::*;

verus! {

/// Content of the page template for a directory listing.
pub open spec fn listing_template() -> Seq<char> {
    "<!DOCTYPE html>\n<html>\n<head>\n<meta charset=\"utf-8\">\n<title>Index of {{ directory }}</title>\n<link rel=\"stylesheet\" href=\"/_live-server/index.css\">\n</head>\n<body>\n<h1>Index of {{ directory }}</h1>\n<ul class=\"listing\">\n{{ entries }}</ul>\n</body>\n</html>\n"@
}

/// Content of the row template for one listing entry.
pub open spec fn entry_template() -> Seq<char> {
    "<li class=\"entry\"><span class=\"icon\">{{ icon }}</span><a href=\"{{ path }}\">{{ name }}</a><span class=\"size\">{{ size }}</span><span class=\"modified\">{{ modified }}</span></li>\n"@
}

/// Content of the reload script fragment appended to HTML responses.
pub open spec fn websocket_template() -> Seq<char> {
    "<script>\nconst liveReloadSocket = new WebSocket(\"ws://{{ addr }}/live-server-ws\");\nliveReloadSocket.onmessage = () => location.reload();\n</script>"@
}

/// Content of the page template for an HTML error response.
pub open spec fn error_template() -> Seq<char> {
    "<!DOCTYPE html>\n<html>\n<head>\n<meta charset=\"utf-8\">\n<title>Error</title>\n</head>\n<body>\n<h1>Error</h1>\n<p>{{ message }}</p>\n{{ script }}\n</body>\n</html>\n"@
}

/// Content of the listing stylesheet.
pub open spec fn index_css() -> Seq<char> {
    "body { font-family: sans-serif; margin: 2em; }\nul.listing { list-style: none; padding: 0; }\nli.entry { display: flex; gap: 1em; padding: 0.25em 0; }\nli.entry .icon svg { width: 1em; height: 1em; }\nli.entry .size, li.entry .modified { color: #666; }\n"@
}

/// Icon for a directory.
pub open spec fn dir_svg() -> Seq<char> {
    "<svg xmlns=\"http://www.w3.org/2000/svg\" viewBox=\"0 0 16 16\"><path d=\"M1 3h5l2 2h7v8H1z\"/></svg>"@
}

/// Icon for a regular file.
pub open spec fn file_svg() -> Seq<char> {
    "<svg xmlns=\"http://www.w3.org/2000/svg\" viewBox=\"0 0 16 16\"><path d=\"M3 1h7l3 3v11H3z\"/></svg>"@
}

/// Icon for a symlink to a directory.
pub open spec fn dir_link_svg() -> Seq<char> {
    "<svg xmlns=\"http://www.w3.org/2000/svg\" viewBox=\"0 0 16 16\"><path d=\"M1 3h5l2 2h7v8H1z\"/><path d=\"M5 12l4-4M9 8v3M9 8H6\"/></svg>"@
}

/// Icon for a symlink to a file.
pub open spec fn file_link_svg() -> Seq<char> {
    "<svg xmlns=\"http://www.w3.org/2000/svg\" viewBox=\"0 0 16 16\"><path d=\"M3 1h7l3 3v11H3z\"/><path d=\"M5 12l4-4M9 8v3M9 8H6\"/></svg>"@
}

/// Icon for an entry of unknown kind.
pub open spec fn unknown_svg() -> Seq<char> {
    "<svg xmlns=\"http://www.w3.org/2000/svg\" viewBox=\"0 0 16 16\"><circle cx=\"8\" cy=\"8\" r=\"6\"/><text x=\"8\" y=\"11\" text-anchor=\"middle\">?</text></svg>"@
}

/// The listing page template.
pub fn get_listing_html() -> (r: String)
    ensures
        r@ == listing_template(),
{
    String::from_str(
        "<!DOCTYPE html>\n<html>\n<head>\n<meta charset=\"utf-8\">\n<title>Index of {{ directory }}</title>\n<link rel=\"stylesheet\" href=\"/_live-server/index.css\">\n</head>\n<body>\n<h1>Index of {{ directory }}</h1>\n<ul class=\"listing\">\n{{ entries }}</ul>\n</body>\n</html>\n",
    )
}

/// The listing row template.
pub fn get_entry_html() -> (r: String)
    ensures
        r@ == entry_template(),
{
    String::from_str(
        "<li class=\"entry\"><span class=\"icon\">{{ icon }}</span><a href=\"{{ path }}\">{{ name }}</a><span class=\"size\">{{ size }}</span><span class=\"modified\">{{ modified }}</span></li>\n",
    )
}

/// The reload script fragment, with its address placeholder unfilled.
pub fn get_websocket_html() -> (r: String)
    ensures
        r@ == websocket_template(),
{
    String::from_str(
        "<script>\nconst liveReloadSocket = new WebSocket(\"ws://{{ addr }}/live-server-ws\");\nliveReloadSocket.onmessage = () => location.reload();\n</script>",
    )
}

/// The HTML error page template.
pub fn get_error_html() -> (r: String)
    ensures
        r@ == error_template(),
{
    String::from_str(
        "<!DOCTYPE html>\n<html>\n<head>\n<meta charset=\"utf-8\">\n<title>Error</title>\n</head>\n<body>\n<h1>Error</h1>\n<p>{{ message }}</p>\n{{ script }}\n</body>\n</html>\n",
    )
}

/// The listing stylesheet.
pub fn get_index_css() -> (r: String)
    ensures
        r@ == index_css(),
{
    String::from_str(
        "body { font-family: sans-serif; margin: 2em; }\nul.listing { list-style: none; padding: 0; }\nli.entry { display: flex; gap: 1em; padding: 0.25em 0; }\nli.entry .icon svg { width: 1em; height: 1em; }\nli.entry .size, li.entry .modified { color: #666; }\n",
    )
}

/// The directory icon.
pub fn get_dir_svg() -> (r: String)
    ensures
        r@ == dir_svg(),
{
    String::from_str(
        "<svg xmlns=\"http://www.w3.org/2000/svg\" viewBox=\"0 0 16 16\"><path d=\"M1 3h5l2 2h7v8H1z\"/></svg>",
    )
}

/// The file icon.
pub fn get_file_svg() -> (r: String)
    ensures
        r@ == file_svg(),
{
    String::from_str(
        "<svg xmlns=\"http://www.w3.org/2000/svg\" viewBox=\"0 0 16 16\"><path d=\"M3 1h7l3 3v11H3z\"/></svg>",
    )
}

/// The directory-symlink icon.
pub fn get_dir_link_svg() -> (r: String)
    ensures
        r@ == dir_link_svg(),
{
    String::from_str(
        "<svg xmlns=\"http://www.w3.org/2000/svg\" viewBox=\"0 0 16 16\"><path d=\"M1 3h5l2 2h7v8H1z\"/><path d=\"M5 12l4-4M9 8v3M9 8H6\"/></svg>",
    )
}

/// The file-symlink icon.
pub fn get_file_link_svg() -> (r: String)
    ensures
        r@ == file_link_svg(),
{
    String::from_str(
        "<svg xmlns=\"http://www.w3.org/2000/svg\" viewBox=\"0 0 16 16\"><path d=\"M3 1h7l3 3v11H3z\"/><path d=\"M5 12l4-4M9 8v3M9 8H6\"/></svg>",
    )
}

/// The unknown-kind icon.
pub fn get_unknown_svg() -> (r: String)
    ensures
        r@ == unknown_svg(),
{
    String::from_str(
        "<svg xmlns=\"http://www.w3.org/2000/svg\" viewBox=\"0 0 16 16\"><circle cx=\"8\" cy=\"8\" r=\"6\"/><text x=\"8\" y=\"11\" text-anchor=\"middle\">?</text></svg>",
    )
}

} // verus!
