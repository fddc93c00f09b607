use live_server::listing::format_file_size;
use live_server::server::{format_host_port, format_link, mime_type};
use live_server::strutil::{escape_html, render, u64_to_dec};

#[test]
fn size_formatting_examples() {
    assert_eq!(format_file_size(0), "0 B");
    assert_eq!(format_file_size(1024), "1 KB");
    assert_eq!(format_file_size(1536), "1.5 KB");
}

#[test]
fn size_formatting_more_cases() {
    assert_eq!(format_file_size(1), "1 B");
    assert_eq!(format_file_size(1023), "1023 B");
    assert_eq!(format_file_size(1075), "1.05 KB");
    assert_eq!(format_file_size(1048576), "1 MB");
    assert_eq!(format_file_size(1073741824), "1 GB");
    assert_eq!(format_file_size(u64::MAX), "16 EB");
}

#[test]
fn escape_html_neutralizes_markup() {
    assert_eq!(escape_html("<script>"), "&lt;script&gt;");
    assert_eq!(escape_html("a&b"), "a&amp;b");
    assert_eq!(escape_html("plain name.txt"), "plain name.txt");
    assert_eq!(escape_html(""), "");
    assert_eq!(escape_html("<<>>&&"), "&lt;&lt;&gt;&gt;&amp;&amp;");
}

#[test]
fn render_replaces_every_placeholder() {
    assert_eq!(
        render("x {{ name }} y".to_string(), "name", "<b>"),
        "x <b> y"
    );
    assert_eq!(
        render("{{ a }}-{{ a }}".to_string(), "a", "1"),
        "1-1"
    );
    assert_eq!(
        render("nothing here".to_string(), "a", "1"),
        "nothing here"
    );
    // A partial or differently-spaced marker is left alone.
    assert_eq!(render("{{a}}".to_string(), "a", "1"), "{{a}}");
}

#[test]
fn decimal_rendering() {
    assert_eq!(u64_to_dec(0), "0");
    assert_eq!(u64_to_dec(7), "7");
    assert_eq!(u64_to_dec(12345), "12345");
    assert_eq!(u64_to_dec(u64::MAX), "18446744073709551615");
}

#[test]
fn link_formatting() {
    assert_eq!(format_link("127.0.0.1", false, 8000), "http://127.0.0.1:8000");
    assert_eq!(format_link("::1", true, 80), "http://[::1]:80");
    assert_eq!(format_host_port("192.168.1.7", false, 8080), "192.168.1.7:8080");
    assert_eq!(format_host_port("fe80::1", true, 3000), "[fe80::1]:3000");
}

#[test]
fn builtin_mime_types() {
    assert_eq!(mime_type("css"), "text/css");
    assert_eq!(mime_type("html"), "text/html");
    assert_eq!(mime_type("svg"), "image/svg+xml");
    assert_eq!(mime_type("png"), "text/plain");
}
