use smn_server_site::plugin::{HELLO_PAGE, OK_HEADER};
use smn_server_site::server::NOT_FOUND;
use smn_server_site::{FileCache, Plugin, PluginHelloWorld, PluginStaticFile, Request, Server};

const HELLO: &str = "HTTP/1.1 200 OK\r\nContent-Type: text/html; charset=utf-8\r\n\r\n<!DOCTYPE html><html><body><h1>Hello World Plugin</h1></body></html>";

fn static_first() -> Vec<Plugin> {
    vec![Plugin::StaticFile(PluginStaticFile), Plugin::HelloWorld(PluginHelloWorld)]
}

fn hello_first() -> Vec<Plugin> {
    vec![Plugin::HelloWorld(PluginHelloWorld), Plugin::StaticFile(PluginStaticFile)]
}

fn loaded(plugins: Vec<Plugin>, files: &[(&str, &str)]) -> Server {
    let mut server = Server::new("33030", plugins, "./static");
    let files = files.iter().map(|(k, v)| (k.to_string(), v.to_string())).collect();
    server.load_files(files);
    server
}

fn get(path: &str) -> Request {
    Request::new(format!("GET {} HTTP/1.1\r\nHost: localhost\r\n\r\n", path))
}

fn ok(payload: &str) -> String {
    format!("HTTP/1.1 200 OK\r\nContent-Type: text/html; charset=utf-8\r\n\r\n{}", payload)
}

#[test]
fn fixed_texts() {
    assert_eq!(NOT_FOUND, "HTTP/1.1 404 NOT FOUND\r\n\r\n");
    assert_eq!(format!("{}{}", OK_HEADER, HELLO_PAGE), HELLO);
}

#[test]
fn cached_file_is_served_by_static_plugin() {
    let server = loaded(static_first(), &[("/a.html", "<p>A</p>")]);
    assert_eq!(server.respond(&get("/a.html")).body, ok("<p>A</p>"));
}

#[test]
fn missing_file_is_served_by_hello_world() {
    let server = loaded(static_first(), &[("/a.html", "<p>A</p>")]);
    assert_eq!(server.respond(&get("/missing.html")).body, HELLO);
}

#[test]
fn root_is_served_as_index() {
    let server = loaded(static_first(), &[("/index.html", "<p>home</p>")]);
    let root = server.respond(&get("/")).body;
    assert_eq!(root, ok("<p>home</p>"));
    assert_eq!(root, server.respond(&get("/index.html")).body);
}

#[test]
fn root_without_index_falls_through() {
    let server = loaded(static_first(), &[("/a.html", "<p>A</p>")]);
    assert_eq!(server.respond(&get("/")).body, HELLO);
}

#[test]
fn no_match_gives_bare_not_found() {
    let server = loaded(static_first(), &[("/a.html", "<p>A</p>")]);
    let post = Request::new("POST /missing.html HTTP/1.1\r\n\r\n".to_string());
    assert_eq!(server.respond(&post).body, "HTTP/1.1 404 NOT FOUND\r\n\r\n");
}

#[test]
fn empty_chain_gives_bare_not_found() {
    let server = loaded(Vec::new(), &[("/a.html", "<p>A</p>")]);
    assert_eq!(server.respond(&get("/a.html")).body, "HTTP/1.1 404 NOT FOUND\r\n\r\n");
}

#[test]
fn empty_request_gives_bare_not_found() {
    let server = loaded(static_first(), &[("/a.html", "<p>A</p>")]);
    assert_eq!(server.handle_request(String::new()).body, "HTTP/1.1 404 NOT FOUND\r\n\r\n");
}

#[test]
fn order_of_chain_decides_overlapping_matches() {
    let files = [("/a.html", "<p>A</p>")];
    let first = loaded(static_first(), &files);
    let second = loaded(hello_first(), &files);
    assert_eq!(first.respond(&get("/a.html")).body, ok("<p>A</p>"));
    assert_eq!(second.respond(&get("/a.html")).body, HELLO);
    let post = Request::new("POST /b.html HTTP/1.1\r\n\r\n".to_string());
    assert_eq!(first.respond(&post).body, "HTTP/1.1 404 NOT FOUND\r\n\r\n");
    assert_eq!(second.respond(&post).body, "HTTP/1.1 404 NOT FOUND\r\n\r\n");
}

#[test]
fn static_plugin_serves_non_get_for_cached_file() {
    let server = loaded(static_first(), &[("/a.html", "<p>A</p>")]);
    let post = Request::new("POST /a.html HTTP/1.1\r\n\r\n".to_string());
    assert_eq!(server.respond(&post).body, ok("<p>A</p>"));
}

#[test]
fn raw_request_is_parsed_and_answered() {
    let server = loaded(static_first(), &[("/css/a.css", "body {}")]);
    let raw = "GET /css/a.css HTTP/1.1\r\nHost: localhost\r\n\r\n".to_string();
    assert_eq!(server.handle_request(raw).body, ok("body {}"));
}

#[test]
fn unloaded_server_serves_only_hello_world() {
    let server = Server::new("33030", static_first(), "./static");
    assert_eq!(server.respond(&get("/a.html")).body, HELLO);
}

#[test]
fn load_marks_server_loaded() {
    let mut server = Server::new("33030", static_first(), "./static");
    assert!(!server.loaded());
    server.load_files(vec![("/b.html".to_string(), "b".to_string())]);
    assert!(server.loaded());
    assert_eq!(server.respond(&get("/b.html")).body, ok("b"));
}

#[test]
fn server_keeps_port_and_root() {
    let server = Server::new("8080", static_first(), "/srv/www");
    assert_eq!(server.port(), "8080");
    assert_eq!(server.file_root(), "/srv/www");
}

#[test]
fn static_plugin_serves_missing_file_fragment() {
    let cache = FileCache::new();
    let plugin = PluginStaticFile;
    let req = get("/gone.html");
    assert!(!plugin.plugin_match(&req, &cache));
    assert_eq!(plugin.plugin_serve(&req, &cache).body, ok("<h1>File not found</h1>"));
}

#[test]
fn hello_world_wants_get_only() {
    let plugin = PluginHelloWorld;
    assert!(plugin.plugin_match(&get("/x")));
    assert!(!plugin.plugin_match(&Request::new("POST /x HTTP/1.1".to_string())));
    assert!(!plugin.plugin_match(&Request::new("get /x HTTP/1.1".to_string())));
    assert!(!plugin.plugin_match(&Request::new(String::new())));
    assert_eq!(plugin.plugin_serve(&get("/x")).body, HELLO);
}

#[test]
fn plugin_names() {
    assert_eq!(PluginStaticFile.plugin_name(), "StaticFile");
    assert_eq!(PluginHelloWorld.plugin_name(), "HelloWorld");
    assert_eq!(Plugin::StaticFile(PluginStaticFile).plugin_name(), "StaticFile");
    assert_eq!(Plugin::HelloWorld(PluginHelloWorld).plugin_name(), "HelloWorld");
}
