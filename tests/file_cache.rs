use smn_server_site::file_cache::same_text;
use smn_server_site::{cache_key, FileCache};

fn pair(k: &str, v: &str) -> (String, String) {
    (k.to_string(), v.to_string())
}

#[test]
fn root_entry_gets_one_leading_slash() {
    assert_eq!(cache_key("", "index.html"), "/index.html");
}

#[test]
fn nested_entry_joins_its_prefix() {
    let dir = cache_key("", "css");
    assert_eq!(dir, "/css");
    assert_eq!(cache_key(&dir, "a.css"), "/css/a.css");
}

#[test]
fn doubled_slash_is_collapsed() {
    assert_eq!(cache_key("/", "x.html"), "/x.html");
    assert_eq!(cache_key("a//", "b"), "a//b");
    assert_eq!(cache_key("a//", "b"), "a///b".replace("//", "/"));
}

#[test]
fn unloaded_cache_finds_nothing() {
    let cache = FileCache::new();
    assert_eq!(cache.get("/index.html"), None);
}

#[test]
fn loaded_cache_finds_each_file() {
    let mut cache = FileCache::new();
    let files = vec![
        pair("/index.html", "<p>home</p>"),
        pair("/css/a.css", "body {}"),
        pair("/empty.txt", ""),
    ];
    cache.init(files);
    assert_eq!(cache.get("/index.html"), Some("<p>home</p>"));
    assert_eq!(cache.get("/css/a.css"), Some("body {}"));
    assert_eq!(cache.get("/empty.txt"), Some(""));
    assert_eq!(cache.get("/missing.html"), None);
    assert_eq!(cache.get("/css/a.cs"), None);
    assert_eq!(cache.get(""), None);
}

#[test]
fn later_entry_with_same_key_wins() {
    let mut cache = FileCache::new();
    let files = vec![pair("/a.html", "first"), pair("/b.html", "b"), pair("/a.html", "second")];
    cache.init(files);
    assert_eq!(cache.get("/a.html"), Some("second"));
    assert_eq!(cache.get("/b.html"), Some("b"));
}

#[test]
fn load_marks_cache_loaded() {
    let mut cache = FileCache::new();
    assert!(!cache.loaded());
    cache.init(vec![pair("/a.html", "a")]);
    assert!(cache.loaded());
    assert_eq!(cache.get("/a.html"), Some("a"));
}

#[test]
fn empty_load_counts_as_loaded() {
    let mut cache = FileCache::new();
    cache.init(Vec::new());
    assert!(cache.loaded());
    assert_eq!(cache.get("/a.html"), None);
    assert_eq!(cache.get("/"), None);
    assert_eq!(cache.get(""), None);
}

#[test]
fn text_comparison() {
    assert!(same_text("abc", "abc"));
    assert!(!same_text("abc", "abd"));
    assert!(!same_text("abc", "ab"));
    assert!(same_text("", ""));
}
