use devserver::assets::{same_bytes, AssetRecord, AssetSet, IncomingRequest};
use devserver::path::{normalize, path_length};

fn record(bytes: &[u8], content_type: &str) -> AssetRecord {
    AssetRecord::new(bytes.to_vec(), content_type.to_string())
}

fn bundle() -> AssetSet {
    let mut set = AssetSet::new("/index.html", record(b"<html></html>", "text/html"));
    set.insert("/app.js", record(b"console.log(1)", "application/javascript"));
    set
}

#[test]
fn known_path_gets_its_asset() {
    let set = bundle();
    let found = set.resolve("/app.js");
    assert_eq!(found.bytes, b"console.log(1)".to_vec());
    assert_eq!(found.content_type, "application/javascript");
}

#[test]
fn unknown_route_gets_the_index_document() {
    let set = bundle();
    let found = set.resolve("/unknown/route");
    assert_eq!(found.bytes, b"<html></html>".to_vec());
    assert_eq!(found.content_type, "text/html");
}

#[test]
fn root_gets_the_index_document() {
    let set = bundle();
    let found = set.resolve("/");
    assert_eq!(found.bytes, b"<html></html>".to_vec());
    assert_eq!(found.content_type, "text/html");
}

#[test]
fn index_path_gets_the_index_document() {
    let set = bundle();
    let found = set.resolve("/index.html");
    assert_eq!(found.bytes, b"<html></html>".to_vec());
    assert_eq!(found.content_type, "text/html");
}

#[test]
fn empty_target_gets_the_index_document() {
    let set = bundle();
    assert_eq!(set.resolve("").bytes, b"<html></html>".to_vec());
    assert_eq!(set.resolve("?v=1").bytes, b"<html></html>".to_vec());
    assert_eq!(set.resolve("#top").bytes, b"<html></html>".to_vec());
}

#[test]
fn query_string_is_left_out() {
    let set = bundle();
    let found = set.resolve("/app.js?v=1&w=2");
    assert_eq!(found.bytes, b"console.log(1)".to_vec());
    assert_eq!(found.content_type, "application/javascript");
}

#[test]
fn fragment_is_left_out() {
    let set = bundle();
    assert_eq!(set.resolve("/app.js#main").bytes, b"console.log(1)".to_vec());
    assert_eq!(set.resolve("/app.js#main?x").bytes, b"console.log(1)".to_vec());
    assert_eq!(set.resolve("/app.js?x#main").bytes, b"console.log(1)".to_vec());
}

#[test]
fn no_prefix_or_partial_match() {
    let set = bundle();
    assert_eq!(set.resolve("/app").content_type, "text/html");
    assert_eq!(set.resolve("/app.js/").content_type, "text/html");
    assert_eq!(set.resolve("/app.jsx").content_type, "text/html");
    assert_eq!(set.resolve("app.js").content_type, "text/html");
    assert_eq!(set.resolve("/APP.JS").content_type, "text/html");
}

#[test]
fn resolving_twice_gives_the_same_answer() {
    let set = bundle();
    for target in ["/app.js", "/nowhere", "/", "", "/app.js?q"] {
        let first = set.resolve(target);
        let second = set.resolve(target);
        assert_eq!(first.bytes, second.bytes);
        assert_eq!(first.content_type, second.content_type);
    }
    assert_eq!(set.len(), 2);
}

#[test]
fn resolve_bytes_agrees_with_resolve() {
    let set = bundle();
    assert_eq!(set.resolve_bytes(b"/app.js").bytes, b"console.log(1)".to_vec());
    assert_eq!(set.resolve_bytes(b"/missing").bytes, b"<html></html>".to_vec());
    assert_eq!(set.resolve_bytes(&[0x2f, 0xff, 0xfe]).content_type, "text/html");
}

#[test]
fn non_ascii_path_is_matched_whole() {
    let mut set = bundle();
    set.insert("/caf\u{e9}.txt", record(b"au lait", "text/plain"));
    assert_eq!(set.resolve("/caf\u{e9}.txt?x").bytes, b"au lait".to_vec());
    assert_eq!(set.resolve("/cafe.txt").content_type, "text/html");
}

#[test]
fn new_set_holds_the_index_alone() {
    let set = AssetSet::new("/index.html", record(b"home", "text/html"));
    assert_eq!(set.len(), 1);
    assert_eq!(set.index().bytes, b"home".to_vec());
    assert_eq!(set.resolve("/anything").bytes, b"home".to_vec());
    assert!(set.get(b"/index.html").is_some());
    assert!(set.get(b"/").is_none());
}

#[test]
fn index_path_is_normalized() {
    let set = AssetSet::new("/index.html?rev=3", record(b"home", "text/html"));
    assert_eq!(set.get(b"/index.html").unwrap().bytes, b"home".to_vec());
    assert!(set.get(b"/index.html?rev=3").is_none());
    let bare = AssetSet::new("", record(b"root", "text/html"));
    assert_eq!(bare.get(b"/").unwrap().bytes, b"root".to_vec());
}

#[test]
fn insert_adds_and_replaces() {
    let mut set = bundle();
    assert_eq!(set.len(), 2);
    set.insert("/style.css", record(b"body{}", "text/css"));
    assert_eq!(set.len(), 3);
    assert_eq!(set.resolve("/style.css").content_type, "text/css");
    set.insert("/app.js", record(b"console.log(2)", "text/javascript"));
    assert_eq!(set.len(), 3);
    assert_eq!(set.resolve("/app.js").bytes, b"console.log(2)".to_vec());
    assert_eq!(set.resolve("/app.js").content_type, "text/javascript");
    assert_eq!(set.resolve("/style.css").bytes, b"body{}".to_vec());
    assert_eq!(set.resolve("/nothing").bytes, b"<html></html>".to_vec());
}

#[test]
fn insert_under_the_index_path_replaces_the_index() {
    let mut set = bundle();
    set.insert("/index.html", record(b"<html>2</html>", "text/html; charset=utf-8"));
    assert_eq!(set.len(), 2);
    assert_eq!(set.index().bytes, b"<html>2</html>".to_vec());
    assert_eq!(set.resolve("/nothing").bytes, b"<html>2</html>".to_vec());
    assert_eq!(set.resolve("/nothing").content_type, "text/html; charset=utf-8");
}

#[test]
fn insert_normalizes_the_path() {
    let mut set = bundle();
    set.insert("/data.json?cache=no", record(b"{}", "application/json"));
    assert_eq!(set.get(b"/data.json").unwrap().bytes, b"{}".to_vec());
    assert_eq!(set.resolve("/data.json").content_type, "application/json");
    set.insert("", record(b"slash", "text/plain"));
    assert_eq!(set.resolve("/").bytes, b"slash".to_vec());
    assert_eq!(set.resolve("").bytes, b"slash".to_vec());
    assert_eq!(set.resolve("/other").bytes, b"<html></html>".to_vec());
}

#[test]
fn get_is_exact() {
    let set = bundle();
    assert_eq!(set.get(b"/app.js").unwrap().bytes, b"console.log(1)".to_vec());
    assert!(set.get(b"/app.js?v=1").is_none());
    assert!(set.get(b"").is_none());
    assert!(set.get(b"/unknown").is_none());
}

#[test]
fn normalize_cuts_query_and_fragment() {
    assert_eq!(normalize(b"/a/b"), b"/a/b".to_vec());
    assert_eq!(normalize(b"/a/b?c=d"), b"/a/b".to_vec());
    assert_eq!(normalize(b"/a/b#c"), b"/a/b".to_vec());
    assert_eq!(normalize(b"/a#b?c"), b"/a".to_vec());
    assert_eq!(normalize(b"/a?b#c"), b"/a".to_vec());
    assert_eq!(normalize(b"/a?"), b"/a".to_vec());
    assert_eq!(normalize(b""), b"/".to_vec());
    assert_eq!(normalize(b"?"), b"/".to_vec());
    assert_eq!(normalize(b"#x"), b"/".to_vec());
    assert_eq!(normalize(b"/"), b"/".to_vec());
}

#[test]
fn normalize_is_idempotent() {
    for target in [&b"/a?b"[..], b"", b"/x/y#z", b"plain", b"??"] {
        let once = normalize(target);
        assert_eq!(normalize(&once), once);
    }
}

#[test]
fn path_length_stops_at_the_first_delimiter() {
    assert_eq!(path_length(b""), 0);
    assert_eq!(path_length(b"/abc"), 4);
    assert_eq!(path_length(b"/abc?d"), 4);
    assert_eq!(path_length(b"/ab#c?d"), 3);
    assert_eq!(path_length(b"?"), 0);
}

#[test]
fn same_bytes_compares_content() {
    assert!(same_bytes(b"", b""));
    assert!(same_bytes(b"/app.js", b"/app.js"));
    assert!(!same_bytes(b"/app.js", b"/app.jt"));
    assert!(!same_bytes(b"/app.js", b"/app.j"));
    assert!(!same_bytes(b"x", b""));
}

#[test]
fn every_method_is_answered_alike() {
    let set = bundle();
    for method in ["GET", "POST", "PUT", "DELETE", "HEAD", "OPTIONS", ""] {
        let known = IncomingRequest { path: "/app.js?v=2".to_string(), method: method.to_string() };
        assert_eq!(set.serve(&known).bytes, b"console.log(1)".to_vec());
        assert_eq!(set.serve(&known).content_type, "application/javascript");
        let unknown = IncomingRequest { path: "/settings/profile".to_string(), method: method.to_string() };
        assert_eq!(set.serve(&unknown).bytes, b"<html></html>".to_vec());
        assert_eq!(set.serve(&unknown).content_type, "text/html");
    }
}
