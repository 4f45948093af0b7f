use tour::path::{Config, normalize, normalize_path, resolve, resolve_at};

#[test]
fn normalizes() {
    assert_eq!(normalize("/a/./b/../c"), "/a/c");
    assert_eq!(normalize("a//b/"), "a/b");
    assert_eq!(normalize("../a"), "a");
    assert_eq!(normalize("/"), "/");
    assert_eq!(normalize(""), "");
    assert_eq!(normalize_path("x/y/.."), "x");
}

#[test]
fn normalize_twice_is_once() {
    for p in ["/a/./b/../c", "a//b/", "../../x/./y", "/..", "a/b/c/../../d"] {
        let once = normalize(p);
        assert_eq!(normalize(&once), once);
    }
}

#[test]
fn resolves() {
    assert_eq!(resolve_at("b/c", "/a"), "/a/b/c");
    assert_eq!(resolve_at("/b", "/a"), "/b");
    assert_eq!(resolve_at("../b", "/a/x"), "/a/b");
    let conf = Config::new();
    assert_eq!(conf.templ_dir(), "templates");
    assert_eq!(resolve("index.html", &conf, "/w").unwrap(), "/w/templates/index.html");
    assert_eq!(resolve("//x/y.html", &conf, "/w").unwrap(), "/w/x/y.html");
    assert_eq!(resolve("./x", &conf, "/w").unwrap_err().message(), "cannot get template file using relative path");
}
