use goperf::common::{enclosing_function_name, function_name_is_hot};
use goperf::domains::stdlib_misuse::common::{cache_has_eviction_bound, package_level_caches};
use goperf::domains::stdlib_misuse::header_allowlist::is_canonical_header;

#[test]
fn function_name_is_hot_matches_common_tokens() {
    assert!(function_name_is_hot("GenerateDoc"));
    assert!(function_name_is_hot("encodePage"));
    assert!(function_name_is_hot("SignPDF"));
    assert!(!function_name_is_hot("init"));
    assert!(!function_name_is_hot("helper"));
}

#[test]
fn enclosing_function_name_finds_plain_and_method() {
    let src = "package p\nfunc GenerateDoc() {\n\tx := 1\n}\n";
    let byte = src.find("x :=").unwrap();
    assert_eq!(enclosing_function_name(src, byte), Some("GenerateDoc"));

    let src = "package p\nfunc (g *Gen) Encode() {\n\ty := 2\n}\n";
    let byte = src.find("y :=").unwrap();
    assert_eq!(enclosing_function_name(src, byte), Some("Encode"));
}

#[test]
fn enclosing_function_name_ignores_package_level_between_funcs() {
    let src = "package p\nfunc buildX() []byte { return nil }\nvar x = buildX()\nfunc Handle() {}\n";
    let byte = src.rfind("buildX()").unwrap();
    assert_eq!(enclosing_function_name(src, byte), None);
}

#[test]
fn stdlib_misuse_canonical_header_allowlist_matches_known_textproto_outputs() {
    for header in ["Content-Type", "Etag", "Www-Authenticate", "X-Csrf-Token", "X-Forwarded-For", "User-Agent"] {
        assert!(is_canonical_header(header), "{header}");
    }
}

#[test]
fn stdlib_misuse_canonical_header_allowlist_rejects_uncurated_headers() {
    for header in ["ETag", "X-CSRF-Token", "x-request-id", "Custom-Header"] {
        assert!(!is_canonical_header(header), "{header}");
    }
}

#[test]
fn header_allowlist_canonical_header_allowlist_matches_known_textproto_outputs() {
    for header in ["Content-Type", "Etag", "Www-Authenticate", "X-Csrf-Token", "X-Forwarded-For", "User-Agent"] {
        assert!(is_canonical_header(header), "{header}");
    }
}

#[test]
fn header_allowlist_canonical_header_allowlist_rejects_uncurated_headers() {
    for header in ["ETag", "X-CSRF-Token", "x-request-id", "Custom-Header"] {
        assert!(!is_canonical_header(header), "{header}");
    }
}

#[test]
fn package_level_caches_finds_top_level_var_specs() {
    let source = r#"
package sample

var renderCache = map[string]int{}

var (
    memo sync.Map
    ignored int
)

func useIt() {
    localCache := map[string]int{}
    _ = localCache
}
"#;
    let caches = package_level_caches(source);
    assert_eq!(caches.len(), 2);
    assert_eq!(caches[0].name, "renderCache");
    assert!(!caches[0].is_sync_map);
    assert_eq!(caches[1].name, "memo");
    assert!(caches[1].is_sync_map);
}

#[test]
fn cache_has_eviction_bound_detects_size_and_time_patterns() {
    let len_bound = r#"
if len(renderCache) > 1000 {
    clear(renderCache)
}
"#;
    assert!(cache_has_eviction_bound(len_bound, "renderCache"));

    let cap_bound = r#"
if cap(renderCache) >= maxEntries {
    renderCache = renderCache[:0]
}
"#;
    assert!(cache_has_eviction_bound(cap_bound, "renderCache"));

    let ttl_bound = r#"
if renderCacheExpiry.Before(time.Now()) {
    delete(renderCache, key)
}
"#;
    assert!(cache_has_eviction_bound(ttl_bound, "renderCache"));
}
