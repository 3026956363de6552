use thea::page::{build_page, Header, HeaderValue, Page};
use thea::store::{apply_rendered, rebuild_site, ContentStore};

fn page(slug: &str, etag: &str, rendered: Option<&str>) -> Page {
    let mut h = Header::new();
    h.push("slug".to_string(), HeaderValue::Text(slug.to_string()));
    let p = build_page(h, "c".to_string(), "d".to_string(), "t".to_string(), etag.to_string()).unwrap();
    match rendered {
        Some(r) => p.with_rendered(r.to_string()),
        None => p,
    }
}

fn store_of(pages: Vec<Page>) -> ContentStore {
    let mut s = ContentStore::new();
    for p in pages {
        s.insert(p);
    }
    s
}

#[test]
fn insert_replaces_same_route() {
    let s = store_of(vec![page("/a", "1", Some("x")), page("/b", "2", Some("y")), page("/a", "3", Some("z"))]);
    assert_eq!(s.len(), 2);
    assert_eq!(s.get("/a").unwrap().meta.etag, "3");
    assert_eq!(s.get("/b").unwrap().meta.etag, "2");
    assert!(s.get("/c").is_none());
}

#[test]
fn collect_pages_last_wins() {
    let s = ContentStore::collect_pages(&vec![page("/dup", "first", None), page("/dup", "second", None)]);
    assert_eq!(s.len(), 1);
    assert_eq!(s.get("/dup").unwrap().meta.etag, "second");
}

#[test]
fn empty_store() {
    let s = ContentStore::new();
    assert_eq!(s.len(), 0);
    assert!(s.get("/").is_none());
    assert!(s.is_servable());
}

#[test]
fn rebuild_keeps_etag_of_unchanged_output() {
    let previous = store_of(vec![page("/a", "old", Some("<p>same</p>"))]);
    let candidate = store_of(vec![page("/a", "new", Some("<p>same</p>"))]);
    let next = rebuild_site(&previous, &candidate);
    assert_eq!(next.get("/a").unwrap().meta.etag, "old");
}

#[test]
fn rebuild_changes_etag_of_changed_output() {
    let previous = store_of(vec![page("/a", "old", Some("<p>one</p>"))]);
    let candidate = store_of(vec![page("/a", "new", Some("<p>two</p>"))]);
    let next = rebuild_site(&previous, &candidate);
    let p = next.get("/a").unwrap();
    assert_eq!(p.meta.etag, "new");
    assert_eq!(p.meta.rendered.as_deref(), Some("<p>two</p>"));
}

#[test]
fn rebuild_drops_removed_and_adds_new_routes() {
    let previous = store_of(vec![page("/gone", "g", Some("g")), page("/kept", "k", Some("k"))]);
    let candidate = store_of(vec![page("/kept", "k2", Some("k")), page("/fresh", "f", Some("f"))]);
    let next = rebuild_site(&previous, &candidate);
    assert_eq!(next.len(), 2);
    assert!(next.get("/gone").is_none());
    assert_eq!(next.get("/kept").unwrap().meta.etag, "k");
    assert_eq!(next.get("/fresh").unwrap().meta.etag, "f");
}

#[test]
fn apply_rendered_drops_failed_pages() {
    let candidate = store_of(vec![page("/a", "1", None), page("/b", "2", None), page("/c", "3", None)]);
    assert!(!candidate.is_servable());
    let outputs: Vec<Option<String>> = candidate
        .pages()
        .iter()
        .map(|p| if p.slug == "/b" { None } else { Some(format!("out{}", p.slug)) })
        .collect();
    let done = apply_rendered(&candidate, &outputs);
    assert_eq!(done.len(), 2);
    assert!(done.get("/b").is_none());
    assert_eq!(done.get("/a").unwrap().meta.rendered.as_deref(), Some("out/a"));
    assert_eq!(done.get("/c").unwrap().meta.etag, "3");
    assert!(done.is_servable());
}

#[test]
fn rebuild_of_servable_stores_is_servable() {
    let previous = store_of(vec![page("/a", "1", Some("x"))]);
    let candidate = store_of(vec![page("/a", "2", Some("y")), page("/b", "3", Some("z"))]);
    assert!(rebuild_site(&previous, &candidate).is_servable());
}
