use thea::page::{
    build_page, compile_page, get_filetype, is_cachable, route_key, source_kind, split_source,
    CompileError, FileType, Header, HeaderValue, SourceKind,
};

fn header(pairs: &[(&str, &str)]) -> Header {
    let mut h = Header::new();
    for (k, v) in pairs {
        h.push(k.to_string(), HeaderValue::Text(v.to_string()));
    }
    h
}

#[test]
fn filetype_from_suffix() {
    assert_eq!(get_filetype("/about"), FileType::Html);
    assert_eq!(get_filetype("/style.css"), FileType::Css);
    assert_eq!(get_filetype("/app.js"), FileType::Js);
    assert_eq!(get_filetype("/feed.json"), FileType::Json);
    assert_eq!(get_filetype("/sitemap.xml"), FileType::Xml);
    assert_eq!(get_filetype("/robots.txt"), FileType::Txt);
    assert_eq!(get_filetype("/archive.tar.gz"), FileType::Txt);
    assert_eq!(get_filetype("/v1.2/notes.css"), FileType::Css);
    assert_eq!(get_filetype("/index.html"), FileType::Html);
    assert_eq!(get_filetype("/v1.2/about"), FileType::Html);
    assert_eq!(get_filetype("/notes.md"), FileType::Txt);
    assert_eq!(get_filetype(""), FileType::Html);
}

#[test]
fn source_kinds_by_extension() {
    assert_eq!(source_kind("md"), Some(SourceKind::Markdown));
    for e in ["html", "css", "js", "json", "xml", "txt"] {
        assert_eq!(source_kind(e), Some(SourceKind::Verbatim));
    }
    assert_eq!(source_kind("png"), None);
    assert_eq!(source_kind(""), None);
    assert!(is_cachable(Some("md")));
    assert!(!is_cachable(Some("rs")));
    assert!(!is_cachable(None));
}

#[test]
fn split_source_finds_header_and_body() {
    let (h, b) = split_source("---\nslug: /a\n---\n# Hi").unwrap();
    assert_eq!(h, "slug: /a\n");
    assert_eq!(b, "# Hi");
}

#[test]
fn split_source_empty_header() {
    let (h, b) = split_source("---\n---\nbody").unwrap();
    assert_eq!(h, "");
    assert_eq!(b, "body");
}

#[test]
fn split_source_needs_both_delimiters() {
    assert!(matches!(split_source("slug: /a\n---\nbody"), Err(CompileError::MalformedHeader)));
    assert!(matches!(split_source("---\nslug: /a\nbody"), Err(CompileError::MalformedHeader)));
    assert!(matches!(split_source("---\nslug: /a---\nbody"), Err(CompileError::MalformedHeader)));
    assert!(matches!(split_source(""), Err(CompileError::MalformedHeader)));
}

#[test]
fn route_key_gets_leading_slash() {
    assert_eq!(route_key("/a".to_string()), "/a");
    assert_eq!(route_key("blog/post".to_string()), "/blog/post");
    assert_eq!(route_key("".to_string()), "/");
}

#[test]
fn build_page_uses_header() {
    let p = build_page(
        header(&[("slug", "about"), ("title", "About")]),
        "<p>x</p>".to_string(),
        "page.html".to_string(),
        "static".to_string(),
        "e1".to_string(),
    )
    .unwrap();
    assert_eq!(p.slug, "/about");
    assert_eq!(p.page_type, "static");
    assert_eq!(p.content, "<p>x</p>");
    assert_eq!(p.meta.etag, "e1");
    assert_eq!(p.meta.layout.as_deref(), Some("page.html"));
    assert_eq!(p.meta.rendered, None);
    assert_eq!(p.fm.text_of("title").as_deref(), Some("About"));
}

#[test]
fn build_page_template_override() {
    let p = build_page(
        header(&[("slug", "/a"), ("template", "t.html")]),
        String::new(),
        "d.html".to_string(),
        "post".to_string(),
        "e".to_string(),
    )
    .unwrap();
    assert_eq!(p.meta.layout.as_deref(), Some("t.html"));
    let q = build_page(
        header(&[("template", "t.html"), ("slug", "/a"), ("layout", "l.html")]),
        String::new(),
        "d.html".to_string(),
        "post".to_string(),
        "e".to_string(),
    )
    .unwrap();
    assert_eq!(q.meta.layout.as_deref(), Some("l.html"));
}

#[test]
fn build_page_missing_slug() {
    let r = build_page(
        header(&[("title", "x")]),
        String::new(),
        "d.html".to_string(),
        "post".to_string(),
        "e".to_string(),
    );
    match r {
        Err(CompileError::MissingField(f)) => assert_eq!(f, "slug"),
        _ => panic!("expected a missing slug"),
    }
}

#[test]
fn slug_as_list_is_missing() {
    let mut h = Header::new();
    h.push("slug".to_string(), HeaderValue::List(vec!["/a".to_string()]));
    let r = build_page(h, String::new(), "d".to_string(), "t".to_string(), "e".to_string());
    assert!(matches!(r, Err(CompileError::MissingField(_))));
}

#[test]
fn compile_page_mints_distinct_etags() {
    let a = compile_page(header(&[("slug", "/a")]), "x".to_string(), "d".to_string(), "t".to_string())
        .unwrap();
    let b = compile_page(header(&[("slug", "/a")]), "x".to_string(), "d".to_string(), "t".to_string())
        .unwrap();
    assert_eq!(a.slug, b.slug);
    assert_eq!(a.content, b.content);
    assert_eq!(a.meta.etag.len(), 36);
    assert_ne!(a.meta.etag, b.meta.etag);
}

#[test]
fn page_duplicate_is_equal() {
    let mut h = header(&[("slug", "/a")]);
    h.push("tags".to_string(), HeaderValue::List(vec!["x".to_string(), "y".to_string()]));
    let p = build_page(h, "c".to_string(), "d".to_string(), "t".to_string(), "e".to_string()).unwrap();
    let q = p.duplicate();
    assert_eq!(format!("{:?}", p), format!("{:?}", q));
}
