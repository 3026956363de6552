use thea::settings::{
    get_page_types, parse_redirect, parse_redirects, PageTypeEntry, RawRedirect, RedirectKind,
    SettingsError,
};

fn raw(from: Option<&str>, kind: Option<&str>, to: Option<&str>) -> RawRedirect {
    RawRedirect {
        from: from.map(|s| s.to_string()),
        redirect_type: kind.map(|s| s.to_string()),
        to: to.map(|s| s.to_string()),
    }
}

#[test]
fn redirect_kinds() {
    let p = parse_redirect(&raw(Some("/a"), Some("permanent"), Some("/b"))).unwrap();
    assert_eq!(p.kind, RedirectKind::Permanent);
    assert_eq!(p.from, "/a");
    assert_eq!(p.to, "/b");
    let t = parse_redirect(&raw(Some("/a"), Some("temporary"), Some("/b"))).unwrap();
    assert_eq!(t.kind, RedirectKind::Temporary);
}

#[test]
fn redirect_invalid_type() {
    match parse_redirect(&raw(Some("/a"), Some("forever"), Some("/b"))) {
        Err(SettingsError::InvalidRedirectType(t)) => assert_eq!(t, "forever"),
        _ => panic!("expected an invalid type"),
    }
}

#[test]
fn redirect_missing_fields() {
    assert!(matches!(
        parse_redirect(&raw(None, Some("permanent"), Some("/b"))),
        Err(SettingsError::MissingField(f)) if f == "from"
    ));
    assert!(matches!(
        parse_redirect(&raw(Some("/a"), None, Some("/b"))),
        Err(SettingsError::MissingField(f)) if f == "type"
    ));
    assert!(matches!(
        parse_redirect(&raw(Some("/a"), Some("permanent"), None)),
        Err(SettingsError::MissingField(f)) if f == "to"
    ));
}

#[test]
fn redirect_table_last_entry_wins() {
    let t = parse_redirects(&vec![
        raw(Some("/a"), Some("permanent"), Some("/one")),
        raw(Some("/b"), Some("temporary"), Some("/two")),
        raw(Some("/a"), Some("temporary"), Some("/three")),
    ])
    .unwrap();
    assert_eq!(t.lookup("/a"), Some((RedirectKind::Temporary, "/three".to_string())));
    assert_eq!(t.lookup("/b"), Some((RedirectKind::Temporary, "/two".to_string())));
    assert_eq!(t.lookup("/c"), None);
}

#[test]
fn redirect_table_rejects_bad_entry() {
    let r = parse_redirects(&vec![
        raw(Some("/a"), Some("permanent"), Some("/one")),
        raw(Some("/b"), Some("sometimes"), Some("/two")),
    ]);
    assert!(matches!(r, Err(SettingsError::InvalidRedirectType(_))));
}

#[test]
fn page_types_skip_incomplete_entries() {
    let e = |t: Option<&str>, p: Option<&str>, d: Option<&str>| PageTypeEntry {
        ttype: t.map(|s| s.to_string()),
        path: p.map(|s| s.to_string()),
        default_layout: d.map(|s| s.to_string()),
    };
    let types = get_page_types(&vec![
        e(Some("post"), Some("posts"), Some("post.html")),
        e(Some("page"), None, Some("page.html")),
        e(Some("feed"), Some("feeds"), Some("feed.xml")),
        e(None, Some("x"), Some("y")),
    ]);
    assert_eq!(types.len(), 2);
    assert_eq!(types[0].ttype, "post");
    assert_eq!(types[0].path, "posts");
    assert_eq!(types[0].default_layout, "post.html");
    assert_eq!(types[1].ttype, "feed");
    let none = e(Some("x"), Some("y"), None).into_page_type();
    assert!(none.is_none());
}
