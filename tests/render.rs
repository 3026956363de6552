use thea::render::{finish_render, output_path, RenderError};
use thea::watcher::{triggers_rebuild, FsEvent};

#[test]
fn plain_text_is_not_minified() {
    let text = "a   b\n\n  c\n".to_string();
    assert_eq!(finish_render("/robots.txt", text.clone()).unwrap(), text);
}

#[test]
fn html_is_minified() {
    let html = "<div>\n    <p>a</p>\n\n    <p>b</p>\n</div>\n".to_string();
    let out = finish_render("/page", html.clone()).unwrap();
    assert_ne!(out, html);
    assert!(out.len() < html.len());
    assert!(out.contains("<p>a</p>"));
}

#[test]
fn refused_style_fails_only_where_minified() {
    let html = "<style>a]{}</style>".to_string();
    assert!(matches!(finish_render("/page", html.clone()), Err(RenderError::Minify)));
    assert_eq!(finish_render("/notes.txt", html.clone()).unwrap(), html);
}

#[test]
fn output_paths() {
    assert_eq!(output_path("/"), "index.html");
    assert_eq!(output_path("/about"), "about/index.html");
    assert_eq!(output_path("/blog/post-1"), "blog/post-1/index.html");
    assert_eq!(output_path("/feed.xml"), "feed.xml");
    assert_eq!(output_path("/v1.2/notes"), "v1.2/notes/index.html");
    assert_eq!(output_path("/.hidden"), ".hidden/index.html");
    assert_eq!(output_path("/docs/"), "docs/index.html");
    assert_eq!(output_path("plain"), "plain/index.html");
}

#[test]
fn rebuild_events() {
    assert!(triggers_rebuild(FsEvent::Create));
    assert!(triggers_rebuild(FsEvent::Write));
    assert!(triggers_rebuild(FsEvent::Rename));
    assert!(triggers_rebuild(FsEvent::Remove));
    assert!(!triggers_rebuild(FsEvent::Other));
}
