use pulldown_cmark::{html, Options, Parser};
use thea::handler::catchall;
use thea::page::{compile_page, source_kind, split_source, CompileError, FileType, Header, HeaderValue, SourceKind};
use thea::render::finish_render;
use thea::settings::{parse_redirects, RawRedirect, Redirects};
use thea::store::{apply_rendered, rebuild_site, ContentStore};
use yaml_rust::YamlLoader;

fn header_of(text: &str) -> Header {
    let docs = YamlLoader::load_from_str(text).unwrap();
    let mut h = Header::new();
    if let Some(hash) = docs.first().and_then(|d| d.as_hash()) {
        for (k, v) in hash {
            if let (Some(k), Some(v)) = (k.as_str(), v.as_str()) {
                h.push(k.to_string(), HeaderValue::Text(v.to_string()));
            }
        }
    }
    h
}

fn compile(contents: &str, extension: &str) -> Result<thea::page::Page, CompileError> {
    let (fm, body) = split_source(contents)?;
    let header = header_of(&fm);
    let content = match source_kind(extension) {
        Some(SourceKind::Markdown) => {
            let mut out = String::new();
            html::push_html(&mut out, Parser::new_ext(&body, Options::all()));
            out
        }
        Some(SourceKind::Verbatim) => body,
        None => return Err(CompileError::UnsupportedExtension),
    };
    compile_page(header, content, "page.html".to_string(), "post".to_string())
}

fn render_all(candidate: &ContentStore) -> ContentStore {
    let mut t = tera::Tera::default();
    t.add_raw_template("page.html", "<html><body>{{ content | safe }}</body></html>").unwrap();
    let outputs: Vec<Option<String>> = candidate
        .pages()
        .iter()
        .map(|p| {
            let mut ctx = tera::Context::new();
            ctx.insert("content", &p.content);
            let laid_out = t.render(p.meta.layout.as_deref().unwrap(), &ctx).ok()?;
            finish_render(&p.slug, laid_out).ok()
        })
        .collect();
    apply_rendered(candidate, &outputs)
}

#[test]
fn markdown_page_is_served() {
    let page = compile("---\nslug: /a\n---\n# Hi", "md").unwrap();
    assert_eq!(page.slug, "/a");
    let candidate = ContentStore::collect_pages(&vec![page]);
    let store = rebuild_site(&ContentStore::new(), &render_all(&candidate));
    let rendered = store.get("/a").unwrap().meta.rendered.clone().unwrap();
    assert!(rendered.contains("<h1>Hi</h1>"));
    assert!(rendered.contains("<body>"));
    let r = catchall(&store, &Redirects::new(), "/a", None, true);
    assert_eq!(r.status, 200);
    assert_eq!(r.content_type, Some(FileType::Html));
    assert!(r.body.contains("<h1>Hi</h1>"));
}

#[test]
fn missing_slug_is_skipped() {
    let r = compile("---\ntitle: no slug\n---\n# Hi", "md");
    assert!(matches!(r, Err(CompileError::MissingField(ref f)) if f == "slug"));
    let store = render_all(&ContentStore::collect_pages(&vec![]));
    assert_eq!(store.len(), 0);
    let resp = catchall(&store, &Redirects::new(), "/no-slug", None, true);
    assert_eq!(resp.status, 404);
}

#[test]
fn unsupported_extension_is_skipped() {
    assert!(matches!(compile("---\nslug: /x\n---\nbin", "png"), Err(CompileError::UnsupportedExtension)));
}

#[test]
fn permanent_redirect_when_no_page() {
    let table = parse_redirects(&vec![RawRedirect {
        from: Some("/old".to_string()),
        redirect_type: Some("permanent".to_string()),
        to: Some("/new".to_string()),
    }])
    .unwrap();
    let r = catchall(&ContentStore::new(), &table, "/old", None, true);
    assert_eq!(r.status, 301);
    assert_eq!(r.location.as_deref(), Some("/new"));
    assert_eq!(r.body, "");
}

#[test]
fn duplicate_slugs_keep_one_page() {
    let a = compile("---\nslug: /dup\n---\nfirst", "txt").unwrap();
    let b = compile("---\nslug: /dup\n---\nsecond", "txt").unwrap();
    let store = render_all(&ContentStore::collect_pages(&vec![a, b]));
    assert_eq!(store.len(), 1);
    let r = catchall(&store, &Redirects::new(), "/dup", None, true);
    assert_eq!(r.status, 200);
    assert!(r.body.contains("second"));
}

#[test]
fn unchanged_rebuild_keeps_etag_and_304_holds() {
    let build = || {
        let p = compile("---\nslug: /a\n---\n# Same", "md").unwrap();
        render_all(&ContentStore::collect_pages(&vec![p]))
    };
    let first = rebuild_site(&ContentStore::new(), &build());
    let etag = first.get("/a").unwrap().meta.etag.clone();
    let second = rebuild_site(&first, &build());
    assert_eq!(second.get("/a").unwrap().meta.etag, etag);
    let validator = format!("\"{}\"", etag);
    let r = catchall(&second, &Redirects::new(), "/a", Some(&validator), true);
    assert_eq!(r.status, 304);
    assert_eq!(r.body, "");
}

#[test]
fn changed_rebuild_changes_etag() {
    let build = |body: &str| {
        let p = compile(&format!("---\nslug: /a\n---\n{}", body), "md").unwrap();
        render_all(&ContentStore::collect_pages(&vec![p]))
    };
    let first = rebuild_site(&ContentStore::new(), &build("# One"));
    let etag = first.get("/a").unwrap().meta.etag.clone();
    let second = rebuild_site(&first, &build("# Two"));
    assert_ne!(second.get("/a").unwrap().meta.etag, etag);
    let validator = format!("\"{}\"", etag);
    let r = catchall(&second, &Redirects::new(), "/a", Some(&validator), true);
    assert_eq!(r.status, 200);
    assert!(r.body.contains("Two"));
}

#[test]
fn removed_source_is_404_after_rebuild() {
    let p = compile("---\nslug: /gone\n---\nx", "txt").unwrap();
    let first = rebuild_site(&ContentStore::new(), &render_all(&ContentStore::collect_pages(&vec![p])));
    assert_eq!(catchall(&first, &Redirects::new(), "/gone", None, true).status, 200);
    let second = rebuild_site(&first, &render_all(&ContentStore::collect_pages(&vec![])));
    assert!(second.get("/gone").is_none());
    assert_eq!(catchall(&second, &Redirects::new(), "/gone", None, true).status, 404);
}
