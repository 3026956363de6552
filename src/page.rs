//! Pages: the records that the store holds, their metadata header, and the
//! compiler that turns one source file into one page.

use crate::text::{
    begins_with, chars_of, find_from, first_occurrence, last_index_of, last_index_of_exec,
    occurs_at, occurs_at_exec, opt_view, str_is, substring,
};
use vstd::prelude::*;
use vstd::string::StringExecFns;

verus! {

/// The kind of output a route serves, read from the suffix of its route key.
#[derive(Clone, Copy, Debug, PartialEq, Eq, Structural)]
pub enum FileType {
    Html,
    Xml,
    Css,
    Js,
    Json,
    Txt,
}

/// The file type of a route key, read from the suffix of its last path
/// segment (the text after that segment's last `.`): `html`, `css`, `js`,
/// `json` and `xml` name their types, any other suffix is plain text, and a
/// last segment without a `.` is HTML.
pub open spec fn filetype_of(slug: Seq<char>) -> FileType {
    let d = last_index_of(slug, '.');
    if d <= last_index_of(slug, '/') {
        FileType::Html
    } else {
        let ext = slug.subrange(d + 1, slug.len() as int);
        if ext == seq!['h', 't', 'm', 'l'] {
            FileType::Html
        } else if ext == seq!['c', 's', 's'] {
            FileType::Css
        } else if ext == seq!['j', 's'] {
            FileType::Js
        } else if ext == seq!['j', 's', 'o', 'n'] {
            FileType::Json
        } else if ext == seq!['x', 'm', 'l'] {
            FileType::Xml
        } else {
            FileType::Txt
        }
    }
}

/// Whether the characters of `v` from `start` to its end are those of `w`.
fn tail_is(v: &Vec<char>, start: usize, w: &Vec<char>) -> (r: bool)
    requires
        start <= v.len(),
    ensures
        r == (v@.subrange(start as int, v@.len() as int) == w@),
{
    let r = w.len() == v.len() - start && occurs_at_exec(v, start, w);
    proof {
        let t = v@.subrange(start as int, v@.len() as int);
        if t == w@ {
            assert(t.len() == w@.len());
        }
    }
    r
}

pub fn get_filetype(slug: &str) -> (r: FileType)
    ensures
        r == filetype_of(slug@),
{
    let v = chars_of(slug);
    proof {
        crate::text::lemma_last_index_of_bounds(v@, '.');
        crate::text::lemma_last_index_of_bounds(v@, '/');
    }
    let d = match last_index_of_exec(&v, '.') {
        None => {
            return FileType::Html;
        },
        Some(d) => d,
    };
    match last_index_of_exec(&v, '/') {
        Some(g) => {
            if d <= g {
                return FileType::Html;
            }
        },
        None => {},
    }
    let start = d + 1;
    if tail_is(&v, start, &vec!['h', 't', 'm', 'l']) {
        FileType::Html
    } else if tail_is(&v, start, &vec!['c', 's', 's']) {
        FileType::Css
    } else if tail_is(&v, start, &vec!['j', 's']) {
        FileType::Js
    } else if tail_is(&v, start, &vec!['j', 's', 'o', 'n']) {
        FileType::Json
    } else if tail_is(&v, start, &vec!['x', 'm', 'l']) {
        FileType::Xml
    } else {
        FileType::Txt
    }
}

/// How the body of a source file becomes the page's content.
#[derive(Clone, Copy, Debug, PartialEq, Eq, Structural)]
pub enum SourceKind {
    /// Converted from Markdown to HTML.
    Markdown,
    /// Kept as it is written.
    Verbatim,
}

/// The source kind of a file extension, where the extension is one that is
/// compiled at all.
pub open spec fn source_kind_of(ext: Seq<char>) -> Option<SourceKind> {
    if ext == seq!['m', 'd'] {
        Some(SourceKind::Markdown)
    } else if ext == seq!['h', 't', 'm', 'l'] || ext == seq!['c', 's', 's'] || ext == seq!['j', 's']
        || ext == seq!['j', 's', 'o', 'n'] || ext == seq!['x', 'm', 'l'] || ext == seq![
        't',
        'x',
        't',
    ] {
        Some(SourceKind::Verbatim)
    } else {
        None
    }
}

pub fn source_kind(extension: &str) -> (r: Option<SourceKind>)
    ensures
        r == source_kind_of(extension@),
{
    if str_is(extension, &vec!['m', 'd']) {
        Some(SourceKind::Markdown)
    } else if str_is(extension, &vec!['h', 't', 'm', 'l']) || str_is(extension, &vec!['c', 's', 's'])
        || str_is(extension, &vec!['j', 's']) || str_is(extension, &vec!['j', 's', 'o', 'n'])
        || str_is(extension, &vec!['x', 'm', 'l']) || str_is(extension, &vec!['t', 'x', 't']) {
        Some(SourceKind::Verbatim)
    } else {
        None
    }
}

/// Whether a file with this extension (if it has one) is compiled into a page.
pub fn is_cachable(extension: Option<&str>) -> (r: bool)
    ensures
        r == match extension {
            Some(e) => source_kind_of(e@) is Some,
            None => false,
        },
{
    match extension {
        Some(e) => source_kind(e).is_some(),
        None => false,
    }
}

/// A value of the metadata header: a string or a sequence of strings.
#[derive(Debug)]
pub enum HeaderValue {
    Text(String),
    List(Vec<String>),
}

/// What a header value holds, as characters.
pub enum HeaderValueView {
    Text(Seq<char>),
    List(Seq<Seq<char>>),
}

impl View for HeaderValue {
    type V = HeaderValueView;

    open spec fn view(&self) -> HeaderValueView {
        match self {
            HeaderValue::Text(s) => HeaderValueView::Text(s@),
            HeaderValue::List(v) => HeaderValueView::List(v@.map_values(|x: String| x@)),
        }
    }
}

fn duplicate_strings(v: &Vec<String>) -> (r: Vec<String>)
    ensures
        r@.map_values(|x: String| x@) == v@.map_values(|x: String| x@),
{
    let mut r: Vec<String> = Vec::new();
    let mut i: usize = 0;
    while i < v.len()
        invariant
            i <= v.len(),
            r@.len() == i,
            forall|j: int| 0 <= j < i ==> r@[j]@ == v@[j]@,
        decreases v.len() - i,
    {
        r.push(v[i].clone());
        i = i + 1;
    }
    assert(r@.map_values(|x: String| x@) =~= v@.map_values(|x: String| x@));
    r
}

impl HeaderValue {
    pub fn duplicate(&self) -> (r: HeaderValue)
        ensures
            r@ == self@,
    {
        match self {
            HeaderValue::Text(s) => HeaderValue::Text(s.clone()),
            HeaderValue::List(v) => HeaderValue::List(duplicate_strings(v)),
        }
    }
}

/// One key of the metadata header and its value.
#[derive(Debug)]
pub struct HeaderEntry {
    pub key: String,
    pub value: HeaderValue,
}

impl View for HeaderEntry {
    type V = (Seq<char>, HeaderValueView);

    open spec fn view(&self) -> (Seq<char>, HeaderValueView) {
        (self.key@, self.value@)
    }
}

/// The metadata header of a source file, in the order it was written.
#[derive(Debug)]
pub struct Header {
    pub entries: Vec<HeaderEntry>,
}

impl View for Header {
    type V = Seq<(Seq<char>, HeaderValueView)>;

    open spec fn view(&self) -> Seq<(Seq<char>, HeaderValueView)> {
        self.entries@.map_values(|e: HeaderEntry| e@)
    }
}

/// The string value of the first entry of `h` under `key`, if that value is a
/// string.
pub open spec fn header_text(h: Seq<(Seq<char>, HeaderValueView)>, key: Seq<char>) -> Option<
    Seq<char>,
>
    decreases h.len(),
{
    if h.len() == 0 {
        None
    } else if h[0].0 == key {
        match h[0].1 {
            HeaderValueView::Text(s) => Some(s),
            HeaderValueView::List(_) => None,
        }
    } else {
        header_text(h.drop_first(), key)
    }
}

impl Header {
    pub fn new() -> (r: Header)
        ensures
            r@ == Seq::<(Seq<char>, HeaderValueView)>::empty(),
    {
        let r = Header { entries: Vec::new() };
        assert(r@ =~= Seq::<(Seq<char>, HeaderValueView)>::empty());
        r
    }

    /// Adds an entry after the present ones.
    pub fn push(&mut self, key: String, value: HeaderValue)
        ensures
            final(self)@ == old(self)@.push((key@, value@)),
    {
        self.entries.push(HeaderEntry { key, value });
        assert(self@ =~= old(self)@.push((key@, value@)));
    }

    /// The string value under `key`, if there is one.
    pub fn text_of(&self, key: &str) -> (r: Option<String>)
        ensures
            opt_view(r) == header_text(self@, key@),
    {
        let mut i: usize = 0;
        assert(self@.subrange(0, self@.len() as int) =~= self@);
        while i < self.entries.len()
            invariant
                i <= self.entries.len(),
                header_text(self@, key@) == header_text(self@.subrange(i as int, self@.len() as int), key@),
            decreases self.entries.len() - i,
        {
            let ghost rest = self@.subrange(i as int, self@.len() as int);
            assert(rest.drop_first() =~= self@.subrange(i + 1, self@.len() as int));
            let e = &self.entries[i];
            let k = chars_of(e.key.as_str());
            if str_is(key, &k) {
                return match &e.value {
                    HeaderValue::Text(s) => Some(s.clone()),
                    HeaderValue::List(_) => None,
                };
            }
            i = i + 1;
        }
        None
    }

    pub fn duplicate(&self) -> (r: Header)
        ensures
            r@ == self@,
    {
        let mut entries: Vec<HeaderEntry> = Vec::new();
        let mut i: usize = 0;
        while i < self.entries.len()
            invariant
                i <= self.entries.len(),
                entries@.len() == i,
                forall|j: int| 0 <= j < i ==> entries@[j]@ == self.entries@[j]@,
            decreases self.entries.len() - i,
        {
            let e = &self.entries[i];
            entries.push(HeaderEntry { key: e.key.clone(), value: e.value.duplicate() });
            i = i + 1;
        }
        let r = Header { entries };
        assert(r@ =~= self@);
        r
    }
}

/// Identity and output of a page.
#[derive(Debug)]
pub struct PageMeta {
    /// Opaque token naming this page's rendered output.
    pub etag: String,
    /// The template the page is rendered with.
    pub layout: Option<String>,
    /// The final output, once rendering has succeeded.
    pub rendered: Option<String>,
}

pub struct PageMetaView {
    pub etag: Seq<char>,
    pub layout: Option<Seq<char>>,
    pub rendered: Option<Seq<char>>,
}

impl View for PageMeta {
    type V = PageMetaView;

    open spec fn view(&self) -> PageMetaView {
        PageMetaView {
            etag: self.etag@,
            layout: opt_view(self.layout),
            rendered: opt_view(self.rendered),
        }
    }
}

fn duplicate_opt(o: &Option<String>) -> (r: Option<String>)
    ensures
        opt_view(r) == opt_view(*o),
{
    match o {
        Some(s) => Some(s.clone()),
        None => None,
    }
}

impl PageMeta {
    pub fn duplicate(&self) -> (r: PageMeta)
        ensures
            r@ == self@,
    {
        PageMeta {
            etag: self.etag.clone(),
            layout: duplicate_opt(&self.layout),
            rendered: duplicate_opt(&self.rendered),
        }
    }
}

/// One compiled source file.
#[derive(Debug)]
pub struct Page {
    /// The kind of its page type.
    pub page_type: String,
    /// The route key the page is served under.
    pub slug: String,
    /// The page's content, converted from its source but not yet laid out.
    pub content: String,
    /// The metadata header, as written.
    pub fm: Header,
    pub meta: PageMeta,
}

pub struct PageView {
    pub page_type: Seq<char>,
    pub slug: Seq<char>,
    pub content: Seq<char>,
    pub fm: Seq<(Seq<char>, HeaderValueView)>,
    pub meta: PageMetaView,
}

impl View for Page {
    type V = PageView;

    open spec fn view(&self) -> PageView {
        PageView {
            page_type: self.page_type@,
            slug: self.slug@,
            content: self.content@,
            fm: self.fm@,
            meta: self.meta@,
        }
    }
}

impl Page {
    pub fn duplicate(&self) -> (r: Page)
        ensures
            r@ == self@,
    {
        Page {
            page_type: self.page_type.clone(),
            slug: self.slug.clone(),
            content: self.content.clone(),
            fm: self.fm.duplicate(),
            meta: self.meta.duplicate(),
        }
    }

    /// This page with its final output set.
    pub fn with_rendered(self, rendered: String) -> (r: Page)
        ensures
            r@ == (PageView {
                meta: PageMetaView { rendered: Some(rendered@), ..self@.meta },
                ..self@
            }),
    {
        let Page { page_type, slug, content, fm, meta } = self;
        let PageMeta { etag, layout, rendered: _ } = meta;
        Page { page_type, slug, content, fm, meta: PageMeta { etag, layout, rendered: Some(rendered) } }
    }
}

/// Why a source file yields no page.
#[derive(Debug)]
pub enum CompileError {
    /// The file could not be read.
    Io,
    /// The header delimiters are missing, or the header cannot be parsed.
    MalformedHeader,
    /// A required header key is absent.
    MissingField(String),
    /// The file's extension is not one that is compiled.
    UnsupportedExtension,
}

/// The line that opens a header.
pub open spec fn opening_line() -> Seq<char> {
    seq!['-', '-', '-', '\n']
}

/// A line break followed by the line that closes a header.
pub open spec fn closing_line() -> Seq<char> {
    seq!['\n', '-', '-', '-', '\n']
}

/// Where the header of `s` is closed: the first closing line after the
/// opening one, found from the opening line's own line break; -1 if none.
pub open spec fn header_close(s: Seq<char>) -> int {
    first_occurrence(s, 3, closing_line())
}

/// `s` has a header: it opens with the opening line, and a closing line follows.
pub open spec fn has_header(s: Seq<char>) -> bool {
    begins_with(s, opening_line()) && header_close(s) >= 0
}

/// The text between the two delimiter lines.
pub open spec fn header_block(s: Seq<char>) -> Seq<char> {
    s.subrange(4, header_close(s) + 1)
}

/// Everything after the closing delimiter line.
pub open spec fn body_after_header(s: Seq<char>) -> Seq<char> {
    s.subrange(header_close(s) + 5, s.len() as int)
}

/// Splits a source file into its header block and its body.
pub fn split_source(contents: &str) -> (r: Result<(String, String), CompileError>)
    ensures
        r is Ok <==> has_header(contents@),
        r matches Err(e) ==> e is MalformedHeader,
        r matches Ok((h, b)) ==> h@ == header_block(contents@) && b@ == body_after_header(
            contents@,
        ),
{
    let v = chars_of(contents);
    let open = vec!['-', '-', '-', '\n'];
    if !occurs_at_exec(&v, 0, &open) {
        return Err(CompileError::MalformedHeader);
    }
    let close = vec!['\n', '-', '-', '-', '\n'];
    assert(open@ =~= opening_line());
    assert(close@ =~= closing_line());
    match find_from(&v, 3, &close) {
        None => Err(CompileError::MalformedHeader),
        Some(i) => {
            assert(occurs_at(v@, i as int, close@));
            let n = v.len();
            assert(i + 5 <= n);
            let header = substring(contents, 4, i + 1);
            let body = substring(contents, i + 5, v.len());
            Ok((header, body))
        },
    }
}

/// The header key that names a page's route.
pub open spec fn slug_key() -> Seq<char> {
    seq!['s', 'l', 'u', 'g']
}

/// The header key that names a page's template.
pub open spec fn layout_key() -> Seq<char> {
    seq!['l', 'a', 'y', 'o', 'u', 't']
}

/// The other header key that names a page's template.
pub open spec fn template_key() -> Seq<char> {
    seq!['t', 'e', 'm', 'p', 'l', 'a', 't', 'e']
}

/// A declared slug as a route key: it starts with `/`.
pub open spec fn route_key_of(slug: Seq<char>) -> Seq<char> {
    if begins_with(slug, seq!['/']) {
        slug
    } else {
        seq!['/'] + slug
    }
}

/// The template of a page: the header's `layout`, else its `template`, else
/// the page type's default.
pub open spec fn layout_of(h: Seq<(Seq<char>, HeaderValueView)>, default_layout: Seq<char>) -> Seq<
    char,
> {
    match header_text(h, layout_key()) {
        Some(l) => l,
        None => match header_text(h, template_key()) {
            Some(t) => t,
            None => default_layout,
        },
    }
}

/// The page that a header and converted content make, with a given etag.
pub open spec fn page_of(
    h: Seq<(Seq<char>, HeaderValueView)>,
    content: Seq<char>,
    default_layout: Seq<char>,
    page_type: Seq<char>,
    etag: Seq<char>,
) -> PageView {
    PageView {
        page_type,
        slug: route_key_of(header_text(h, slug_key())->0),
        content,
        fm: h,
        meta: PageMetaView { etag, layout: Some(layout_of(h, default_layout)), rendered: None },
    }
}

pub fn route_key(slug: String) -> (r: String)
    ensures
        r@ == route_key_of(slug@),
{
    let v = chars_of(slug.as_str());
    let slash = vec!['/'];
    assert(slash@ =~= seq!['/']);
    if occurs_at_exec(&v, 0, &slash) {
        slug
    } else {
        let mut r = String::from_str("/");
        proof {
            reveal_strlit("/");
            assert("/"@ =~= seq!['/']);
        }
        r.append(slug.as_str());
        r
    }
}

/// Makes the page of a source file from its parsed header and its converted
/// content, with the given etag.
pub fn build_page(
    header: Header,
    content: String,
    default_layout: String,
    page_type: String,
    etag: String,
) -> (r: Result<Page, CompileError>)
    ensures
        r is Ok <==> header_text(header@, slug_key()) is Some,
        r matches Err(e) ==> e is MissingField && (e->MissingField_0)@ == slug_key(),
        r matches Ok(p) ==> p@ == page_of(header@, content@, default_layout@, page_type@, etag@),
{
    proof {
        reveal_strlit("slug");
        reveal_strlit("layout");
        reveal_strlit("template");
        assert("slug"@ =~= slug_key());
        assert("layout"@ =~= layout_key());
        assert("template"@ =~= template_key());
    }
    let slug = match header.text_of("slug") {
        Some(s) => s,
        None => {
            return Err(CompileError::MissingField(String::from_str("slug")));
        },
    };
    let layout = match header.text_of("layout") {
        Some(l) => l,
        None => match header.text_of("template") {
            Some(t) => t,
            None => default_layout,
        },
    };
    let slug = route_key(slug);
    Ok(
        Page {
            page_type,
            slug,
            content,
            fm: header,
            meta: PageMeta { etag, layout: Some(layout), rendered: None },
        },
    )
}

/// Relies on uuid's `Uuid::new_v4` and its `Display`: a fresh random token
/// for each call, written in the 36-character hyphenated form.
#[verifier::external_body]
fn mint_etag() -> (r: String)
    ensures
        r@.len() == 36,
{
    uuid::Uuid::new_v4().to_string()
}

/// Compiles one source file from its parsed header and converted content,
/// under a freshly minted etag.
pub fn compile_page(header: Header, content: String, default_layout: String, page_type: String) -> (r:
    Result<Page, CompileError>)
    ensures
        r is Ok <==> header_text(header@, slug_key()) is Some,
        r matches Err(e) ==> e is MissingField && (e->MissingField_0)@ == slug_key(),
        r matches Ok(p) ==> p@ == page_of(
            header@,
            content@,
            default_layout@,
            page_type@,
            p@.meta.etag,
        ) && p@.meta.etag.len() == 36,
{
    let etag = mint_etag();
    build_page(header, content, default_layout, page_type, etag)
}

/// Compiling one unchanged source twice gives the same route key, content,
/// header and template, and no output yet; only the minted etags may differ.
pub proof fn lemma_compile_deterministic(
    h: Seq<(Seq<char>, HeaderValueView)>,
    content: Seq<char>,
    default_layout: Seq<char>,
    page_type: Seq<char>,
    etag1: Seq<char>,
    etag2: Seq<char>,
)
    ensures
        ({
            let first = page_of(h, content, default_layout, page_type, etag1);
            let second = page_of(h, content, default_layout, page_type, etag2);
            &&& first.slug == second.slug
            &&& first.content == second.content
            &&& first.fm == second.fm
            &&& first.page_type == second.page_type
            &&& first.meta.layout == second.meta.layout
            &&& first.meta.rendered == second.meta.rendered
            &&& first.meta.rendered is None
        }),
{
}

} // verus!
