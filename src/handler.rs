//! The request handler: looks a path up in one generation of the store and
//! answers with conditional-GET and cache-control semantics.

use crate::page::{filetype_of, get_filetype, FileType, PageView};
use crate::settings::{redirect_for, RedirectKind, Redirects};
use crate::store::{rebuilt, servable, ContentStore};
use crate::text::{chars_of, opt_view, same_chars};
use vstd::prelude::*;
use vstd::string::StringExecFns;

verus! {

/// How long a client may keep a page, in seconds, when caching is on.
pub const MAX_AGE: u32 = 900;

/// What the handler answers.
#[derive(Debug)]
pub struct Response {
    pub status: u16,
    /// The kind of the body; absent where there is no body.
    pub content_type: Option<FileType>,
    pub body: String,
    /// The strong validator sent with the page.
    pub etag: Option<String>,
    /// The cache-control max-age sent with the page.
    pub max_age: Option<u32>,
    /// Where a redirect points.
    pub location: Option<String>,
}

pub struct ResponseView {
    pub status: u16,
    pub content_type: Option<FileType>,
    pub body: Seq<char>,
    pub etag: Option<Seq<char>>,
    pub max_age: Option<u32>,
    pub location: Option<Seq<char>>,
}

impl View for Response {
    type V = ResponseView;

    open spec fn view(&self) -> ResponseView {
        ResponseView {
            status: self.status,
            content_type: self.content_type,
            body: self.body@,
            etag: opt_view(self.etag),
            max_age: self.max_age,
            location: opt_view(self.location),
        }
    }
}

/// The strong validator that names an etag: the etag in double quotes.
pub open spec fn quoted(etag: Seq<char>) -> Seq<char> {
    seq!['"'] + etag + seq!['"']
}

/// A request validator names the etag when it is, byte for byte, the etag in
/// double quotes; a weak validator never does.
pub open spec fn validator_matches(header: Seq<char>, etag: Seq<char>) -> bool {
    header == quoted(etag)
}

/// Whether the client's copy must be sent again: there is no validator, or
/// it does not name the page's etag.
pub open spec fn was_modified(if_none_match: Option<Seq<char>>, etag: Seq<char>) -> bool {
    match if_none_match {
        Some(h) => !validator_matches(h, etag),
        None => true,
    }
}

pub fn resource_was_modified(if_none_match: Option<&str>, page_etag: &str) -> (r: bool)
    ensures
        r == was_modified(
            match if_none_match {
                Some(h) => Some(h@),
                None => None,
            },
            page_etag@,
        ),
{
    match if_none_match {
        Some(h) => {
            let hv = chars_of(h);
            let ev = chars_of(page_etag);
            let mut expected: Vec<char> = vec!['"'];
            let mut i: usize = 0;
            while i < ev.len()
                invariant
                    i <= ev.len(),
                    expected@ == seq!['"'] + ev@.subrange(0, i as int),
                decreases ev.len() - i,
            {
                expected.push(ev[i]);
                assert(expected@ =~= seq!['"'] + ev@.subrange(0, i + 1));
                i = i + 1;
            }
            expected.push('"');
            assert(expected@ =~= quoted(ev@));
            !same_chars(&hv, &expected)
        },
        None => true,
    }
}

/// The body of the generic not-found answer.
pub open spec fn not_found_text() -> Seq<char> {
    "404 Not Found."@
}

/// The route of the site's own not-found page.
pub open spec fn not_found_route() -> Seq<char> {
    seq!['/', '4', '0', '4']
}

/// The answer when no page matches: the site's not-found page if it has one,
/// else a plain one.
pub open spec fn not_found_for(store: Map<Seq<char>, PageView>) -> ResponseView {
    if store.contains_key(not_found_route()) {
        ResponseView {
            status: 404,
            content_type: Some(FileType::Html),
            body: store[not_found_route()].meta.rendered->0,
            etag: None,
            max_age: None,
            location: None,
        }
    } else {
        ResponseView {
            status: 404,
            content_type: Some(FileType::Txt),
            body: not_found_text(),
            etag: None,
            max_age: None,
            location: None,
        }
    }
}

/// The status of a redirect of the given kind.
pub open spec fn redirect_status(kind: RedirectKind) -> u16 {
    match kind {
        RedirectKind::Permanent => 301,
        RedirectKind::Temporary => 302,
    }
}

/// The answer for a path that no page has: a configured redirect, or not found.
pub open spec fn unmatched_for(
    store: Map<Seq<char>, PageView>,
    redirects: Seq<(Seq<char>, RedirectKind, Seq<char>)>,
    path: Seq<char>,
) -> ResponseView {
    match redirect_for(redirects, path) {
        Some((kind, to)) => ResponseView {
            status: redirect_status(kind),
            content_type: None,
            body: Seq::empty(),
            etag: None,
            max_age: None,
            location: Some(to),
        },
        None => not_found_for(store),
    }
}

/// The answer to `GET path`.
pub open spec fn response_for(
    store: Map<Seq<char>, PageView>,
    redirects: Seq<(Seq<char>, RedirectKind, Seq<char>)>,
    path: Seq<char>,
    if_none_match: Option<Seq<char>>,
    should_cache: bool,
) -> ResponseView {
    if !store.contains_key(path) {
        unmatched_for(store, redirects, path)
    } else {
        let page = store[path];
        if should_cache && !was_modified(if_none_match, page.meta.etag) {
            ResponseView {
                status: 304,
                content_type: None,
                body: Seq::empty(),
                etag: None,
                max_age: None,
                location: None,
            }
        } else {
            ResponseView {
                status: 200,
                content_type: Some(filetype_of(path)),
                body: page.meta.rendered->0,
                etag: if should_cache {
                    Some(page.meta.etag)
                } else {
                    None
                },
                max_age: if should_cache {
                    Some(MAX_AGE)
                } else {
                    None
                },
                location: None,
            }
        }
    }
}

pub fn not_found_response(store: &ContentStore) -> (r: Response)
    requires
        servable(store@),
    ensures
        r@ == not_found_for(store@),
{
    proof {
        reveal_strlit("/404");
        assert("/404"@ =~= not_found_route());
    }
    match store.get("/404") {
        Some(page) => {
            let body = match &page.meta.rendered {
                Some(b) => b.clone(),
                None => String::new(),
            };
            Response {
                status: 404,
                content_type: Some(FileType::Html),
                body,
                etag: None,
                max_age: None,
                location: None,
            }
        },
        None => Response {
            status: 404,
            content_type: Some(FileType::Txt),
            body: String::from_str("404 Not Found."),
            etag: None,
            max_age: None,
            location: None,
        },
    }
}

pub fn redirect_request(kind: RedirectKind, to: String) -> (r: Response)
    ensures
        r@ == (ResponseView {
            status: redirect_status(kind),
            content_type: None,
            body: Seq::empty(),
            etag: None,
            max_age: None,
            location: Some(to@),
        }),
{
    let status: u16 = match kind {
        RedirectKind::Permanent => 301,
        RedirectKind::Temporary => 302,
    };
    Response {
        status,
        content_type: None,
        body: String::new(),
        etag: None,
        max_age: None,
        location: Some(to),
    }
}

pub fn unmatched_slug(store: &ContentStore, redirects: &Redirects, slug: &str) -> (r: Response)
    requires
        servable(store@),
    ensures
        r@ == unmatched_for(store@, redirects@, slug@),
{
    match redirects.lookup(slug) {
        Some((kind, to)) => redirect_request(kind, to),
        None => not_found_response(store),
    }
}

/// Answers `GET path` from one generation of the store.
pub fn catchall(
    store: &ContentStore,
    redirects: &Redirects,
    path: &str,
    if_none_match: Option<&str>,
    should_cache: bool,
) -> (r: Response)
    requires
        servable(store@),
    ensures
        r@ == response_for(
            store@,
            redirects@,
            path@,
            match if_none_match {
                Some(h) => Some(h@),
                None => None,
            },
            should_cache,
        ),
{
    let page = match store.get(path) {
        Some(page) => page,
        None => {
            return unmatched_slug(store, redirects, path);
        },
    };
    if should_cache && !resource_was_modified(if_none_match, page.meta.etag.as_str()) {
        return Response {
            status: 304,
            content_type: None,
            body: String::new(),
            etag: None,
            max_age: None,
            location: None,
        };
    }
    let body = match &page.meta.rendered {
        Some(b) => b.clone(),
        None => String::new(),
    };
    let (etag, max_age) = if should_cache {
        (Some(page.meta.etag.clone()), Some(MAX_AGE))
    } else {
        (None, None)
    };
    Response {
        status: 200,
        content_type: Some(get_filetype(path)),
        body,
        etag,
        max_age,
        location: None,
    }
}

/// With caching on, a request whose validator is the page's current etag in
/// quotes is answered 304 with an empty body; one with no validator, or any
/// other validator, is answered 200 with the page's full output.
pub proof fn lemma_conditional_get(
    store: Map<Seq<char>, PageView>,
    redirects: Seq<(Seq<char>, RedirectKind, Seq<char>)>,
    path: Seq<char>,
    validator: Option<Seq<char>>,
)
    requires
        store.contains_key(path),
    ensures
        validator == Some(quoted(store[path].meta.etag)) ==> response_for(
            store,
            redirects,
            path,
            validator,
            true,
        ).status == 304 && response_for(store, redirects, path, validator, true).body.len() == 0,
        was_modified(validator, store[path].meta.etag) ==> response_for(
            store,
            redirects,
            path,
            validator,
            true,
        ).status == 200 && response_for(store, redirects, path, validator, true).body
            == store[path].meta.rendered->0,
{
}

/// A route that a rebuild drops is no longer served: a request for it is
/// redirected where the redirect table says so, and otherwise not found.
pub proof fn lemma_removed_route_not_served(
    previous: Map<Seq<char>, PageView>,
    candidate: Map<Seq<char>, PageView>,
    redirects: Seq<(Seq<char>, RedirectKind, Seq<char>)>,
    path: Seq<char>,
    if_none_match: Option<Seq<char>>,
    should_cache: bool,
)
    requires
        !candidate.contains_key(path),
    ensures
        response_for(rebuilt(previous, candidate), redirects, path, if_none_match, should_cache)
            == unmatched_for(rebuilt(previous, candidate), redirects, path),
        redirect_for(redirects, path) is None ==> response_for(
            rebuilt(previous, candidate),
            redirects,
            path,
            if_none_match,
            should_cache,
        ).status == 404,
{
}

} // verus!
