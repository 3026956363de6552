//! The last steps of rendering a page: minifying the laid-out output, and
//! where that output is mirrored on disk.

use crate::page::{filetype_of, get_filetype, FileType};
use crate::text::{chars_of, last_index_of, last_index_of_exec, push_str, string_of};
use vstd::prelude::*;

verus! {

#[verifier::external_type_specification]
#[verifier::external_body]
pub struct ExHTMLMinifierError(html_minifier::HTMLMinifierError);

/// What html-minifier makes of a text: the minified text, or `None` where
/// the minifier refuses it.
pub uninterp spec fn minified_of(s: Seq<char>) -> Option<Seq<char>>;

/// Relies on `html_minifier::minify`: whether it succeeds, and the minified
/// text, depend on the input alone.
#[verifier::external_body]
fn minify(html: &str) -> (r: Result<String, html_minifier::HTMLMinifierError>)
    ensures
        match r {
            Ok(m) => minified_of(html@) == Some(m@),
            Err(_) => minified_of(html@) is None,
        },
{
    html_minifier::minify(html)
}

/// Why a page's output could not be produced.
#[derive(Debug)]
pub enum RenderError {
    /// The layout template failed; the text says why.
    Template(String),
    /// The minifier refused the laid-out output.
    Minify,
}

/// Whether output for a route of this type is minified.
pub open spec fn is_minified(t: FileType) -> bool {
    t != FileType::Txt
}

/// Finishes the output of the page at `slug` from its laid-out text: plain
/// text is kept as it is, every other kind is minified, and fails exactly
/// where the minifier refuses the text.
pub fn finish_render(slug: &str, laid_out: String) -> (r: Result<String, RenderError>)
    ensures
        !is_minified(filetype_of(slug@)) ==> (r matches Ok(s) && s@ == laid_out@),
        is_minified(filetype_of(slug@)) ==> (r is Ok <==> minified_of(laid_out@) is Some),
        is_minified(filetype_of(slug@)) ==> match r {
            Ok(s) => minified_of(laid_out@) == Some(s@),
            Err(e) => e is Minify,
        },
{
    match get_filetype(slug) {
        FileType::Txt => Ok(laid_out),
        _ => match minify(laid_out.as_str()) {
            Ok(m) => Ok(m),
            Err(_) => Err(RenderError::Minify),
        },
    }
}

/// The file name that a route's output is written under, relative to the
/// output directory: the route without its leading `/`, and, where its last
/// segment has no extension, the `index.html` inside it.
pub open spec fn output_path_of(key: Seq<char>) -> Seq<char> {
    let rel = if key.len() > 0 && key[0] == '/' {
        key.drop_first()
    } else {
        key
    };
    let seg = last_index_of(rel, '/');
    let dot = last_index_of(rel, '.');
    if dot > seg + 1 {
        rel
    } else if rel.len() == 0 || rel.last() == '/' {
        rel + "index.html"@
    } else {
        rel + "/index.html"@
    }
}

pub fn output_path(key: &str) -> (r: String)
    ensures
        r@ == output_path_of(key@),
{
    let k = chars_of(key);
    let rel_chars = if k.len() > 0 && k[0] == '/' {
        let mut t: Vec<char> = Vec::new();
        let mut i: usize = 1;
        while i < k.len()
            invariant
                1 <= i <= k.len(),
                t@ == k@.subrange(1, i as int),
            decreases k.len() - i,
        {
            t.push(k[i]);
            assert(t@ =~= k@.subrange(1, i + 1));
            i = i + 1;
        }
        assert(t@ =~= k@.drop_first());
        t
    } else {
        k
    };
    proof {
        crate::text::lemma_last_index_of_bounds(rel_chars@, '/');
        crate::text::lemma_last_index_of_bounds(rel_chars@, '.');
    }
    let has_ext = match last_index_of_exec(&rel_chars, '.') {
        None => false,
        Some(d) => match last_index_of_exec(&rel_chars, '/') {
            None => d > 0,
            Some(g) => d > g + 1,
        },
    };
    let mut r = string_of(&rel_chars);
    if has_ext {
        r
    } else if rel_chars.len() == 0 || rel_chars[rel_chars.len() - 1] == '/' {
        push_str(&mut r, "index.html");
        r
    } else {
        push_str(&mut r, "/index.html");
        r
    }
}

} // verus!
