//! Site settings that the library acts on: the configured page types and the
//! redirect table.

use crate::text::{chars_of, opt_view, str_is};
use vstd::prelude::*;
use vstd::string::StringExecFns;

verus! {

/// A configured class of content: where its sources live and which template
/// its pages fall back to.
pub struct ConfigPageType {
    pub ttype: String,
    pub path: String,
    pub default_layout: String,
}

impl View for ConfigPageType {
    type V = (Seq<char>, Seq<char>, Seq<char>);

    open spec fn view(&self) -> (Seq<char>, Seq<char>, Seq<char>) {
        (self.ttype@, self.path@, self.default_layout@)
    }
}

/// A page type as the configuration gives it, where any field may be missing.
pub struct PageTypeEntry {
    pub ttype: Option<String>,
    pub path: Option<String>,
    pub default_layout: Option<String>,
}

impl View for PageTypeEntry {
    type V = (Option<Seq<char>>, Option<Seq<char>>, Option<Seq<char>>);

    open spec fn view(&self) -> (Option<Seq<char>>, Option<Seq<char>>, Option<Seq<char>>) {
        (opt_view(self.ttype), opt_view(self.path), opt_view(self.default_layout))
    }
}

/// The page type an entry describes, where none of its fields is missing.
pub open spec fn page_type_of(e: (Option<Seq<char>>, Option<Seq<char>>, Option<Seq<char>>)) -> Option<
    (Seq<char>, Seq<char>, Seq<char>),
> {
    if e.0 is Some && e.1 is Some && e.2 is Some {
        Some((e.0->0, e.1->0, e.2->0))
    } else {
        None
    }
}

/// The page types of the complete entries of `s`, in order.
pub open spec fn page_types_of(s: Seq<(Option<Seq<char>>, Option<Seq<char>>, Option<Seq<char>>)>) -> Seq<
    (Seq<char>, Seq<char>, Seq<char>),
>
    decreases s.len(),
{
    if s.len() == 0 {
        Seq::empty()
    } else {
        match page_type_of(s.last()) {
            Some(t) => page_types_of(s.drop_last()).push(t),
            None => page_types_of(s.drop_last()),
        }
    }
}

impl PageTypeEntry {
    pub fn into_page_type(&self) -> (r: Option<ConfigPageType>)
        ensures
            match r {
                Some(t) => page_type_of(self@) == Some(t@),
                None => page_type_of(self@) is None,
            },
    {
        let ttype = match &self.ttype {
            Some(t) => t.clone(),
            None => {
                return None;
            },
        };
        let path = match &self.path {
            Some(p) => p.clone(),
            None => {
                return None;
            },
        };
        let default_layout = match &self.default_layout {
            Some(d) => d.clone(),
            None => {
                return None;
            },
        };
        Some(ConfigPageType { ttype, path, default_layout })
    }
}

/// The page types of the configured entries; an entry with a missing field
/// is skipped.
pub fn get_page_types(entries: &Vec<PageTypeEntry>) -> (r: Vec<ConfigPageType>)
    ensures
        r@.map_values(|t: ConfigPageType| t@) == page_types_of(
            entries@.map_values(|e: PageTypeEntry| e@),
        ),
{
    let ghost es = entries@.map_values(|e: PageTypeEntry| e@);
    let mut r: Vec<ConfigPageType> = Vec::new();
    let mut i: usize = 0;
    while i < entries.len()
        invariant
            i <= entries.len(),
            es == entries@.map_values(|e: PageTypeEntry| e@),
            r@.map_values(|t: ConfigPageType| t@) == page_types_of(es.subrange(0, i as int)),
        decreases entries.len() - i,
    {
        assert(es.subrange(0, i + 1).drop_last() =~= es.subrange(0, i as int));
        let ghost before = r@;
        match entries[i].into_page_type() {
            Some(t) => {
                r.push(t);
                assert(r@.map_values(|t: ConfigPageType| t@) =~= before.map_values(
                    |t: ConfigPageType| t@,
                ).push(r@.last()@));
            },
            None => {},
        }
        i = i + 1;
    }
    assert(es.subrange(0, entries@.len() as int) =~= es);
    r
}

/// Whether a redirect is permanent or temporary.
#[derive(Clone, Copy, Debug, PartialEq, Eq, Structural)]
pub enum RedirectKind {
    Permanent,
    Temporary,
}

/// One entry of the redirect table: requests for `from` are sent to `to`.
pub struct Redirect {
    pub from: String,
    pub kind: RedirectKind,
    pub to: String,
}

impl View for Redirect {
    type V = (Seq<char>, RedirectKind, Seq<char>);

    open spec fn view(&self) -> (Seq<char>, RedirectKind, Seq<char>) {
        (self.from@, self.kind, self.to@)
    }
}

/// A redirect as the configuration gives it.
pub struct RawRedirect {
    pub from: Option<String>,
    pub redirect_type: Option<String>,
    pub to: Option<String>,
}

impl View for RawRedirect {
    type V = (Option<Seq<char>>, Option<Seq<char>>, Option<Seq<char>>);

    open spec fn view(&self) -> (Option<Seq<char>>, Option<Seq<char>>, Option<Seq<char>>) {
        (opt_view(self.from), opt_view(self.redirect_type), opt_view(self.to))
    }
}

/// Why the settings cannot be used.
#[derive(Debug)]
pub enum SettingsError {
    /// A redirect lacks the named field.
    MissingField(String),
    /// A redirect's type is neither `permanent` nor `temporary`.
    InvalidRedirectType(String),
}

pub open spec fn permanent_word() -> Seq<char> {
    seq!['p', 'e', 'r', 'm', 'a', 'n', 'e', 'n', 't']
}

pub open spec fn temporary_word() -> Seq<char> {
    seq!['t', 'e', 'm', 'p', 'o', 'r', 'a', 'r', 'y']
}

/// The kind a redirect type names.
pub open spec fn redirect_kind_of(t: Seq<char>) -> Option<RedirectKind> {
    if t == permanent_word() {
        Some(RedirectKind::Permanent)
    } else if t == temporary_word() {
        Some(RedirectKind::Temporary)
    } else {
        None
    }
}

/// The redirect a raw entry describes: it has its three fields and a known type.
pub open spec fn redirect_of(r: (Option<Seq<char>>, Option<Seq<char>>, Option<Seq<char>>)) -> Option<
    (Seq<char>, RedirectKind, Seq<char>),
> {
    if r.0 is Some && r.1 is Some && r.2 is Some && redirect_kind_of(r.1->0) is Some {
        Some((r.0->0, redirect_kind_of(r.1->0)->0, r.2->0))
    } else {
        None
    }
}

/// The error that checking the raw redirect `r` gives: the first missing
/// field of `from`, `type` and `to`, else the unknown type.
pub open spec fn is_redirect_error(
    e: SettingsError,
    r: (Option<Seq<char>>, Option<Seq<char>>, Option<Seq<char>>),
) -> bool {
    match e {
        SettingsError::MissingField(f) => if r.0 is None {
            f@ == "from"@
        } else if r.1 is None {
            f@ == "type"@
        } else if r.2 is None {
            f@ == "to"@
        } else {
            false
        },
        SettingsError::InvalidRedirectType(t) => r.0 is Some && r.1 is Some && r.2 is Some && r.1
            == Some(t@) && redirect_kind_of(t@) is None,
    }
}

/// Checks one redirect of the configuration.
pub fn parse_redirect(raw: &RawRedirect) -> (r: Result<Redirect, SettingsError>)
    ensures
        match r {
            Ok(d) => redirect_of(raw@) == Some(d@),
            Err(e) => redirect_of(raw@) is None && is_redirect_error(e, raw@),
        },
{
    proof {
        reveal_strlit("from");
        reveal_strlit("type");
        reveal_strlit("to");
    }
    let from = match &raw.from {
        Some(f) => f.clone(),
        None => {
            return Err(SettingsError::MissingField(String::from_str("from")));
        },
    };
    let redirect_type = match &raw.redirect_type {
        Some(t) => t,
        None => {
            return Err(SettingsError::MissingField(String::from_str("type")));
        },
    };
    let to = match &raw.to {
        Some(t) => t.clone(),
        None => {
            return Err(SettingsError::MissingField(String::from_str("to")));
        },
    };
    let kind = if str_is(redirect_type.as_str(), &vec!['p', 'e', 'r', 'm', 'a', 'n', 'e', 'n', 't']) {
        RedirectKind::Permanent
    } else if str_is(redirect_type.as_str(), &vec!['t', 'e', 'm', 'p', 'o', 'r', 'a', 'r', 'y']) {
        RedirectKind::Temporary
    } else {
        return Err(SettingsError::InvalidRedirectType(redirect_type.clone()));
    };
    Ok(Redirect { from, kind, to })
}

/// The target of the last redirect of `s` whose source is `path`.
pub open spec fn redirect_for(s: Seq<(Seq<char>, RedirectKind, Seq<char>)>, path: Seq<char>) -> Option<
    (RedirectKind, Seq<char>),
>
    decreases s.len(),
{
    if s.len() == 0 {
        None
    } else if s.last().0 == path {
        Some((s.last().1, s.last().2))
    } else {
        redirect_for(s.drop_last(), path)
    }
}

/// The redirect table: where two entries share a source, the later one holds.
pub struct Redirects {
    pub entries: Vec<Redirect>,
}

impl View for Redirects {
    type V = Seq<(Seq<char>, RedirectKind, Seq<char>)>;

    open spec fn view(&self) -> Seq<(Seq<char>, RedirectKind, Seq<char>)> {
        self.entries@.map_values(|d: Redirect| d@)
    }
}

/// The redirects of the complete, well-typed raw entries of `s`, in order.
pub open spec fn redirects_of(s: Seq<(Option<Seq<char>>, Option<Seq<char>>, Option<Seq<char>>)>) -> Seq<
    (Seq<char>, RedirectKind, Seq<char>),
> {
    s.map_values(|r: (Option<Seq<char>>, Option<Seq<char>>, Option<Seq<char>>)| redirect_of(r)->0)
}

impl Redirects {
    pub fn new() -> (r: Redirects)
        ensures
            r@ == Seq::<(Seq<char>, RedirectKind, Seq<char>)>::empty(),
    {
        let r = Redirects { entries: Vec::new() };
        assert(r@ =~= Seq::<(Seq<char>, RedirectKind, Seq<char>)>::empty());
        r
    }

    /// The kind and target of the redirect for `path`.
    pub fn lookup(&self, path: &str) -> (r: Option<(RedirectKind, String)>)
        ensures
            match r {
                Some((k, to)) => redirect_for(self@, path@) == Some((k, to@)),
                None => redirect_for(self@, path@) is None,
            },
    {
        let pv = chars_of(path);
        let mut i: usize = self.entries.len();
        assert(self@.subrange(0, i as int) =~= self@);
        while i > 0
            invariant
                i <= self.entries.len(),
                pv@ == path@,
                redirect_for(self@, path@) == redirect_for(self@.subrange(0, i as int), path@),
            decreases i,
        {
            let ghost pre = self@.subrange(0, i as int);
            assert(pre.drop_last() =~= self@.subrange(0, i - 1));
            let d = &self.entries[i - 1];
            if str_is(d.from.as_str(), &pv) {
                return Some((d.kind, d.to.clone()));
            }
            i = i - 1;
        }
        None
    }
}

/// Checks the redirects of the configuration: the table, or the first error.
pub fn parse_redirects(raw: &Vec<RawRedirect>) -> (r: Result<Redirects, SettingsError>)
    ensures
        match r {
            Ok(t) => (forall|i: int|
                0 <= i < raw@.len() ==> redirect_of(#[trigger] raw@[i]@) is Some) && t@ == redirects_of(
                raw@.map_values(|x: RawRedirect| x@),
            ),
            Err(e) => exists|i: int|
                0 <= i < raw@.len() && redirect_of(#[trigger] raw@[i]@) is None && is_redirect_error(
                    e,
                    raw@[i]@,
                ) && forall|j: int| 0 <= j < i ==> redirect_of(#[trigger] raw@[j]@) is Some,
        },
{
    let ghost rs = raw@.map_values(|x: RawRedirect| x@);
    let mut t = Redirects::new();
    let mut i: usize = 0;
    while i < raw.len()
        invariant
            i <= raw.len(),
            rs == raw@.map_values(|x: RawRedirect| x@),
            forall|j: int| 0 <= j < i ==> redirect_of(#[trigger] raw@[j]@) is Some,
            t@ == redirects_of(rs.subrange(0, i as int)),
        decreases raw.len() - i,
    {
        match parse_redirect(&raw[i]) {
            Ok(d) => {
                let ghost before = t@;
                let ghost dv = d@;
                t.entries.push(d);
                assert(t@ =~= before.push(dv));
                assert(rs[i as int] == raw@[i as int]@);
                assert(rs.subrange(0, i + 1) =~= rs.subrange(0, i as int).push(rs[i as int]));
                assert(t@ =~= redirects_of(rs.subrange(0, i + 1)));
            },
            Err(e) => {
                return Err(e);
            },
        }
        i = i + 1;
    }
    assert(rs.subrange(0, raw@.len() as int) =~= rs);
    Ok(t)
}

} // verus!
