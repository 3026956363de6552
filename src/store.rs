//! The content store: one complete generation of the route-to-page mapping,
//! and the rebuild that derives the next generation from the previous one.

use crate::page::{Page, PageMetaView, PageView};
use crate::text::{chars_of, opt_view, str_is};
use vstd::prelude::*;

verus! {

/// No two pages of `s` share a route key.
pub open spec fn unique_slugs(s: Seq<PageView>) -> bool {
    forall|i: int, j: int|
        0 <= i < s.len() && 0 <= j < s.len() && i != j ==> #[trigger] s[i].slug != #[trigger] s[j].slug
}

/// Some page of `s` has the route key `k`.
pub open spec fn has_slug(s: Seq<PageView>, k: Seq<char>) -> bool {
    exists|i: int| 0 <= i < s.len() && #[trigger] s[i].slug == k
}

/// The mapping from route key to page that the pages of `s` make.
pub open spec fn map_of(s: Seq<PageView>) -> Map<Seq<char>, PageView> {
    Map::new(
        |k: Seq<char>| has_slug(s, k),
        |k: Seq<char>| s[choose|i: int| 0 <= i < s.len() && #[trigger] s[i].slug == k],
    )
}

pub proof fn lemma_map_of_at(s: Seq<PageView>, i: int)
    requires
        unique_slugs(s),
        0 <= i < s.len(),
    ensures
        map_of(s).contains_key(s[i].slug),
        map_of(s)[s[i].slug] == s[i],
{
    let k = s[i].slug;
    assert(has_slug(s, k));
    let j = choose|j: int| 0 <= j < s.len() && #[trigger] s[j].slug == k;
    assert(s[j].slug == s[i].slug);
}

proof fn lemma_map_of_update(s: Seq<PageView>, i: int, p: PageView)
    requires
        unique_slugs(s),
        0 <= i < s.len(),
        s[i].slug == p.slug,
    ensures
        unique_slugs(s.update(i, p)),
        map_of(s.update(i, p)) == map_of(s).insert(p.slug, p),
{
    let t = s.update(i, p);
    assert(unique_slugs(t)) by {
        assert forall|a: int, b: int|
            0 <= a < t.len() && 0 <= b < t.len() && a != b implies #[trigger] t[a].slug
            != #[trigger] t[b].slug by {
            assert(s[a].slug != s[b].slug);
        }
    }
    let m = map_of(s).insert(p.slug, p);
    assert forall|k: Seq<char>| #[trigger] map_of(t).contains_key(k) <==> m.contains_key(k) by {
        if has_slug(t, k) {
            let j = choose|j: int| 0 <= j < t.len() && #[trigger] t[j].slug == k;
            if j != i {
                assert(s[j].slug == k);
            }
        }
        if has_slug(s, k) {
            let j = choose|j: int| 0 <= j < s.len() && #[trigger] s[j].slug == k;
            assert(t[j].slug == k);
        }
        if k == p.slug {
            assert(t[i].slug == k);
        }
    }
    assert forall|k: Seq<char>| #[trigger] map_of(t).contains_key(k) implies map_of(t)[k] == m[k] by {
        let j = choose|j: int| 0 <= j < t.len() && #[trigger] t[j].slug == k;
        lemma_map_of_at(t, j);
        if j != i {
            lemma_map_of_at(s, j);
        }
    }
    assert(map_of(t) =~= m);
}

proof fn lemma_map_of_push(s: Seq<PageView>, p: PageView)
    requires
        unique_slugs(s),
        !has_slug(s, p.slug),
    ensures
        unique_slugs(s.push(p)),
        map_of(s.push(p)) == map_of(s).insert(p.slug, p),
{
    let t = s.push(p);
    let n = s.len() as int;
    assert(unique_slugs(t)) by {
        assert forall|a: int, b: int|
            0 <= a < t.len() && 0 <= b < t.len() && a != b implies #[trigger] t[a].slug
            != #[trigger] t[b].slug by {
            if a < n && b < n {
                assert(s[a].slug != s[b].slug);
            } else if a < n {
                assert(s[a].slug == t[a].slug);
            } else {
                assert(s[b].slug == t[b].slug);
            }
        }
    }
    let m = map_of(s).insert(p.slug, p);
    assert forall|k: Seq<char>| #[trigger] map_of(t).contains_key(k) <==> m.contains_key(k) by {
        if has_slug(t, k) {
            let j = choose|j: int| 0 <= j < t.len() && #[trigger] t[j].slug == k;
            if j != n {
                assert(s[j].slug == k);
            }
        }
        if has_slug(s, k) {
            let j = choose|j: int| 0 <= j < s.len() && #[trigger] s[j].slug == k;
            assert(t[j].slug == k);
        }
        if k == p.slug {
            assert(t[n].slug == k);
        }
    }
    assert forall|k: Seq<char>| #[trigger] map_of(t).contains_key(k) implies map_of(t)[k] == m[k] by {
        let j = choose|j: int| 0 <= j < t.len() && #[trigger] t[j].slug == k;
        lemma_map_of_at(t, j);
        if j != n {
            assert(s[j] == t[j]);
            lemma_map_of_at(s, j);
        }
    }
    assert(map_of(t) =~= m);
}

/// The mapping that inserting the pages of `s` one after another makes: of
/// two pages with one route key, the later one stays.
pub open spec fn last_wins(s: Seq<PageView>) -> Map<Seq<char>, PageView>
    decreases s.len(),
{
    if s.len() == 0 {
        Map::empty()
    } else {
        last_wins(s.drop_last()).insert(s.last().slug, s.last())
    }
}

/// Every route of `m` holds a page whose route key is that route.
pub open spec fn keyed_by_slug(m: Map<Seq<char>, PageView>) -> bool {
    forall|k: Seq<char>| m.contains_key(k) ==> (#[trigger] m[k]).slug == k
}

proof fn lemma_map_of_keyed(s: Seq<PageView>)
    ensures
        keyed_by_slug(map_of(s)),
{
    assert forall|k: Seq<char>| map_of(s).contains_key(k) implies (#[trigger] map_of(s)[k]).slug == k by {
        let j = choose|j: int| 0 <= j < s.len() && #[trigger] s[j].slug == k;
    }
}

/// Every page of `m` has its final output.
pub open spec fn servable(m: Map<Seq<char>, PageView>) -> bool {
    forall|k: Seq<char>| m.contains_key(k) ==> (#[trigger] m[k]).meta.rendered is Some
}

/// The generation that a rebuild installs: the routes of `candidate`, where
/// each page whose output is unchanged since `previous` is `previous`'s page.
pub open spec fn rebuilt(
    previous: Map<Seq<char>, PageView>,
    candidate: Map<Seq<char>, PageView>,
) -> Map<Seq<char>, PageView> {
    Map::new(
        |k: Seq<char>| candidate.contains_key(k),
        |k: Seq<char>|
            if previous.contains_key(k) && previous[k].meta.rendered == candidate[k].meta.rendered {
                previous[k]
            } else {
                candidate[k]
            },
    )
}

/// `p` with its final output set to `r`.
pub open spec fn rendered_as(p: PageView, r: Seq<char>) -> PageView {
    PageView { meta: PageMetaView { rendered: Some(r), ..p.meta }, ..p }
}

/// A mapping from route key to page, with at most one page per key.
pub struct ContentStore {
    pages: Vec<Page>,
}

impl View for ContentStore {
    type V = Map<Seq<char>, PageView>;

    closed spec fn view(&self) -> Map<Seq<char>, PageView> {
        map_of(self.entries())
    }
}

impl ContentStore {
    /// The pages in the order that `pages` gives them.
    pub closed spec fn entries(&self) -> Seq<PageView> {
        self.pages@.map_values(|p: Page| p@)
    }

    #[verifier::type_invariant]
    spec fn wf(&self) -> bool {
        unique_slugs(self.entries())
    }

    proof fn lemma_view(&self)
        requires
            self.wf(),
        ensures
            self@ == map_of(self.entries()),
            unique_slugs(self.entries()),
            forall|i: int|
                0 <= i < self.entries().len() ==> self@.contains_key(
                    #[trigger] self.entries()[i].slug,
                ) && self@[self.entries()[i].slug] == self.entries()[i],
            forall|k: Seq<char>|
                self@.contains_key(k) ==> exists|i: int|
                    0 <= i < self.entries().len() && #[trigger] self.entries()[i].slug == k,
    {
        assert forall|i: int| 0 <= i < self.entries().len() implies self@.contains_key(
            #[trigger] self.entries()[i].slug,
        ) && self@[self.entries()[i].slug] == self.entries()[i] by {
            lemma_map_of_at(self.entries(), i);
        }
    }

    pub fn new() -> (r: ContentStore)
        ensures
            r@ == Map::<Seq<char>, PageView>::empty(),
    {
        let r = ContentStore { pages: Vec::new() };
        assert(r@ =~= Map::<Seq<char>, PageView>::empty());
        r
    }

    /// The pages, one per route key.
    pub fn pages(&self) -> (r: &Vec<Page>)
        ensures
            r@.map_values(|p: Page| p@) == self.entries(),
            forall|i: int|
                0 <= i < self.entries().len() ==> self@.contains_key(
                    #[trigger] self.entries()[i].slug,
                ) && self@[self.entries()[i].slug] == self.entries()[i],
            forall|k: Seq<char>|
                #[trigger] self@.contains_key(k) ==> exists|i: int|
                    0 <= i < self.entries().len() && #[trigger] self.entries()[i].slug == k,
    {
        proof {
            use_type_invariant(self);
            self.lemma_view();
        }
        &self.pages
    }

    /// Every route of a store holds a page whose route key is that route.
    pub proof fn lemma_keyed_by_slug(&self)
        ensures
            keyed_by_slug(self@),
    {
        lemma_map_of_keyed(self.entries());
    }

    pub fn len(&self) -> (r: usize)
        ensures
            r == self.entries().len(),
    {
        self.pages.len()
    }

    /// The position of the page with route key `key`.
    fn index_of(&self, key: &str) -> (r: Option<usize>)
        ensures
            match r {
                Some(i) => i < self.entries().len() && self.entries()[i as int].slug == key@,
                None => !self@.contains_key(key@),
            },
    {
        proof {
            use_type_invariant(self);
            self.lemma_view();
        }
        let kv = chars_of(key);
        let mut i: usize = 0;
        while i < self.pages.len()
            invariant
                i <= self.pages.len(),
                kv@ == key@,
                forall|j: int| 0 <= j < i ==> self.entries()[j].slug != key@,
            decreases self.pages.len() - i,
        {
            if str_is(self.pages[i].slug.as_str(), &kv) {
                return Some(i);
            }
            i = i + 1;
        }
        None
    }

    /// The page served under `key`.
    pub fn get(&self, key: &str) -> (r: Option<&Page>)
        ensures
            match r {
                Some(p) => self@.contains_key(key@) && self@[key@] == p@ && p@.slug == key@,
                None => !self@.contains_key(key@),
            },
    {
        proof {
            use_type_invariant(self);
            self.lemma_view();
        }
        match self.index_of(key) {
            Some(i) => Some(&self.pages[i]),
            None => None,
        }
    }

    /// Adds `page` under its route key, replacing a page already there.
    pub fn insert(&mut self, page: Page)
        ensures
            final(self)@ == old(self)@.insert(page@.slug, page@),
    {
        proof {
            use_type_invariant(&*self);
            self.lemma_view();
        }
        let ghost pv = page@;
        let ghost before = self.entries();
        let found = self.index_of(page.slug.as_str());
        let mut pages: Vec<Page> = Vec::new();
        std::mem::swap(&mut pages, &mut self.pages);
        assert(views_of(pages@) == before);
        match found {
            Some(i) => {
                pages.set(i, page);
                proof {
                    assert(views_of(pages@) =~= before.update(i as int, pv));
                    lemma_map_of_update(before, i as int, pv);
                }
            },
            None => {
                pages.push(page);
                proof {
                    assert(views_of(pages@) =~= before.push(pv));
                    lemma_map_of_push(before, pv);
                }
            },
        }
        self.pages = pages;
    }
}

/// Whether two optional outputs are the same text.
fn same_output(a: &Option<String>, b: &Option<String>) -> (r: bool)
    ensures
        r == (opt_view(*a) == opt_view(*b)),
{
    match (a, b) {
        (Some(x), Some(y)) => x.eq(y),
        (None, None) => true,
        _ => false,
    }
}

/// The view of each page of `v`.
pub open spec fn views_of(v: Seq<Page>) -> Seq<PageView> {
    v.map_values(|p: Page| p@)
}

impl ContentStore {
    /// The store that inserting `pages` in order makes: where two pages
    /// share a route key, the later one is kept.
    pub fn collect_pages(pages: &Vec<Page>) -> (r: ContentStore)
        ensures
            r@ == last_wins(views_of(pages@)),
    {
        let mut r = ContentStore::new();
        let mut i: usize = 0;
        while i < pages.len()
            invariant
                i <= pages.len(),
                r@ == last_wins(views_of(pages@).subrange(0, i as int)),
            decreases pages.len() - i,
        {
            let ghost s = views_of(pages@);
            assert(s.subrange(0, i + 1).drop_last() =~= s.subrange(0, i as int));
            r.insert(pages[i].duplicate());
            i = i + 1;
        }
        assert(views_of(pages@).subrange(0, pages@.len() as int) =~= views_of(pages@));
        r
    }

    /// Whether every page has its final output.
    pub fn is_servable(&self) -> (r: bool)
        ensures
            r == servable(self@),
    {
        proof {
            use_type_invariant(self);
            self.lemma_view();
        }
        let mut i: usize = 0;
        while i < self.pages.len()
            invariant
                i <= self.pages.len(),
                unique_slugs(self.entries()),
                forall|j: int| 0 <= j < i ==> (#[trigger] self.entries()[j]).meta.rendered is Some,
            decreases self.pages.len() - i,
        {
            if self.pages[i].meta.rendered.is_none() {
                proof {
                    lemma_map_of_at(self.entries(), i as int);
                }
                return false;
            }
            i = i + 1;
        }
        assert forall|k: Seq<char>| self@.contains_key(k) implies (#[trigger] self@[k]).meta.rendered is Some by {
            let j = choose|j: int| 0 <= j < self.entries().len() && #[trigger] self.entries()[j].slug == k;
            lemma_map_of_at(self.entries(), j);
        }
        true
    }
}

/// The page that a rebuild keeps under the route key of `c`.
pub open spec fn kept_page(previous: Map<Seq<char>, PageView>, c: PageView) -> PageView {
    if previous.contains_key(c.slug) && previous[c.slug].meta.rendered == c.meta.rendered {
        previous[c.slug]
    } else {
        c
    }
}

/// Derives the next generation of the store from the previous one and a
/// freshly built candidate: every route of the candidate is kept, and where
/// a page's output is byte-for-byte the one the previous generation serves,
/// the previous page (and so its etag) is kept instead of the new one.
/// Routes that the candidate lacks are gone.
pub fn rebuild_site(previous: &ContentStore, candidate: &ContentStore) -> (r: ContentStore)
    ensures
        r@ == rebuilt(previous@, candidate@),
{
    proof {
        use_type_invariant(previous);
        use_type_invariant(candidate);
        previous.lemma_view();
        candidate.lemma_view();
    }
    let ghost s = candidate.entries();
    let mut out: Vec<Page> = Vec::new();
    let mut i: usize = 0;
    while i < candidate.pages.len()
        invariant
            i <= candidate.pages.len(),
            s == candidate.entries(),
            out@.len() == i,
            forall|j: int| 0 <= j < i ==> (#[trigger] views_of(out@)[j]) == kept_page(previous@, s[j]),
        decreases candidate.pages.len() - i,
    {
        let c = &candidate.pages[i];
        let kept = match previous.get(c.slug.as_str()) {
            Some(p) => {
                if same_output(&p.meta.rendered, &c.meta.rendered) {
                    p.duplicate()
                } else {
                    c.duplicate()
                }
            },
            None => c.duplicate(),
        };
        let ghost kv = kept@;
        let ghost old_out = out@;
        assert(kv == kept_page(previous@, s[i as int]));
        out.push(kept);
        proof {
            assert forall|j: int| 0 <= j < i + 1 implies (#[trigger] views_of(out@)[j]) == kept_page(
                previous@,
                s[j],
            ) by {
                if j < i {
                    assert(out@[j] == old_out[j]);
                    assert(views_of(old_out)[j] == old_out[j]@);
                } else {
                    assert(out@[j]@ == kv);
                }
            }
        }
        i = i + 1;
    }
    proof {
        let t = views_of(out@);
        assert forall|j: int| 0 <= j < t.len() implies #[trigger] t[j].slug == s[j].slug by {}
        assert(unique_slugs(t)) by {
            assert forall|a: int, b: int|
                0 <= a < t.len() && 0 <= b < t.len() && a != b implies #[trigger] t[a].slug
                != #[trigger] t[b].slug by {
                assert(t[a].slug == s[a].slug);
                assert(t[b].slug == s[b].slug);
            }
        }
    }
    let r = ContentStore { pages: out };
    proof {
        let t = r.entries();
        assert(t =~= views_of(out@));
        let m = rebuilt(previous@, candidate@);
        assert forall|k: Seq<char>| #[trigger] r@.contains_key(k) <==> m.contains_key(k) by {
            if has_slug(t, k) {
                let j = choose|j: int| 0 <= j < t.len() && #[trigger] t[j].slug == k;
                assert(s[j].slug == k);
            }
            if has_slug(s, k) {
                let j = choose|j: int| 0 <= j < s.len() && #[trigger] s[j].slug == k;
                assert(t[j].slug == k);
            }
        }
        assert forall|k: Seq<char>| #[trigger] r@.contains_key(k) implies r@[k] == m[k] by {
            let j = choose|j: int| 0 <= j < t.len() && #[trigger] t[j].slug == k;
            lemma_map_of_at(t, j);
            lemma_map_of_at(s, j);
        }
        assert(r@ =~= m);
    }
    r
}

/// The store that a render pass makes: `outputs[i]` is the final output of
/// the `i`-th page of `candidate.pages()`, or `None` where its template could
/// not be rendered. Pages that rendered get their output; the others are
/// left out.
pub fn apply_rendered(candidate: &ContentStore, outputs: &Vec<Option<String>>) -> (r: ContentStore)
    requires
        outputs@.len() == candidate.entries().len(),
    ensures
        servable(r@),
        keyed_by_slug(r@),
        forall|k: Seq<char>|
            #[trigger] r@.contains_key(k) <==> exists|i: int|
                0 <= i < outputs@.len() && #[trigger] candidate.entries()[i].slug == k
                    && outputs@[i] is Some,
        forall|i: int|
            0 <= i < outputs@.len() && #[trigger] outputs@[i] is Some ==> r@[candidate.entries()[i].slug]
                == rendered_as(candidate@[candidate.entries()[i].slug], outputs@[i]->0@),
        forall|k: Seq<char>| #[trigger]
            r@.contains_key(k) ==> candidate@.contains_key(k),
        forall|i: int|
            0 <= i < outputs@.len() ==> (r@.contains_key(#[trigger] candidate.entries()[i].slug)
                <==> outputs@[i] is Some),
        forall|i: int|
            0 <= i < outputs@.len() && #[trigger] outputs@[i] is Some ==> r@[candidate.entries()[i].slug]
                == rendered_as(candidate.entries()[i], outputs@[i]->0@),
{
    proof {
        use_type_invariant(candidate);
        candidate.lemma_view();
    }
    let ghost s = candidate.entries();
    let mut r = ContentStore::new();
    let mut i: usize = 0;
    while i < candidate.pages.len()
        invariant
            i <= candidate.pages.len(),
            s == candidate.entries(),
            unique_slugs(s),
            outputs@.len() == s.len(),
            servable(r@),
            forall|k: Seq<char>|
                #[trigger] r@.contains_key(k) ==> exists|a: int|
                    0 <= a < i && #[trigger] s[a].slug == k && outputs@[a] is Some,
            forall|a: int|
                0 <= a < i ==> (r@.contains_key(#[trigger] s[a].slug) <==> outputs@[a] is Some),
            forall|a: int|
                0 <= a < i && #[trigger] outputs@[a] is Some ==> r@[s[a].slug] == rendered_as(
                    s[a],
                    outputs@[a]->0@,
                ),
        decreases candidate.pages.len() - i,
    {
        let ghost before = r@;
        match &outputs[i] {
            Some(text) => {
                let page = candidate.pages[i].duplicate().with_rendered(text.clone());
                r.insert(page);
                proof {
                    assert forall|a: int| 0 <= a < i implies s[a].slug != s[i as int].slug by {}
                }
            },
            None => {
                proof {
                    if before.contains_key(s[i as int].slug) {
                        let a = choose|a: int|
                            0 <= a < i && #[trigger] s[a].slug == s[i as int].slug
                                && outputs@[a] is Some;
                    }
                }
            },
        }
        i = i + 1;
    }
    proof {
        assert forall|k: Seq<char>| #[trigger] r@.contains_key(k) implies candidate@.contains_key(k) by {
            let a = choose|a: int| 0 <= a < i && #[trigger] s[a].slug == k && outputs@[a] is Some;
        }
        r.lemma_keyed_by_slug();
    }
    r
}

/// A rebuild that leaves a page's output byte-for-byte unchanged keeps the
/// page the previous generation served, and so its etag.
pub proof fn lemma_unchanged_output_keeps_etag(
    previous: Map<Seq<char>, PageView>,
    candidate: Map<Seq<char>, PageView>,
    k: Seq<char>,
)
    requires
        previous.contains_key(k),
        candidate.contains_key(k),
        previous[k].meta.rendered == candidate[k].meta.rendered,
    ensures
        rebuilt(previous, candidate).contains_key(k),
        rebuilt(previous, candidate)[k] == previous[k],
        rebuilt(previous, candidate)[k].meta.etag == previous[k].meta.etag,
{
}

/// A rebuild that changes a page's output serves the newly compiled page, so
/// the etag changes whenever the new page was given a fresh one.
pub proof fn lemma_changed_output_changes_etag(
    previous: Map<Seq<char>, PageView>,
    candidate: Map<Seq<char>, PageView>,
    k: Seq<char>,
)
    requires
        previous.contains_key(k),
        candidate.contains_key(k),
        previous[k].meta.rendered != candidate[k].meta.rendered,
        candidate[k].meta.etag != previous[k].meta.etag,
    ensures
        rebuilt(previous, candidate).contains_key(k),
        rebuilt(previous, candidate)[k] == candidate[k],
        rebuilt(previous, candidate)[k].meta.etag != previous[k].meta.etag,
{
}

/// A route that the new build lacks is absent after the rebuild.
pub proof fn lemma_removed_route_is_gone(
    previous: Map<Seq<char>, PageView>,
    candidate: Map<Seq<char>, PageView>,
    k: Seq<char>,
)
    requires
        !candidate.contains_key(k),
    ensures
        !rebuilt(previous, candidate).contains_key(k),
{
}

/// A rebuild of servable generations is servable: no route of the new
/// generation lacks its final output, and each route holds a page of that
/// route.
pub proof fn lemma_rebuild_stays_servable(
    previous: Map<Seq<char>, PageView>,
    candidate: Map<Seq<char>, PageView>,
)
    requires
        servable(previous),
        servable(candidate),
        keyed_by_slug(previous),
        keyed_by_slug(candidate),
    ensures
        servable(rebuilt(previous, candidate)),
        keyed_by_slug(rebuilt(previous, candidate)),
{
    let m = rebuilt(previous, candidate);
    assert forall|k: Seq<char>| m.contains_key(k) implies (#[trigger] m[k]).slug == k by {
        assert(candidate[k].slug == k);
        if previous.contains_key(k) {
            assert(previous[k].slug == k);
        }
    }
    assert forall|k: Seq<char>| m.contains_key(k) implies (#[trigger] m[k]).meta.rendered is Some by {
        assert(candidate[k].meta.rendered is Some);
        if previous.contains_key(k) {
            assert(previous[k].meta.rendered is Some);
        }
    }
}

/// Of pages sharing one route key, the last one inserted is the one the
/// store holds; inserting several such pages is no error.
pub proof fn lemma_duplicate_slug_last_wins(s: Seq<PageView>, i: int)
    requires
        0 <= i < s.len(),
        forall|j: int| i < j < s.len() ==> #[trigger] s[j].slug != s[i].slug,
    ensures
        last_wins(s).contains_key(s[i].slug),
        last_wins(s)[s[i].slug] == s[i],
    decreases s.len(),
{
    if i < s.len() - 1 {
        let t = s.drop_last();
        assert forall|j: int| i < j < t.len() implies #[trigger] t[j].slug != t[i].slug by {
            assert(t[j] == s[j]);
        }
        lemma_duplicate_slug_last_wins(t, i);
        assert(s.last().slug != s[i].slug);
    }
}

/// Collecting compiled pages loses none of them and adds nothing: a route is
/// present exactly where some compiled page declares it, and holds a page of
/// that route. A file that failed to compile contributes no page and so no
/// route, and does not keep the others out.
pub proof fn lemma_collected_routes(s: Seq<PageView>)
    ensures
        forall|k: Seq<char>|
            #[trigger] last_wins(s).contains_key(k) <==> exists|i: int|
                0 <= i < s.len() && #[trigger] s[i].slug == k,
        keyed_by_slug(last_wins(s)),
    decreases s.len(),
{
    if s.len() > 0 {
        let t = s.drop_last();
        lemma_collected_routes(t);
        assert forall|k: Seq<char>|
            #[trigger] last_wins(s).contains_key(k) <==> exists|i: int|
                0 <= i < s.len() && #[trigger] s[i].slug == k by {
            if last_wins(s).contains_key(k) && k != s.last().slug {
                let i = choose|i: int| 0 <= i < t.len() && #[trigger] t[i].slug == k;
                assert(s[i] == t[i]);
            }
            if exists|i: int| 0 <= i < s.len() && #[trigger] s[i].slug == k {
                let i = choose|i: int| 0 <= i < s.len() && #[trigger] s[i].slug == k;
                if i < s.len() - 1 {
                    assert(t[i] == s[i]);
                } else {
                    assert(k == s.last().slug);
                }
            }
        }
    }
}

} // verus!
