//! The content of the site in one value, and the route table that follows from it.

use vstd::prelude::*;
use crate::assoc::{lookup, unique_keys};
use crate::book::{book_of, first_missing};
use crate::content::{texts, BookIndex, ContentError, ContentFault, PageKey, SectionsJson};
use crate::docs::{Doc, DocIndex};
use crate::posts::{Post, PostIndex};
use crate::pages::{lemma_route_fragment_injective, route_fragment};
use crate::sorted::{ascending, lemma_ascending_canonical, lemma_ascending_unique};
use crate::shell::{output_path, page_route, Route, Routes};
use crate::sitemap::{
    base_url, html_paths, lemma_output_path_html, lemma_sitemap_locations_concat,
    lemma_sitemap_locations_single, location, sitemap_document, sitemap_locations, sitemap_xml,
    strip_html, table_view, trim_index, RouteTable,
};

verus! {

/// Everything that the pages are rendered from: the manifest, the
/// documentation pages, the posts, and the table of contents of the book.
pub struct ContentRepository<B> {
    pub sections: SectionsJson,
    pub docs: DocIndex<B>,
    pub posts: PostIndex<B>,
    pub book: BookIndex,
}

impl<B> ContentRepository<B> {
    /// The indices are well formed, the documentation index holds every page
    /// of the table of contents, and the table of contents is the one that
    /// the manifest and the pages give.
    pub open spec fn wf(&self) -> bool {
        &&& self.docs.wf()
        &&& self.posts.wf()
        &&& first_missing(texts(self.sections.sections@), self.docs@) is None
        &&& self.book@ == book_of(texts(self.sections.sections@), self.docs@)
    }

    /// Puts the content together and builds the table of contents. Fails on
    /// the first page of the table of contents that `docs` does not hold.
    pub fn new(sections: SectionsJson, docs: DocIndex<B>, posts: PostIndex<B>) -> (r: Result<
        Self,
        ContentError,
    >)
        requires
            docs.wf(),
            posts.wf(),
        ensures
            match first_missing(texts(sections.sections@), docs@) {
                Some(page) => r is Err && r->Err_0@ == ContentFault::MissingDoc(page),
                None => {
                    &&& r is Ok
                    &&& r->Ok_0.wf()
                    &&& r->Ok_0.sections == sections
                    &&& r->Ok_0.docs == docs
                    &&& r->Ok_0.posts == posts
                },
            },
    {
        match BookIndex::build(&sections, &docs) {
            Ok(book) => Ok(ContentRepository { sections, docs, posts, book }),
            Err(e) => Err(e),
        }
    }
}

/// The route of a post with the file it is rendered to.
pub open spec fn post_entry(id: Seq<char>) -> (Route, Seq<char>) {
    (Route::Post(id), output_path(Route::Post(id)))
}

/// The route of a documentation page with the file it is rendered to.
pub open spec fn page_entry(page: PageKey) -> (Route, Seq<char>) {
    (page_route(page), output_path(page_route(page)))
}

/// The routes of the posts, in the order of the index.
pub open spec fn post_entries<B>(posts: Seq<(Seq<char>, Post<B>)>) -> RouteTable {
    posts.map_values(|e: (Seq<char>, Post<B>)| post_entry(e.0))
}

/// The routes of the documentation pages, in the order of the index.
pub open spec fn page_entries<B>(docs: Seq<(PageKey, Doc<B>)>) -> RouteTable {
    docs.map_values(|e: (PageKey, Doc<B>)| page_entry(e.0))
}

/// The routes that are there whatever the content: the home page and the page for unknown addresses.
pub open spec fn fixed_entries() -> RouteTable {
    seq![
        (Route::Index, output_path(Route::Index)),
        (Route::NotFound, output_path(Route::NotFound)),
    ]
}

/// The route table: the fixed routes, then the posts, then the documentation pages.
pub open spec fn static_paths<B>(
    posts: Seq<(Seq<char>, Post<B>)>,
    docs: Seq<(PageKey, Doc<B>)>,
) -> RouteTable {
    fixed_entries() + post_entries(posts) + page_entries(docs)
}

/// The route table of the site: every route with the file it is rendered to.
pub fn get_static_paths<B>(repo: &ContentRepository<B>) -> (paths: Vec<(Routes, String)>)
    ensures
        table_view(paths@) == static_paths(repo.posts@, repo.docs@),
{
    let mut paths: Vec<(Routes, String)> = Vec::new();
    paths.push((Routes::Index, Routes::Index.output_path()));
    paths.push((Routes::NotFound, Routes::NotFound.output_path()));
    assert(table_view(paths@) =~= fixed_entries());
    let n = repo.posts.len();
    let mut i: usize = 0;
    while i < n
        invariant
            i <= n,
            n == repo.posts@.len(),
            table_view(paths@) == fixed_entries() + post_entries(repo.posts@.take(i as int)),
        decreases n - i,
    {
        let route = Routes::Post(repo.posts.id_at(i).to_owned());
        let path = route.output_path();
        let ghost before = paths@;
        paths.push((route, path));
        assert(table_view(paths@) =~= fixed_entries() + post_entries(repo.posts@.take(i + 1))) by {
            let got = table_view(paths@);
            let want = fixed_entries() + post_entries(repo.posts@.take(i + 1));
            let was = fixed_entries() + post_entries(repo.posts@.take(i as int));
            assert(table_view(before) == was);
            assert(before.len() == was.len());
            assert forall|j: int| 0 <= j < got.len() implies got[j] == want[j] by {
                if j < before.len() {
                    assert(paths@[j] == before[j]);
                    assert(table_view(before)[j] == was[j]);
                    if j >= 2 {
                        assert(repo.posts@.take(i + 1)[j - 2] == repo.posts@.take(i as int)[j - 2]);
                    }
                }
            }
        }
        i += 1;
    }
    assert(repo.posts@.take(n as int) =~= repo.posts@);
    let m = repo.docs.len();
    let mut k: usize = 0;
    while k < m
        invariant
            k <= m,
            m == repo.docs@.len(),
            table_view(paths@) == fixed_entries() + post_entries(repo.posts@) + page_entries(
                repo.docs@.take(k as int),
            ),
        decreases m - k,
    {
        let route = Routes::of_page(repo.docs.page_at(k));
        let path = route.output_path();
        let ghost before = paths@;
        paths.push((route, path));
        assert(table_view(paths@) =~= fixed_entries() + post_entries(repo.posts@) + page_entries(
            repo.docs@.take(k + 1),
        )) by {
            let got = table_view(paths@);
            let head = fixed_entries() + post_entries(repo.posts@);
            let want = head + page_entries(repo.docs@.take(k + 1));
            let was = head + page_entries(repo.docs@.take(k as int));
            assert(table_view(before) == was);
            assert(before.len() == was.len());
            assert forall|j: int| 0 <= j < got.len() implies got[j] == want[j] by {
                if j < before.len() {
                    assert(paths@[j] == before[j]);
                    assert(table_view(before)[j] == was[j]);
                    if j >= head.len() {
                        assert(repo.docs@.take(k + 1)[j - head.len()] == repo.docs@.take(
                            k as int,
                        )[j - head.len()]);
                    }
                }
            }
        }
        k += 1;
    }
    assert(repo.docs@.take(m as int) =~= repo.docs@);
    paths
}

/// Every file of the route table is an `.html` file.
pub proof fn lemma_static_paths_html<B>(posts: Seq<(Seq<char>, Post<B>)>, docs: Seq<(PageKey, Doc<B>)>)
    ensures
        html_paths(static_paths(posts, docs)),
        forall|i: int|
            0 <= i < static_paths(posts, docs).len() ==> (#[trigger] static_paths(posts, docs)[i]).1
                == output_path(static_paths(posts, docs)[i].0),
{
    let table = static_paths(posts, docs);
    assert forall|i: int| 0 <= i < table.len() implies (#[trigger] table[i]).1 == output_path(
        table[i].0,
    ) by {
        if i >= 2 && i < 2 + posts.len() {
            assert(table[i] == post_entries(posts)[i - 2]);
        } else if i >= 2 + posts.len() {
            assert(table[i] == page_entries(docs)[i - 2 - posts.len()]);
        }
    }
    assert forall|i: int| 0 <= i < table.len() implies crate::text::ends_with(
        (#[trigger] table[i]).1,
        ".html"@,
    ) by {
        lemma_output_path_html(table[i].0);
    }
}

/// The route table depends on nothing but the content: two post indices
/// that hold the same posts under the same ids, filled in whatever order,
/// give the same routes in the same order.
pub proof fn lemma_static_paths_canonical<B>(
    first: Seq<(Seq<char>, Post<B>)>,
    second: Seq<(Seq<char>, Post<B>)>,
    docs: Seq<(PageKey, Doc<B>)>,
)
    requires
        ascending(first),
        ascending(second),
        forall|id: Seq<char>| lookup(first, id) == lookup(second, id),
    ensures
        static_paths(first, docs) == static_paths(second, docs),
{
    lemma_ascending_canonical(first, second);
}

/// No route stands twice in the route table of well-formed indices.
pub proof fn lemma_static_paths_distinct<B>(
    posts: Seq<(Seq<char>, Post<B>)>,
    docs: Seq<(PageKey, Doc<B>)>,
    i: int,
    j: int,
)
    requires
        ascending(posts),
        unique_keys(docs),
        0 <= i < j < static_paths(posts, docs).len(),
    ensures
        static_paths(posts, docs)[i].0 != static_paths(posts, docs)[j].0,
{
    let table = static_paths(posts, docs);
    let n = posts.len() as int;
    lemma_ascending_unique(posts);
    if 2 <= i < 2 + n {
        assert(table[i] == post_entry(posts[i - 2].0));
    } else if i >= 2 + n {
        assert(table[i] == page_entry(docs[i - 2 - n].0));
    }
    if 2 <= j < 2 + n {
        assert(table[j] == post_entry(posts[j - 2].0));
    } else if j >= 2 + n {
        assert(table[j] == page_entry(docs[j - 2 - n].0));
    }
}

/// Fragment ids are unique in a build: no two routes of the route table
/// register a fragment under one id, so that the collector refuses none.
pub proof fn lemma_fragments_unique_in_build<B>(
    posts: Seq<(Seq<char>, Post<B>)>,
    docs: Seq<(PageKey, Doc<B>)>,
    i: int,
    j: int,
)
    requires
        ascending(posts),
        unique_keys(docs),
        0 <= i < j < static_paths(posts, docs).len(),
        route_fragment(static_paths(posts, docs)[i].0) is Some,
    ensures
        route_fragment(static_paths(posts, docs)[i].0) != route_fragment(
            static_paths(posts, docs)[j].0,
        ),
{
    let table = static_paths(posts, docs);
    lemma_static_paths_distinct(posts, docs, i, j);
    if route_fragment(table[i].0) == route_fragment(table[j].0) {
        lemma_route_fragment_injective(table[i].0, table[j].0);
    }
}

/// The sitemap of the site has a location for the home page, one for each
/// post and one for each documentation page, and none for `NotFound`. The
/// first is the address of the site with a slash.
pub proof fn lemma_sitemap_of_site<B>(posts: Seq<(Seq<char>, Post<B>)>, docs: Seq<(PageKey, Doc<B>)>)
    ensures
        sitemap_locations(static_paths(posts, docs)).len() == 1 + posts.len() + docs.len(),
        sitemap_locations(static_paths(posts, docs))[0] == base_url() + "/"@,
{
    let home = (Route::Index, output_path(Route::Index));
    let lost = (Route::NotFound, output_path(Route::NotFound));
    let rest = post_entries(posts) + page_entries(docs);
    assert(static_paths(posts, docs) =~= seq![home] + (seq![lost] + rest));
    lemma_sitemap_locations_concat(seq![home], seq![lost] + rest);
    lemma_sitemap_locations_concat(seq![lost], rest);
    lemma_sitemap_locations_single(home);
    lemma_sitemap_locations_single(lost);
    lemma_all_indexable(rest);
    assert(location(home.1) =~= base_url() + "/"@) by {
        reveal_strlit("/index.html");
        reveal_strlit(".html");
        reveal_strlit("index");
        reveal_strlit("/");
        let stem = strip_html(home.1);
        assert(stem.len() == 6);
        assert(stem.skip(1) =~= "index"@);
        assert(crate::sitemap::ends_in_index(stem));
        assert(trim_index(stem) =~= "/"@);
    }
}

/// A table without `NotFound` has a location for each of its routes.
proof fn lemma_all_indexable(table: RouteTable)
    requires
        forall|i: int| 0 <= i < table.len() ==> !((#[trigger] table[i]).0 is NotFound),
    ensures
        sitemap_locations(table).len() == table.len(),
    decreases table.len(),
{
    if table.len() > 0 {
        lemma_all_indexable(table.drop_last());
    }
}

/// `std::fmt::Error`, the error of writing into a formatter. It carries no
/// data; nothing is claimed of it.
#[verifier::external_type_specification]
#[verifier::external_body]
pub struct ExFmtError(std::fmt::Error);

/// Writes the sitemap of the site: a location for every route but
/// `NotFound`. Writing into a string does not fail, so the result is always `Ok`.
pub fn generate_sitemap_xml<B>(repo: &ContentRepository<B>) -> (r: Result<String, std::fmt::Error>)
    ensures
        r is Ok,
        r->Ok_0@ == sitemap_document(static_paths(repo.posts@, repo.docs@)),
{
    let paths = get_static_paths(repo);
    proof {
        lemma_static_paths_html(repo.posts@, repo.docs@);
    }
    Ok(sitemap_xml(&paths))
}

} // verus!
