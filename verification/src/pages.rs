//! What the pages decide before they are rendered: fragment ids, links, the
//! sidebar of the book, the outline of a page and the numbers of the
//! community section.

use vstd::prelude::*;
use vstd::string::{StrSliceExecFns, StringExecFns};
use crate::content::{page_name, BookIndex, BookItem, BookSection, DocPage, Heading, PageKey};
use crate::shell::Route;
use crate::text::{decimal, lemma_decimal_prefix, push_decimal};

verus! {

/// The id of the fragment of the home page.
pub open spec fn index_fragment() -> Seq<char> {
    "IndexBody"@
}

/// The id of the fragment of the post `id`.
pub open spec fn post_fragment(id: Seq<char>) -> Seq<char> {
    "Post_"@ + id
}

/// What follows the section in the id of a page of the book: nothing for
/// the page of the section, an underscore and the name for a subsection.
pub open spec fn fragment_tail(doc: Option<Seq<char>>) -> Seq<char> {
    match doc {
        Some(name) => seq!['_'] + name,
        None => Seq::empty(),
    }
}

/// The id of the fragment of a page of the book: `Book_`, the number of
/// characters of the section, an underscore, the section and, for a
/// subsection, an underscore and its name. The number tells where the
/// section ends, so that no two pages have one id: the section `a_b` has
/// `Book_3_a_b` and the subsection `b` of `a` has `Book_1_a_b`.
pub open spec fn book_fragment(page: PageKey) -> Seq<char> {
    "Book_"@ + (decimal(page.0.len()) + seq!['_'] + (page.0 + fragment_tail(page.1)))
}

/// The id of the fragment that a route registers, if it registers one.
pub open spec fn route_fragment(route: Route) -> Option<Seq<char>> {
    match route {
        Route::Index => Some(index_fragment()),
        Route::Post(id) => Some(post_fragment(id)),
        Route::BookSection(section) => Some(book_fragment((section, None))),
        Route::BookSubsection(section, doc) => Some(book_fragment((section, Some(doc)))),
        Route::NotFound => None,
    }
}

/// Two pages of the book with one fragment id are the same page.
pub proof fn lemma_book_fragment_injective(p: PageKey, q: PageKey)
    requires
        book_fragment(p) == book_fragment(q),
    ensures
        p == q,
{
    let head = "Book_"@;
    let rest_p = p.0 + fragment_tail(p.1);
    let rest_q = q.0 + fragment_tail(q.1);
    let body_p = decimal(p.0.len()) + seq!['_'] + rest_p;
    let body_q = decimal(q.0.len()) + seq!['_'] + rest_q;
    assert(body_p =~= book_fragment(p).skip(head.len() as int));
    assert(body_q =~= book_fragment(q).skip(head.len() as int));
    lemma_decimal_prefix(p.0.len(), rest_p, q.0.len(), rest_q);
    // The sections have one length, so they end at one place.
    assert(p.0 =~= rest_p.take(p.0.len() as int));
    assert(q.0 =~= rest_q.take(q.0.len() as int));
    let tail_p = fragment_tail(p.1);
    let tail_q = fragment_tail(q.1);
    assert(tail_p =~= rest_p.skip(p.0.len() as int));
    assert(tail_q =~= rest_q.skip(q.0.len() as int));
    match (p.1, q.1) {
        (Some(a), Some(b)) => {
            assert(a =~= tail_p.skip(1));
            assert(b =~= tail_q.skip(1));
        },
        (Some(a), None) => {
            assert(tail_p.len() > 0);
        },
        (None, Some(b)) => {
            assert(tail_q.len() > 0);
        },
        (None, None) => {},
    }
}

/// Fragment ids are unique in a build: two routes that register a fragment
/// under one id are the same route.
pub proof fn lemma_route_fragment_injective(a: Route, b: Route)
    requires
        route_fragment(a) is Some,
        route_fragment(a) == route_fragment(b),
    ensures
        a == b,
{
    reveal_strlit("IndexBody");
    reveal_strlit("Post_");
    reveal_strlit("Book_");
    let x = route_fragment(a).unwrap();
    // The first character tells the three kinds of page apart.
    assert(index_fragment()[0] == 'I');
    assert forall|id: Seq<char>| (#[trigger] post_fragment(id))[0] == 'P' by {}
    assert forall|page: PageKey| (#[trigger] book_fragment(page))[0] == 'B' by {}
    match (a, b) {
        (Route::Post(i), Route::Post(j)) => {
            assert(i =~= post_fragment(i).skip(5));
            assert(j =~= post_fragment(j).skip(5));
        },
        (Route::BookSection(s), Route::BookSection(t)) => {
            lemma_book_fragment_injective((s, None), (t, None));
        },
        (Route::BookSection(s), Route::BookSubsection(t, d)) => {
            lemma_book_fragment_injective((s, None), (t, Some(d)));
        },
        (Route::BookSubsection(s, c), Route::BookSection(t)) => {
            lemma_book_fragment_injective((s, Some(c)), (t, None));
        },
        (Route::BookSubsection(s, c), Route::BookSubsection(t, d)) => {
            lemma_book_fragment_injective((s, Some(c)), (t, Some(d)));
        },
        _ => {},
    }
}

/// The address of a page of the book on the site.
pub open spec fn book_href(page: PageKey) -> Seq<char> {
    "/book/"@ + page_name(page)
}

/// Where a page of the book is edited.
pub open spec fn edit_link(page: PageKey) -> Seq<char> {
    "https://github.com/sycamore-rs/sycamore/edit/main/docs/next/"@ + page_name(page) + ".md"@
}

/// The id of the fragment of the home page.
pub fn index_component_id() -> (r: String)
    ensures
        r@ == index_fragment(),
{
    let mut r = String::new();
    r.append("IndexBody");
    r
}

/// The id of the fragment of the post `id`.
pub fn post_component_id(id: &str) -> (r: String)
    ensures
        r@ == post_fragment(id@),
{
    let mut r = String::new();
    r.append("Post_");
    r.append(id);
    r
}

/// The id of the fragment of a page of the book.
pub fn book_component_id(page: &DocPage) -> (r: String)
    ensures
        r@ == book_fragment(page@),
{
    let section = page.section();
    let mut r = String::new();
    r.append("Book_");
    push_decimal(&mut r, section.unicode_len() as u64);
    r.push('_');
    r.append(section);
    match page.subsection() {
        Some(doc) => {
            r.push('_');
            r.append(doc);
        },
        None => {},
    }
    assert(r@ =~= book_fragment(page@));
    r
}

fn push_page_name(out: &mut String, page: &DocPage)
    ensures
        final(out)@ == old(out)@ + page_name(page@),
{
    out.append(page.section());
    match page.subsection() {
        Some(doc) => {
            out.append("/");
            out.append(doc);
            assert(out@ =~= old(out)@ + page_name(page@));
        },
        None => {},
    }
}

/// The address of a page of the book on the site.
pub fn book_page_href(page: &DocPage) -> (r: String)
    ensures
        r@ == book_href(page@),
{
    let mut r = String::new();
    r.append("/book/");
    push_page_name(&mut r, page);
    r
}

/// Where a page of the book is edited.
pub fn github_edit_link(page: &DocPage) -> (r: String)
    ensures
        r@ == edit_link(page@),
{
    let mut r = String::new();
    r.append("https://github.com/sycamore-rs/sycamore/edit/main/docs/next/");
    push_page_name(&mut r, page);
    r.append(".md");
    r
}

/// A link of the sidebar: its text, its address, and whether it leads to the page that is shown.
#[derive(Debug, Clone, PartialEq, Eq)]
pub struct NavLink {
    pub title: String,
    pub href: String,
    pub current: bool,
}

/// A section of the sidebar: its own link and the links of its subsections.
#[derive(Debug, Clone, PartialEq, Eq)]
pub struct NavSection {
    pub link: NavLink,
    pub items: Vec<NavLink>,
}

/// A link as plain values.
pub struct NavLinkView {
    pub title: Seq<char>,
    pub href: Seq<char>,
    pub current: bool,
}

/// A section of the sidebar as plain values.
pub struct NavSectionView {
    pub link: NavLinkView,
    pub items: Seq<NavLinkView>,
}

impl View for NavLink {
    type V = NavLinkView;

    open spec fn view(&self) -> NavLinkView {
        NavLinkView { title: self.title@, href: self.href@, current: self.current }
    }
}

/// The plain values of each link of a list.
pub open spec fn link_views(links: Seq<NavLink>) -> Seq<NavLinkView> {
    links.map_values(|l: NavLink| l@)
}

impl View for NavSection {
    type V = NavSectionView;

    open spec fn view(&self) -> NavSectionView {
        NavSectionView { link: self.link@, items: link_views(self.items@) }
    }
}

/// The plain values of each section of a list.
pub open spec fn nav_views(sections: Seq<NavSection>) -> Seq<NavSectionView> {
    sections.map_values(|s: NavSection| s@)
}

/// The link to the page `path` with the text `title`, seen from the page `shown`.
/// It is the current one where both pages have the same address.
pub open spec fn nav_link(title: Seq<char>, path: PageKey, shown: PageKey) -> NavLinkView {
    NavLinkView { title, href: book_href(path), current: book_href(path) == book_href(shown) }
}

/// The links of the subsections `items`, seen from the page `shown`.
pub open spec fn nav_items(items: Seq<BookItem>, shown: PageKey) -> Seq<NavLinkView> {
    items.map_values(|item: BookItem| nav_link(item.title@, item.path@, shown))
}

/// The sidebar entry of `section`, seen from the page `shown`.
pub open spec fn nav_section(section: BookSection, shown: PageKey) -> NavSectionView {
    NavSectionView {
        link: nav_link(section.title@, section.path@, shown),
        items: nav_items(section.subsections@, shown),
    }
}

/// The sidebar of the book, seen from the page `shown`: the sections and
/// their subsections in the order of the table of contents.
pub open spec fn sidebar(book: Seq<BookSection>, shown: PageKey) -> Seq<NavSectionView> {
    book.map_values(|section: BookSection| nav_section(section, shown))
}

fn make_link(title: &String, path: &DocPage, shown_href: &String, Ghost(shown): Ghost<PageKey>) -> (link:
    NavLink)
    requires
        shown_href@ == book_href(shown),
    ensures
        link@ == nav_link(title@, path@, shown),
{
    let href = book_page_href(path);
    let current = href == *shown_href;
    NavLink { title: title.clone(), href, current }
}

/// The sidebar of the book, seen from the page `shown`.
pub fn book_nav(book: &BookIndex, shown: &DocPage) -> (nav: Vec<NavSection>)
    ensures
        nav_views(nav@) == sidebar(book.sections@, shown@),
{
    let shown_href = book_page_href(shown);
    let mut nav: Vec<NavSection> = Vec::new();
    let mut i: usize = 0;
    while i < book.sections.len()
        invariant
            i <= book.sections.len(),
            shown_href@ == book_href(shown@),
            nav@.len() == i,
            nav_views(nav@) == sidebar(book.sections@.take(i as int), shown@),
        decreases book.sections.len() - i,
    {
        let section = &book.sections[i];
        let mut items: Vec<NavLink> = Vec::new();
        let mut k: usize = 0;
        while k < section.subsections.len()
            invariant
                k <= section.subsections.len(),
                shown_href@ == book_href(shown@),
                items@.len() == k,
                link_views(items@) == nav_items(section.subsections@.take(k as int), shown@),
            decreases section.subsections.len() - k,
        {
            let item = &section.subsections[k];
            let link = make_link(&item.title, &item.path, &shown_href, Ghost(shown@));
            let ghost before = items@;
            items.push(link);
            assert(link_views(items@) =~= nav_items(section.subsections@.take(k + 1), shown@)) by {
                let got = link_views(items@);
                let want = nav_items(section.subsections@.take(k + 1), shown@);
                assert forall|j: int| 0 <= j < got.len() implies got[j] == want[j] by {
                    if j < k {
                        assert(items@[j] == before[j]);
                        assert(link_views(before)[j] == nav_items(
                            section.subsections@.take(k as int),
                            shown@,
                        )[j]);
                    }
                }
            }
            k += 1;
        }
        assert(section.subsections@.take(section.subsections.len() as int)
            =~= section.subsections@);
        let link = make_link(&section.title, &section.path, &shown_href, Ghost(shown@));
        let entry = NavSection { link, items };
        assert(entry@ == nav_section(*section, shown@));
        let ghost before = nav@;
        nav.push(entry);
        assert(nav_views(nav@) =~= sidebar(book.sections@.take(i + 1), shown@)) by {
            let got = nav_views(nav@);
            let want = sidebar(book.sections@.take(i + 1), shown@);
            assert forall|j: int| 0 <= j < got.len() implies got[j] == want[j] by {
                if j < i {
                    assert(nav@[j] == before[j]);
                    assert(nav_views(before)[j] == sidebar(
                        book.sections@.take(i as int),
                        shown@,
                    )[j]);
                }
            }
        }
        i += 1;
    }
    assert(book.sections@.take(book.sections.len() as int) =~= book.sections@);
    nav
}

/// An entry of the outline of a page: the anchor it leads to, its text, and
/// whether it stands below a heading of the second level.
#[derive(Debug, Clone, PartialEq, Eq)]
pub struct OutlineEntry {
    pub href: String,
    pub text: String,
    pub nested: bool,
}

/// An outline entry as plain values.
pub struct OutlineEntryView {
    pub href: Seq<char>,
    pub text: Seq<char>,
    pub nested: bool,
}

impl View for OutlineEntry {
    type V = OutlineEntryView;

    open spec fn view(&self) -> OutlineEntryView {
        OutlineEntryView { href: self.href@, text: self.text@, nested: self.nested }
    }
}

/// The plain values of each entry of a list.
pub open spec fn entry_views(entries: Seq<OutlineEntry>) -> Seq<OutlineEntryView> {
    entries.map_values(|e: OutlineEntry| e@)
}

/// The outline entry of a heading that has one.
pub open spec fn outline_entry(heading: Heading) -> OutlineEntryView {
    OutlineEntryView { href: "#"@ + heading.id@, text: heading.text@, nested: heading.level != 2 }
}

/// The outline of a page: an entry for each heading but those of the first
/// level, which is the title, in the order of the document.
pub open spec fn outline_of(headings: Seq<Heading>) -> Seq<OutlineEntryView>
    decreases headings.len(),
{
    if headings.len() == 0 {
        Seq::empty()
    } else if headings.last().level == 1 {
        outline_of(headings.drop_last())
    } else {
        outline_of(headings.drop_last()).push(outline_entry(headings.last()))
    }
}

/// The outline of a page.
pub fn headings_outline(headings: &Vec<Heading>) -> (outline: Vec<OutlineEntry>)
    ensures
        entry_views(outline@) == outline_of(headings@),
{
    let mut outline: Vec<OutlineEntry> = Vec::new();
    assert(headings@.take(0) =~= Seq::empty());
    assert(entry_views(outline@) =~= outline_of(headings@.take(0)));
    let mut i: usize = 0;
    while i < headings.len()
        invariant
            i <= headings.len(),
            entry_views(outline@) == outline_of(headings@.take(i as int)),
        decreases headings.len() - i,
    {
        let heading = &headings[i];
        assert(headings@.take(i + 1).drop_last() =~= headings@.take(i as int));
        assert(headings@.take(i + 1).last() == *heading);
        if heading.level != 1 {
            let mut href = String::new();
            href.append("#");
            href.append(heading.id.as_str());
            let entry = OutlineEntry { href, text: heading.text.clone(), nested: heading.level != 2 };
            assert(entry@ == outline_entry(*heading));
            let ghost before = outline@;
            outline.push(entry);
            assert(entry_views(outline@) =~= entry_views(before).push(entry@));
        }
        i += 1;
    }
    assert(headings@.take(headings.len() as int) =~= headings@);
    outline
}

/// The outline keeps the order of the document: the outline of two parts
/// of a document is the outline of the first, then that of the second.
pub proof fn lemma_outline_concat(first: Seq<Heading>, second: Seq<Heading>)
    ensures
        outline_of(first + second) == outline_of(first) + outline_of(second),
    decreases second.len(),
{
    if second.len() == 0 {
        assert(first + second =~= first);
        assert(outline_of(first) + outline_of(second) =~= outline_of(first));
    } else {
        lemma_outline_concat(first, second.drop_last());
        assert((first + second).drop_last() =~= first + second.drop_last());
        assert((first + second).last() == second.last());
        if second.last().level != 1 {
            assert(outline_of(first + second) =~= outline_of(first) + outline_of(second));
        }
    }
}

/// The number of stars in hundreds, rounded to the nearest, halves up.
pub open spec fn star_hundreds(stars: u32) -> nat {
    ((stars + 50) / 100) as nat
}

/// The number of stars in thousands with one decimal, as in `2.8k`.
pub open spec fn stars_label(stars: u32) -> Seq<char> {
    decimal(star_hundreds(stars) / 10) + "."@ + decimal(star_hundreds(stars) % 10) + "k"@
}

/// The number of downloads in whole thousands, as in `153k Downloads`.
pub open spec fn downloads_label(downloads: u32) -> Seq<char> {
    decimal((downloads / 1000) as nat) + "k Downloads"@
}

/// The number of stars in thousands with one decimal, as in `2.8k`.
pub fn stars_text(stars: u32) -> (text: String)
    ensures
        text@ == stars_label(stars),
{
    let hundreds: u32 = stars / 100 + if stars % 100 >= 50 {
        1u32
    } else {
        0u32
    };
    assert(hundreds == star_hundreds(stars));
    let mut text = String::new();
    push_decimal(&mut text, (hundreds / 10) as u64);
    text.append(".");
    push_decimal(&mut text, (hundreds % 10) as u64);
    text.append("k");
    assert(text@ =~= stars_label(stars));
    text
}

/// The number of downloads in whole thousands, as in `153k Downloads`.
pub fn downloads_text(downloads: u32) -> (text: String)
    ensures
        text@ == downloads_label(downloads),
{
    let mut text = String::new();
    push_decimal(&mut text, (downloads / 1000) as u64);
    text.append("k Downloads");
    assert(text@ =~= downloads_label(downloads));
    text
}

} // verus!
