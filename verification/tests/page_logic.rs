use sycamore_website::content::{
    BookIndex, BookItem, BookSection, DocPage, Heading, Parsed, PostFrontmatter,
};
use sycamore_website::date::Date;
use sycamore_website::pages::{
    book_component_id, book_nav, book_page_href, downloads_text, github_edit_link,
    headings_outline, index_component_id, post_component_id, stars_text, NavLink, OutlineEntry,
};
use sycamore_website::server_component::FragmentCollector;
use sycamore_website::news::NewsItem;
use sycamore_website::posts::PostIndex;

fn page(section: &str, sub: Option<&str>) -> DocPage {
    DocPage::new(section.to_string(), sub.map(|s| s.to_string()))
}

fn heading(id: &str, text: &str, level: u32) -> Heading {
    Heading { id: id.to_string(), text: text.to_string(), level }
}

fn outline_entry(href: &str, text: &str, nested: bool) -> OutlineEntry {
    OutlineEntry { href: href.to_string(), text: text.to_string(), nested }
}

fn post(title: &str, date: (u32, u32, u32)) -> Parsed<PostFrontmatter, ()> {
    Parsed {
        front_matter: PostFrontmatter {
            title: title.to_string(),
            description: format!("about {title}"),
            date: Date { year: date.0, month: date.1, day: date.2 },
        },
        headings: Vec::new(),
        body: (),
    }
}

fn book() -> BookIndex {
    BookIndex {
        sections: vec![
            BookSection {
                title: "Guide".to_string(),
                path: page("guide", None),
                subsections: vec![
                    BookItem { title: "Intro".to_string(), path: page("guide", Some("intro")) },
                    BookItem { title: "Usage".to_string(), path: page("guide", Some("usage")) },
                ],
            },
            BookSection { title: "API".to_string(), path: page("api", None), subsections: Vec::new() },
        ],
    }
}

#[test]
fn fragment_ids_of_pages() {
    assert_eq!(post_component_id("hello"), "Post_hello");
    assert_eq!(index_component_id(), "IndexBody");
    assert_eq!(book_component_id(&page("guide", None)), "Book_5_guide");
    assert_eq!(book_component_id(&page("guide", Some("intro"))), "Book_5_guide_intro");
    assert_eq!(book_component_id(&page("", None)), "Book_0_");
    assert_eq!(book_component_id(&page("", Some(""))), "Book_0__");
    assert_eq!(book_component_id(&page("twelve_chars", None)), "Book_12_twelve_chars");
    // The length counts characters, not bytes.
    assert_eq!(book_component_id(&page("caf\u{e9}", None)), "Book_4_caf\u{e9}");
}

#[test]
fn different_pages_have_different_fragment_ids() {
    let pages = [
        page("a_b", None),
        page("a", Some("b")),
        page("a", None),
        page("a", Some("")),
        page("a_", None),
        page("", Some("a")),
        page("1_a", None),
        page("1_a", Some("b")),
        page("a", Some("b_c")),
        page("a_b", Some("c")),
    ];
    for (i, p) in pages.iter().enumerate() {
        for (j, q) in pages.iter().enumerate() {
            assert_eq!(book_component_id(p) == book_component_id(q), i == j);
        }
    }
    assert_eq!(book_component_id(&page("a_b", None)), "Book_3_a_b");
    assert_eq!(book_component_id(&page("a", Some("b"))), "Book_1_a_b");
}

#[test]
fn both_pages_of_a_book_with_like_names_can_be_registered() {
    let mut collector = FragmentCollector::new();
    let section = book_component_id(&page("a_b", None));
    let subsection = book_component_id(&page("a", Some("b")));
    assert_eq!(collector.register(section, "<p>a_b</p>".to_string()), Ok(()));
    assert_eq!(collector.register(subsection, "<p>a/b</p>".to_string()), Ok(()));
    assert_eq!(collector.len(), 2);
}

#[test]
fn pages_of_different_kinds_have_different_fragment_ids() {
    assert_ne!(post_component_id("x"), book_component_id(&page("x", None)));
    assert_ne!(post_component_id(""), index_component_id());
    assert_ne!(book_component_id(&page("", None)), index_component_id());
    assert_ne!(post_component_id("a"), post_component_id("b"));
}

#[test]
fn links_of_book_pages() {
    assert_eq!(book_page_href(&page("guide", None)), "/book/guide");
    assert_eq!(book_page_href(&page("guide", Some("intro"))), "/book/guide/intro");
    assert_eq!(
        github_edit_link(&page("guide", None)),
        "https://github.com/sycamore-rs/sycamore/edit/main/docs/next/guide.md"
    );
    assert_eq!(
        github_edit_link(&page("guide", Some("intro"))),
        "https://github.com/sycamore-rs/sycamore/edit/main/docs/next/guide/intro.md"
    );
}

#[test]
fn the_sidebar_marks_the_page_that_is_shown() {
    let nav = book_nav(&book(), &page("guide", Some("usage")));
    assert_eq!(nav.len(), 2);
    assert_eq!(
        nav[0].link,
        NavLink { title: "Guide".to_string(), href: "/book/guide".to_string(), current: false }
    );
    assert_eq!(
        nav[0].items,
        vec![
            NavLink {
                title: "Intro".to_string(),
                href: "/book/guide/intro".to_string(),
                current: false
            },
            NavLink {
                title: "Usage".to_string(),
                href: "/book/guide/usage".to_string(),
                current: true
            },
        ]
    );
    assert_eq!(
        nav[1].link,
        NavLink { title: "API".to_string(), href: "/book/api".to_string(), current: false }
    );
    assert!(nav[1].items.is_empty());
}

#[test]
fn the_sidebar_marks_a_section_that_is_shown() {
    let nav = book_nav(&book(), &page("api", None));
    assert!(nav[1].link.current);
    assert!(!nav[0].link.current);
    assert!(nav[0].items.iter().all(|item| !item.current));
}

#[test]
fn the_sidebar_of_a_page_outside_the_book_marks_nothing() {
    let nav = book_nav(&book(), &page("elsewhere", None));
    assert!(nav.iter().all(|s| !s.link.current && s.items.iter().all(|i| !i.current)));
    assert!(book_nav(&BookIndex { sections: Vec::new() }, &page("guide", None)).is_empty());
}

#[test]
fn the_outline_skips_the_title_and_nests_the_deeper_headings() {
    let headings = vec![
        heading("title", "Title", 1),
        heading("first", "First", 2),
        heading("detail", "Detail", 3),
        heading("deeper", "Deeper", 4),
        heading("second", "Second", 2),
        heading("again", "Again", 1),
        heading("last", "Last", 3),
    ];
    assert_eq!(
        headings_outline(&headings),
        vec![
            outline_entry("#first", "First", false),
            outline_entry("#detail", "Detail", true),
            outline_entry("#deeper", "Deeper", true),
            outline_entry("#second", "Second", false),
            outline_entry("#last", "Last", true),
        ]
    );
}

#[test]
fn the_outline_of_no_headings_is_empty() {
    assert!(headings_outline(&Vec::new()).is_empty());
    assert!(headings_outline(&vec![heading("title", "Title", 1)]).is_empty());
}

#[test]
fn a_heading_of_level_zero_is_nested() {
    assert_eq!(
        headings_outline(&vec![heading("odd", "Odd", 0)]),
        vec![outline_entry("#odd", "Odd", true)]
    );
}

#[test]
fn stars_are_rounded_to_the_nearest_hundred() {
    assert_eq!(stars_text(0), "0.0k");
    assert_eq!(stars_text(49), "0.0k");
    assert_eq!(stars_text(50), "0.1k");
    assert_eq!(stars_text(2849), "2.8k");
    assert_eq!(stars_text(2850), "2.9k");
    assert_eq!(stars_text(2949), "2.9k");
    assert_eq!(stars_text(2950), "3.0k");
    assert_eq!(stars_text(9999), "10.0k");
    assert_eq!(stars_text(4294967295), "4294967.3k");
}

#[test]
fn stars_agree_with_rounding_in_floating_point() {
    for stars in (0u32..20000).chain([4294967295, 4294967249, 4294967250, 123456789]) {
        let hundreds = (stars as f64 / 100.0).round() as u32;
        assert_eq!(stars_text(stars), format!("{}.{}k", hundreds / 10, hundreds % 10));
    }
}

#[test]
fn downloads_are_given_in_whole_thousands() {
    assert_eq!(downloads_text(0), "0k Downloads");
    assert_eq!(downloads_text(999), "0k Downloads");
    assert_eq!(downloads_text(1000), "1k Downloads");
    assert_eq!(downloads_text(153999), "153k Downloads");
    assert_eq!(downloads_text(4294967295), "4294967k Downloads");
}

#[test]
fn the_news_are_the_posts_newest_first() {
    let mut posts = PostIndex::new();
    posts.insert("c".to_string(), post("C", (2024, 2, 1)));
    posts.insert("a".to_string(), post("A", (2025, 1, 1)));
    posts.insert("d".to_string(), post("D", (2024, 1, 5)));
    posts.insert("b".to_string(), post("B", (2024, 1, 5)));
    // Positions: a = 0, b = 1, c = 2, d = 3.
    assert_eq!(posts.news_order(), [0, 2, 3, 1]);
    let titles: Vec<String> =
        posts.news_order().into_iter().map(|i| posts.news_item(i).title).collect();
    assert_eq!(titles, ["A", "C", "D", "B"]);
}

#[test]
fn the_news_hold_every_post_once() {
    let mut posts = PostIndex::new();
    for (i, id) in ["q", "w", "e", "r", "t", "y"].iter().enumerate() {
        posts.insert(id.to_string(), post(id, (2020 + (i as u32 * 7) % 3, 1, 1)));
    }
    let mut order = posts.news_order();
    for pair in order.windows(2) {
        assert!(posts.is_newer(pair[0], pair[1]));
    }
    order.sort();
    assert_eq!(order, [0, 1, 2, 3, 4, 5]);
}

#[test]
fn the_news_of_no_posts_are_empty() {
    let posts: PostIndex<()> = PostIndex::new();
    assert!(posts.news_order().is_empty());
}

#[test]
fn a_news_entry_shows_the_post() {
    let mut posts = PostIndex::new();
    posts.insert("hello".to_string(), post("Hello", (2024, 1, 5)));
    assert_eq!(
        posts.news_item(0),
        NewsItem {
            href: "/post/hello".to_string(),
            date: "January 5, 2024".to_string(),
            title: "Hello".to_string(),
            description: "about Hello".to_string(),
        }
    );
}
