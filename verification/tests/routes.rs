use sycamore_website::content::{DocFrontmatter, DocPage, Parsed, PostFrontmatter, SectionsJson};
use sycamore_website::date::Date;
use sycamore_website::docs::DocIndex;
use sycamore_website::posts::PostIndex;
use sycamore_website::repository::{generate_sitemap_xml, get_static_paths, ContentRepository};
use sycamore_website::shell::Routes;
use sycamore_website::sitemap::sitemap_xml;

const HEAD: &str = "<?xml version=\"1.0\" encoding=\"UTF-8\"?><urlset xmlns=\"http://www.sitemaps.org/schemas/sitemap/0.9\">";
const BASE: &str = "https://sycamore-rs.netlify.app";

fn post(title: &str) -> Parsed<PostFrontmatter, ()> {
    Parsed {
        front_matter: PostFrontmatter {
            title: title.to_string(),
            description: String::new(),
            date: Date { year: 2024, month: 1, day: 1 },
        },
        headings: Vec::new(),
        body: (),
    }
}

fn doc(title: &str, subsections: &[&str]) -> Parsed<DocFrontmatter, ()> {
    Parsed {
        front_matter: DocFrontmatter {
            title: title.to_string(),
            subsections: subsections.iter().map(|s| s.to_string()).collect(),
        },
        headings: Vec::new(),
        body: (),
    }
}

fn page(section: &str, sub: Option<&str>) -> DocPage {
    DocPage::new(section.to_string(), sub.map(|s| s.to_string()))
}

fn repository(post_ids: &[&str]) -> ContentRepository<()> {
    let mut docs = DocIndex::new();
    docs.insert(page("guide", None), doc("Guide", &["intro"]));
    docs.insert(page("api", None), doc("API", &[]));
    docs.insert(page("guide", Some("intro")), doc("Intro", &[]));
    let mut posts = PostIndex::new();
    for id in post_ids {
        posts.insert(id.to_string(), post(id));
    }
    let sections = SectionsJson { sections: vec!["guide".to_string(), "api".to_string()] };
    ContentRepository::new(sections, docs, posts).expect("every page is there")
}

fn entry(loc: &str) -> String {
    format!("<url><loc>{BASE}{loc}</loc></url>")
}

#[test]
fn every_route_has_its_file() {
    assert_eq!(Routes::Index.output_path(), "/index.html");
    assert_eq!(Routes::NotFound.output_path(), "/404.html");
    assert_eq!(Routes::Post("hello".to_string()).output_path(), "/post/hello.html");
    assert_eq!(Routes::BookSection("guide".to_string()).output_path(), "/book/guide.html");
    assert_eq!(
        Routes::BookSubsection("guide".to_string(), "intro".to_string()).output_path(),
        "/book/guide/intro.html"
    );
}

#[test]
fn the_route_of_a_page() {
    assert_eq!(Routes::of_page(&page("guide", None)), Routes::BookSection("guide".to_string()));
    assert_eq!(
        Routes::of_page(&page("guide", Some("intro"))),
        Routes::BookSubsection("guide".to_string(), "intro".to_string())
    );
}

#[test]
fn routes_know_what_they_are() {
    assert!(Routes::NotFound.is_not_found());
    assert!(!Routes::Index.is_not_found());
    assert!(!Routes::Post("404".to_string()).is_not_found());
    assert!(Routes::BookSection("a".to_string()).is_book());
    assert!(Routes::BookSubsection("a".to_string(), "b".to_string()).is_book());
    assert!(!Routes::Index.is_book());
    assert!(!Routes::NotFound.is_book());
    assert!(!Routes::Post("book".to_string()).is_book());
}

#[test]
fn the_route_table_lists_fixed_routes_posts_and_pages() {
    let repo = repository(&["world", "hello"]);
    let paths = get_static_paths(&repo);
    let expected = vec![
        (Routes::Index, "/index.html".to_string()),
        (Routes::NotFound, "/404.html".to_string()),
        (Routes::Post("hello".to_string()), "/post/hello.html".to_string()),
        (Routes::Post("world".to_string()), "/post/world.html".to_string()),
        (Routes::BookSection("guide".to_string()), "/book/guide.html".to_string()),
        (Routes::BookSection("api".to_string()), "/book/api.html".to_string()),
        (
            Routes::BookSubsection("guide".to_string(), "intro".to_string()),
            "/book/guide/intro.html".to_string(),
        ),
    ];
    assert_eq!(paths, expected);
}

#[test]
fn the_route_table_of_no_content_has_the_fixed_routes() {
    let repo: ContentRepository<()> =
        ContentRepository::new(SectionsJson { sections: Vec::new() }, DocIndex::new(), PostIndex::new())
            .expect("nothing is missing");
    assert_eq!(
        get_static_paths(&repo),
        vec![
            (Routes::Index, "/index.html".to_string()),
            (Routes::NotFound, "/404.html".to_string()),
        ]
    );
}

#[test]
fn the_route_table_is_the_same_each_time() {
    let repo = repository(&["b", "a", "c"]);
    assert_eq!(get_static_paths(&repo), get_static_paths(&repo));
}

#[test]
fn the_route_table_does_not_depend_on_the_order_of_the_posts() {
    let one = get_static_paths(&repository(&["b", "a", "c"]));
    let other = get_static_paths(&repository(&["c", "b", "a"]));
    assert_eq!(one, other);
}

#[test]
fn the_sitemap_lists_the_post_and_leaves_out_not_found() {
    let routes = vec![
        (Routes::Index, "/index.html".to_string()),
        (Routes::NotFound, "/404.html".to_string()),
        (Routes::Post("hello".to_string()), "/post/hello.html".to_string()),
    ];
    let xml = sitemap_xml(&routes);
    assert_eq!(xml, format!("{HEAD}{}{}</urlset>", entry("/"), entry("/post/hello")));
    assert_eq!(xml.matches("<url>").count(), 2);
    assert_eq!(xml.matches("/post/hello").count(), 1);
    assert_eq!(xml.matches("/404").count(), 0);
    assert_eq!(xml.matches(".html").count(), 0);
}

#[test]
fn the_sitemap_of_no_routes_is_an_empty_set() {
    assert_eq!(sitemap_xml(&Vec::new()), format!("{HEAD}</urlset>"));
    let only_not_found = vec![(Routes::NotFound, "/404.html".to_string())];
    assert_eq!(sitemap_xml(&only_not_found), format!("{HEAD}</urlset>"));
}

#[test]
fn a_not_found_route_is_left_out_whatever_its_file() {
    let routes = vec![(Routes::NotFound, "no suffix here".to_string())];
    assert_eq!(sitemap_xml(&routes), format!("{HEAD}</urlset>"));
}

#[test]
fn a_last_segment_index_is_trimmed() {
    let routes = vec![
        (Routes::Index, "/index.html".to_string()),
        (Routes::BookSection("x".to_string()), "/book/x/index.html".to_string()),
        (Routes::Post("index".to_string()), "/post/index.html".to_string()),
        (Routes::Index, "index.html".to_string()),
    ];
    assert_eq!(
        sitemap_xml(&routes),
        format!("{HEAD}{}{}{}{}</urlset>", entry("/"), entry("/book/x/"), entry("/post/"), entry(""))
    );
}

#[test]
fn a_segment_that_only_ends_in_index_stays() {
    let routes = vec![
        (Routes::Post("reindex".to_string()), "/post/reindex.html".to_string()),
        (Routes::Post("indexindex".to_string()), "/post/indexindex.html".to_string()),
        (Routes::Post("index.x".to_string()), "/post/index.x.html".to_string()),
        (Routes::Post("x".to_string()), "/index/x.html".to_string()),
    ];
    assert_eq!(
        sitemap_xml(&routes),
        format!(
            "{HEAD}{}{}{}{}</urlset>",
            entry("/post/reindex"),
            entry("/post/indexindex"),
            entry("/post/index.x"),
            entry("/index/x")
        )
    );
}

#[test]
fn only_the_suffix_html_is_stripped() {
    let routes = vec![
        (Routes::Post("a.html".to_string()), "/post/a.html.html".to_string()),
        (Routes::Post("html".to_string()), ".html".to_string()),
    ];
    assert_eq!(
        sitemap_xml(&routes),
        format!("{HEAD}{}{}</urlset>", entry("/post/a.html"), entry(""))
    );
}

#[test]
fn the_sitemap_of_the_site() {
    let repo = repository(&["hello"]);
    let xml = generate_sitemap_xml(&repo).expect("writing into a string does not fail");
    assert_eq!(
        xml,
        format!(
            "{HEAD}{}{}{}{}{}</urlset>",
            entry("/"),
            entry("/post/hello"),
            entry("/book/guide"),
            entry("/book/api"),
            entry("/book/guide/intro")
        )
    );
    assert_eq!(xml, sitemap_xml(&get_static_paths(&repo)));
}

#[test]
fn the_sitemap_has_one_entry_for_each_route_but_not_found() {
    let repo = repository(&["a", "b", "c"]);
    let paths = get_static_paths(&repo);
    let xml = generate_sitemap_xml(&repo).expect("writing into a string does not fail");
    let indexable = paths.iter().filter(|(route, _)| *route != Routes::NotFound).count();
    assert_eq!(indexable, paths.len() - 1);
    assert_eq!(xml.matches("<url><loc>").count(), indexable);
    assert_eq!(xml.matches("</loc></url>").count(), indexable);
}

#[test]
fn markup_in_a_location_is_escaped() {
    let routes = vec![(Routes::Post("a&b<c>\"d'".to_string()), "/post/a&b<c>\"d'.html".to_string())];
    assert_eq!(
        sitemap_xml(&routes),
        format!("{HEAD}<url><loc>{BASE}/post/a&amp;b&lt;c&gt;&quot;d&apos;</loc></url></urlset>")
    );
}

#[test]
fn an_entity_in_a_location_is_escaped_again() {
    let routes = vec![(Routes::Post("&amp;".to_string()), "/post/&amp;.html".to_string())];
    assert_eq!(
        sitemap_xml(&routes),
        format!("{HEAD}<url><loc>{BASE}/post/&amp;amp;</loc></url></urlset>")
    );
}

#[test]
fn other_characters_are_written_as_they_are() {
    let id = "caf\u{e9} \u{1f980}";
    let routes = vec![(Routes::Post(id.to_string()), format!("/post/{id}.html"))];
    assert_eq!(sitemap_xml(&routes), format!("{HEAD}{}</urlset>", entry(&format!("/post/{id}"))));
}
