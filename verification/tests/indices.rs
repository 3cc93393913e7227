use sycamore_website::content::{DocFrontmatter, DocPage, Parsed, PostFrontmatter};
use sycamore_website::date::Date;
use sycamore_website::docs::DocIndex;
use sycamore_website::posts::PostIndex;

fn post(title: &str, day: u32) -> Parsed<PostFrontmatter, String> {
    Parsed {
        front_matter: PostFrontmatter {
            title: title.to_string(),
            description: String::new(),
            date: Date { year: 2024, month: 1, day },
        },
        headings: Vec::new(),
        body: format!("body of {title}"),
    }
}

fn doc(title: &str, subsections: &[&str]) -> Parsed<DocFrontmatter, String> {
    Parsed {
        front_matter: DocFrontmatter {
            title: title.to_string(),
            subsections: subsections.iter().map(|s| s.to_string()).collect(),
        },
        headings: Vec::new(),
        body: String::new(),
    }
}

fn ids(index: &PostIndex<String>) -> Vec<String> {
    (0..index.len()).map(|i| index.id_at(i).to_string()).collect()
}

#[test]
fn an_empty_post_index_holds_nothing() {
    let index: PostIndex<String> = PostIndex::new();
    assert_eq!(index.len(), 0);
    assert!(index.get("hello").is_none());
    assert_eq!(index.find("hello"), None);
}

#[test]
fn posts_stand_in_the_order_of_their_ids() {
    let mut index = PostIndex::new();
    index.insert("pear".to_string(), post("Pear", 1));
    index.insert("apple".to_string(), post("Apple", 2));
    index.insert("zebra".to_string(), post("Zebra", 3));
    index.insert("mango".to_string(), post("Mango", 4));
    assert_eq!(ids(&index), ["apple", "mango", "pear", "zebra"]);
    assert_eq!(index.post_at(0).front_matter.title, "Apple");
    assert_eq!(index.post_at(3).front_matter.title, "Zebra");
}

#[test]
fn a_prefix_comes_before_the_longer_id() {
    let mut index = PostIndex::new();
    index.insert("ab".to_string(), post("2", 1));
    index.insert("abc".to_string(), post("3", 1));
    index.insert("a".to_string(), post("1", 1));
    index.insert("".to_string(), post("0", 1));
    index.insert("B".to_string(), post("upper", 1));
    assert_eq!(ids(&index), ["", "B", "a", "ab", "abc"]);
}

#[test]
fn each_post_has_one_entry_under_its_id() {
    let mut index = PostIndex::new();
    for (id, day) in [("hello", 1), ("world", 2), ("hello", 3), ("again", 4), ("hello", 5)] {
        index.insert(id.to_string(), post(id, day));
    }
    assert_eq!(index.len(), 3);
    assert_eq!(ids(&index).iter().filter(|id| id.as_str() == "hello").count(), 1);
    assert_eq!(index.get("hello").map(|p| p.front_matter.date.day), Some(5));
    assert_eq!(index.get("world").map(|p| p.front_matter.date.day), Some(2));
    assert_eq!(index.get("again").map(|p| p.front_matter.date.day), Some(4));
    assert!(index.get("hell").is_none());
}

#[test]
fn the_body_of_a_post_is_carried_through() {
    let mut index = PostIndex::new();
    index.insert("hello".to_string(), post("hello", 1));
    assert_eq!(index.get("hello").map(|p| p.body.as_str()), Some("body of hello"));
}

#[test]
fn find_gives_the_position_of_a_post() {
    let mut index = PostIndex::new();
    index.insert("b".to_string(), post("b", 1));
    index.insert("a".to_string(), post("a", 1));
    index.insert("c".to_string(), post("c", 1));
    assert_eq!(index.find("a"), Some(0));
    assert_eq!(index.find("b"), Some(1));
    assert_eq!(index.find("c"), Some(2));
    assert_eq!(index.find("d"), None);
}

#[test]
fn the_order_of_arrival_does_not_show() {
    let names = ["delta", "alpha", "charlie", "bravo"];
    let forward: PostIndex<String> =
        PostIndex::from_entries(names.iter().map(|n| (n.to_string(), post(n, 1))).collect());
    let backward: PostIndex<String> =
        PostIndex::from_entries(names.iter().rev().map(|n| (n.to_string(), post(n, 1))).collect());
    assert_eq!(ids(&forward), ["alpha", "bravo", "charlie", "delta"]);
    assert_eq!(ids(&forward), ids(&backward));
}

#[test]
fn from_entries_keeps_the_later_of_two_posts_with_one_id() {
    let index: PostIndex<String> = PostIndex::from_entries(vec![
        ("a".to_string(), post("first", 1)),
        ("b".to_string(), post("other", 2)),
        ("a".to_string(), post("second", 3)),
    ]);
    assert_eq!(index.len(), 2);
    assert_eq!(index.get("a").map(|p| p.front_matter.title.as_str()), Some("second"));
}

#[test]
fn an_empty_doc_index_holds_nothing() {
    let index: DocIndex<String> = DocIndex::new();
    assert_eq!(index.len(), 0);
    assert!(!index.contains(&DocPage::new("guide".to_string(), None)));
}

#[test]
fn pages_stand_in_the_order_of_arrival() {
    let mut index = DocIndex::new();
    index.insert(DocPage::new("b".to_string(), None), doc("B", &[]));
    index.insert(DocPage::new("a".to_string(), None), doc("A", &[]));
    index.insert(DocPage::new("a".to_string(), Some("x".to_string())), doc("AX", &[]));
    assert_eq!(index.len(), 3);
    assert_eq!(index.page_at(0), &DocPage::new("b".to_string(), None));
    assert_eq!(index.page_at(1), &DocPage::new("a".to_string(), None));
    assert_eq!(index.page_at(2), &DocPage::new("a".to_string(), Some("x".to_string())));
    assert_eq!(index.doc_at(2).front_matter.title, "AX");
}

#[test]
fn a_page_put_again_keeps_its_place() {
    let mut index = DocIndex::new();
    index.insert(DocPage::new("a".to_string(), None), doc("old", &[]));
    index.insert(DocPage::new("b".to_string(), None), doc("B", &[]));
    index.insert(DocPage::new("a".to_string(), None), doc("new", &["x"]));
    assert_eq!(index.len(), 2);
    assert_eq!(index.find(&DocPage::new("a".to_string(), None)), Some(0));
    let got = index.get(&DocPage::new("a".to_string(), None)).expect("the page is there");
    assert_eq!(got.front_matter.title, "new");
    assert_eq!(got.front_matter.subsections, ["x"]);
    assert_eq!(
        index.get(&DocPage::new("b".to_string(), None)).map(|d| d.front_matter.title.as_str()),
        Some("B")
    );
}

#[test]
fn a_section_and_its_subsection_are_different_pages() {
    let mut index = DocIndex::new();
    index.insert(DocPage::new("a".to_string(), None), doc("section", &[]));
    assert!(index.contains(&DocPage::new("a".to_string(), None)));
    assert!(!index.contains(&DocPage::new("a".to_string(), Some("a".to_string()))));
    assert!(index.get(&DocPage::new("a".to_string(), Some("x".to_string()))).is_none());
}
