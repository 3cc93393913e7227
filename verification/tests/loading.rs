use sycamore_website::book::build_section;
use sycamore_website::content::{
    BookIndex, ContentError, DocFrontmatter, DocPage, Parsed, SectionsJson,
};
use sycamore_website::docs::DocIndex;
use sycamore_website::loader::DocLoader;
use sycamore_website::posts::PostIndex;
use sycamore_website::repository::ContentRepository;

fn doc(title: &str, subsections: &[&str]) -> Parsed<DocFrontmatter, ()> {
    Parsed {
        front_matter: DocFrontmatter {
            title: title.to_string(),
            subsections: subsections.iter().map(|s| s.to_string()).collect(),
        },
        headings: Vec::new(),
        body: (),
    }
}

fn manifest(sections: &[&str]) -> SectionsJson {
    SectionsJson { sections: sections.iter().map(|s| s.to_string()).collect() }
}

fn page(section: &str, sub: Option<&str>) -> DocPage {
    DocPage::new(section.to_string(), sub.map(|s| s.to_string()))
}

/// Runs a load against a function that stands for the files.
fn load(
    sections: &[&str],
    source: &dyn Fn(&DocPage) -> Parsed<DocFrontmatter, ()>,
) -> Result<(SectionsJson, DocIndex<()>, Vec<DocPage>), ContentError> {
    let mut loader = DocLoader::new(manifest(sections));
    let mut asked = Vec::new();
    while let Some(next) = loader.request() {
        loader.supply(source(&next))?;
        asked.push(next);
    }
    assert!(loader.is_done());
    let (manifest, docs) = loader.finish().expect("the load is complete");
    Ok((manifest, docs, asked))
}

fn guide_files(next: &DocPage) -> Parsed<DocFrontmatter, ()> {
    match (next.section(), next.subsection()) {
        ("intro", None) => doc("Introduction", &[]),
        ("guide", None) => doc("Guide", &["setup", "usage"]),
        ("guide", Some("setup")) => doc("Setting up", &[]),
        ("guide", Some("usage")) => doc("Using it", &[]),
        ("api", None) => doc("API", &["types"]),
        ("api", Some("types")) => doc("Types", &[]),
        _ => panic!("no such page"),
    }
}

#[test]
fn sections_are_read_first_then_their_subsections() {
    let (_, docs, asked) = load(&["intro", "guide", "api"], &guide_files).expect("the load passes");
    assert_eq!(
        asked,
        [
            page("intro", None),
            page("guide", None),
            page("api", None),
            page("guide", Some("setup")),
            page("guide", Some("usage")),
            page("api", Some("types")),
        ]
    );
    assert_eq!(docs.len(), 6);
    for (i, p) in asked.iter().enumerate() {
        assert_eq!(docs.page_at(i), p);
    }
    assert_eq!(
        docs.get(&page("guide", Some("usage"))).map(|d| d.front_matter.title.as_str()),
        Some("Using it")
    );
}

#[test]
fn an_empty_manifest_asks_for_nothing() {
    let loader: DocLoader<()> = DocLoader::new(manifest(&[]));
    assert!(loader.is_done());
    assert_eq!(loader.request(), None);
    let (sections, docs) = loader.finish().expect("nothing is left to read");
    assert!(sections.sections.is_empty());
    assert_eq!(docs.len(), 0);
}

#[test]
fn a_subsection_with_subsections_is_fatal() {
    let mut loader: DocLoader<()> = DocLoader::new(manifest(&["guide"]));
    assert_eq!(loader.request(), Some(page("guide", None)));
    assert_eq!(loader.supply(doc("Guide", &["intro"])), Ok(()));
    assert_eq!(loader.request(), Some(page("guide", Some("intro"))));
    let error = loader.supply(doc("Intro", &["x"])).expect_err("the page is refused");
    assert_eq!(
        error,
        ContentError::NestedSubsections {
            section: "guide".to_string(),
            subsection: "intro".to_string(),
        }
    );
    assert!(error.message().contains("guide/intro"));
    // The load stays where it was: the same page is still asked for.
    assert_eq!(loader.request(), Some(page("guide", Some("intro"))));
    assert!(!loader.is_done());
    assert!(loader.finish().is_none());
}

#[test]
fn a_page_that_was_not_asked_for_is_refused() {
    let mut loader: DocLoader<()> = DocLoader::new(manifest(&[]));
    assert_eq!(loader.supply(doc("Stray", &[])), Err(ContentError::Unrequested));
    let mut loader: DocLoader<()> = DocLoader::new(manifest(&["a"]));
    assert_eq!(loader.supply(doc("A", &[])), Ok(()));
    assert_eq!(loader.supply(doc("Stray", &[])), Err(ContentError::Unrequested));
    assert!(loader.is_done());
}

#[test]
fn a_load_in_progress_cannot_be_finished() {
    let mut loader: DocLoader<()> = DocLoader::new(manifest(&["a", "b"]));
    assert_eq!(loader.supply(doc("A", &[])), Ok(()));
    assert!(!loader.is_done());
    assert!(loader.finish().is_none());
}

#[test]
fn the_book_follows_the_manifest_and_the_declared_subsections() {
    // The manifest's order is not the order of the names, and the
    // subsections are not in the order of their names either.
    let files = |next: &DocPage| match (next.section(), next.subsection()) {
        ("zeta", None) => doc("Zeta", &["second", "first", "third"]),
        ("alpha", None) => doc("Alpha", &[]),
        ("zeta", Some(name)) => doc(&format!("Zeta {name}"), &[]),
        _ => panic!("no such page"),
    };
    let (sections, docs, _) = load(&["zeta", "alpha"], &files).expect("the load passes");
    let book = BookIndex::build(&sections, &docs).expect("every page is there");
    assert_eq!(book.sections.len(), 2);
    assert_eq!(book.sections[0].title, "Zeta");
    assert_eq!(book.sections[0].path, page("zeta", None));
    assert_eq!(book.sections[1].title, "Alpha");
    assert_eq!(book.sections[1].path, page("alpha", None));
    assert!(book.sections[1].subsections.is_empty());
    let items = &book.sections[0].subsections;
    let declared = &docs.get(&page("zeta", None)).expect("the page is there").front_matter.subsections;
    assert_eq!(items.len(), declared.len());
    for (item, name) in items.iter().zip(declared.iter()) {
        assert_eq!(item.path, page("zeta", Some(name)));
        assert_eq!(item.title, format!("Zeta {name}"));
    }
    // One entry for each section of the manifest.
    for section in sections.sections.iter() {
        let key = page(section, None);
        assert_eq!(book.sections.iter().filter(|s| s.path == key).count(), 1);
    }
}

#[test]
fn every_path_of_the_book_is_in_the_index() {
    let (sections, docs, _) = load(&["intro", "guide", "api"], &guide_files).expect("the load passes");
    let book = BookIndex::build(&sections, &docs).expect("every page is there");
    for section in book.sections.iter() {
        assert!(docs.contains(&section.path));
        for item in section.subsections.iter() {
            assert!(docs.contains(&item.path));
        }
    }
}

#[test]
fn the_book_names_the_first_missing_page() {
    let mut docs: DocIndex<()> = DocIndex::new();
    docs.insert(page("a", None), doc("A", &["x", "y"]));
    docs.insert(page("a", Some("x")), doc("AX", &[]));
    docs.insert(page("c", None), doc("C", &[]));
    let r = BookIndex::build(&manifest(&["a", "b", "c"]), &docs);
    assert_eq!(r.err(), Some(ContentError::MissingDoc(page("a", Some("y")))));
    docs.insert(page("a", Some("y")), doc("AY", &[]));
    let r = BookIndex::build(&manifest(&["a", "b", "c"]), &docs);
    assert_eq!(r.err(), Some(ContentError::MissingDoc(page("b", None))));
    let r = BookIndex::build(&manifest(&["a", "c"]), &docs);
    assert_eq!(r.map(|book| book.sections.len()).ok(), Some(2));
}

#[test]
fn a_section_entry_is_built_from_its_page() {
    let mut docs: DocIndex<()> = DocIndex::new();
    docs.insert(page("a", None), doc("A", &["x"]));
    docs.insert(page("a", Some("x")), doc("AX", &[]));
    let section = build_section(&"a".to_string(), &docs).expect("the pages are there");
    assert_eq!(section.title, "A");
    assert_eq!(section.subsections.len(), 1);
    assert_eq!(section.subsections[0].title, "AX");
    assert_eq!(
        build_section(&"b".to_string(), &docs).err(),
        Some(ContentError::MissingDoc(page("b", None)))
    );
}

#[test]
fn a_section_named_twice_stands_twice_in_the_book() {
    let files = |next: &DocPage| match (next.section(), next.subsection()) {
        ("a", None) => doc("A", &[]),
        _ => panic!("no such page"),
    };
    let (sections, docs, asked) = load(&["a", "a"], &files).expect("the load passes");
    assert_eq!(asked.len(), 2);
    assert_eq!(docs.len(), 1);
    let book = BookIndex::build(&sections, &docs).expect("every page is there");
    assert_eq!(book.sections.len(), 2);
}

#[test]
fn the_repository_builds_the_book() {
    let (sections, docs, _) = load(&["intro", "guide", "api"], &guide_files).expect("the load passes");
    let repo = ContentRepository::new(sections, docs, PostIndex::new()).expect("every page is there");
    assert_eq!(repo.book.sections.len(), 3);
    assert_eq!(repo.book.sections[1].subsections.len(), 2);
    assert_eq!(repo.sections.sections, ["intro", "guide", "api"]);
}

#[test]
fn the_repository_refuses_a_book_with_a_missing_page() {
    let docs: DocIndex<()> = DocIndex::new();
    let r = ContentRepository::new(manifest(&["intro"]), docs, PostIndex::new());
    assert_eq!(r.err(), Some(ContentError::MissingDoc(page("intro", None))));
}
