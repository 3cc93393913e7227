//! Building the table of contents of the book from the manifest and the documentation index.

use vstd::prelude::*;
use crate::assoc::{has_key, lookup};
use crate::content::{
    item_views, section_views, texts, BookIndex, BookItem, BookItemView, BookSection,
    BookSectionView, ContentError, ContentFault, DocPage, PageKey, SectionsJson,
};
use crate::docs::{Doc, DocIndex};

verus! {

/// The names of the subsections that the page of `section` declares.
pub open spec fn declared<B>(docs: Seq<(PageKey, Doc<B>)>, section: Seq<char>) -> Seq<Seq<char>>
    recommends
        has_key(docs, (section, None::<Seq<char>>)),
{
    texts(lookup(docs, (section, None::<Seq<char>>)).unwrap().front_matter.subsections@)
}

/// The entry of the subsection `name` of `section`.
pub open spec fn item_of<B>(docs: Seq<(PageKey, Doc<B>)>, section: Seq<char>, name: Seq<char>) -> BookItemView
    recommends
        has_key(docs, (section, Some(name))),
{
    BookItemView {
        title: lookup(docs, (section, Some(name))).unwrap().front_matter.title@,
        path: (section, Some(name)),
    }
}

/// The entries of the subsections `names` of `section`, in their order.
pub open spec fn items_of<B>(
    docs: Seq<(PageKey, Doc<B>)>,
    section: Seq<char>,
    names: Seq<Seq<char>>,
) -> Seq<BookItemView> {
    names.map_values(|name: Seq<char>| item_of(docs, section, name))
}

/// The entry of `section`: its title and its declared subsections, in their order.
pub open spec fn section_of<B>(docs: Seq<(PageKey, Doc<B>)>, section: Seq<char>) -> BookSectionView
    recommends
        has_key(docs, (section, None::<Seq<char>>)),
{
    BookSectionView {
        title: lookup(docs, (section, None::<Seq<char>>)).unwrap().front_matter.title@,
        subsections: items_of(docs, section, declared(docs, section)),
        path: (section, None),
    }
}

/// The table of contents: the sections of the manifest, in its order.
pub open spec fn book_of<B>(sections: Seq<Seq<char>>, docs: Seq<(PageKey, Doc<B>)>) -> Seq<BookSectionView> {
    sections.map_values(|section: Seq<char>| section_of(docs, section))
}

/// The page that the first `count` subsections of `section` lack in `docs`, if
/// there is one: the page of the section itself, else the first declared
/// subsection without a page.
pub open spec fn missing_in_section<B>(
    docs: Seq<(PageKey, Doc<B>)>,
    section: Seq<char>,
    count: int,
) -> Option<PageKey>
    decreases count,
{
    if !has_key(docs, (section, None::<Seq<char>>)) {
        Some((section, None))
    } else if count <= 0 {
        None
    } else {
        match missing_in_section(docs, section, count - 1) {
            Some(page) => Some(page),
            None => {
                let name = declared(docs, section)[count - 1];
                if has_key(docs, (section, Some(name))) {
                    None
                } else {
                    Some((section, Some(name)))
                }
            },
        }
    }
}

/// The first page, in the order of the table of contents, that `docs` lacks.
pub open spec fn first_missing<B>(sections: Seq<Seq<char>>, docs: Seq<(PageKey, Doc<B>)>) -> Option<PageKey>
    decreases sections.len(),
{
    if sections.len() == 0 {
        None
    } else {
        match first_missing(sections.drop_last(), docs) {
            Some(page) => Some(page),
            None => missing_in_section(
                docs,
                sections.last(),
                declared(docs, sections.last()).len() as int,
            ),
        }
    }
}

/// Builds the entry of `section`, or names the first of its pages that `docs` lacks.
pub fn build_section<B>(section: &String, docs: &DocIndex<B>) -> (r: Result<BookSection, ContentError>)
    requires
        docs.wf(),
    ensures
        match missing_in_section(docs@, section@, declared(docs@, section@).len() as int) {
            Some(page) => r is Err && r->Err_0@ == ContentFault::MissingDoc(page),
            None => r is Ok && r->Ok_0@ == section_of(docs@, section@),
        },
{
    let path = DocPage::new(section.clone(), None);
    let doc = match docs.get(&path) {
        Some(doc) => doc,
        None => {
            return Err(ContentError::MissingDoc(path));
        },
    };
    let title = doc.front_matter.title.clone();
    let names = &doc.front_matter.subsections;
    let ghost wanted = declared(docs@, section@);
    assert(wanted == texts(names@));
    let mut subsections: Vec<BookItem> = Vec::new();
    let mut i: usize = 0;
    while i < names.len()
        invariant
            i <= names.len(),
            docs.wf(),
            has_key(docs@, (section@, None::<Seq<char>>)),
            wanted == texts(names@),
            wanted == declared(docs@, section@),
            missing_in_section(docs@, section@, i as int) is None,
            subsections@.len() == i,
            item_views(subsections@) == items_of(docs@, section@, wanted.take(i as int)),
        decreases names.len() - i,
    {
        let name = &names[i];
        assert(wanted[i as int] == name@);
        let item_path = DocPage::new(section.clone(), Some(name.clone()));
        let item_doc = match docs.get(&item_path) {
            Some(item_doc) => item_doc,
            None => {
                assert(missing_in_section(docs@, section@, i + 1) == Some(item_path@));
                proof {
                    lemma_missing_stays(docs@, section@, i + 1, names.len() as int);
                }
                return Err(ContentError::MissingDoc(item_path));
            },
        };
        let item = BookItem { title: item_doc.front_matter.title.clone(), path: item_path };
        assert(item@ == item_of(docs@, section@, name@));
        let ghost before = subsections@;
        subsections.push(item);
        assert(item_views(subsections@) =~= items_of(docs@, section@, wanted.take(i + 1))) by {
            let got = item_views(subsections@);
            let want = items_of(docs@, section@, wanted.take(i + 1));
            assert forall|j: int| 0 <= j < got.len() implies got[j] == want[j] by {
                if j < i {
                    assert(subsections@[j] == before[j]);
                    assert(item_views(before)[j] == items_of(
                        docs@,
                        section@,
                        wanted.take(i as int),
                    )[j]);
                    assert(wanted.take(i + 1)[j] == wanted.take(i as int)[j]);
                }
            }
        }
        assert(missing_in_section(docs@, section@, i + 1) is None);
        i += 1;
    }
    assert(wanted.take(names.len() as int) =~= wanted);
    let built = BookSection { title, subsections, path };
    assert(built@ == section_of(docs@, section@));
    Ok(built)
}

/// A page that is missing among the first `i` subsections is the one missing among the first `n`.
proof fn lemma_missing_stays<B>(docs: Seq<(PageKey, Doc<B>)>, section: Seq<char>, i: int, n: int)
    requires
        0 <= i <= n,
        missing_in_section(docs, section, i) is Some,
    ensures
        missing_in_section(docs, section, n) == missing_in_section(docs, section, i),
    decreases n - i,
{
    if i < n {
        lemma_missing_stays(docs, section, i, n - 1);
    }
}

impl BookIndex {
    /// Builds the table of contents by walking the manifest and, for each
    /// section, the subsections that its page declares. Fails on the first
    /// page that `docs` does not hold.
    pub fn build<B>(manifest: &SectionsJson, docs: &DocIndex<B>) -> (r: Result<BookIndex, ContentError>)
        requires
            docs.wf(),
        ensures
            match first_missing(texts(manifest.sections@), docs@) {
                Some(page) => r is Err && r->Err_0@ == ContentFault::MissingDoc(page),
                None => r is Ok && r->Ok_0@ == book_of(texts(manifest.sections@), docs@),
            },
    {
        let ghost wanted = texts(manifest.sections@);
        let mut sections: Vec<BookSection> = Vec::new();
        let mut i: usize = 0;
        while i < manifest.sections.len()
            invariant
                i <= manifest.sections.len(),
                docs.wf(),
                wanted == texts(manifest.sections@),
                first_missing(wanted.take(i as int), docs@) is None,
                sections@.len() == i,
                section_views(sections@) == book_of(wanted.take(i as int), docs@),
            decreases manifest.sections.len() - i,
        {
            let name = &manifest.sections[i];
            assert(wanted[i as int] == name@);
            assert(wanted.take(i + 1).drop_last() =~= wanted.take(i as int));
            match build_section(name, docs) {
                Ok(section) => {
                    let ghost before = sections@;
                    sections.push(section);
                    assert(section_views(sections@) =~= book_of(wanted.take(i + 1), docs@)) by {
                        let got = section_views(sections@);
                        let want = book_of(wanted.take(i + 1), docs@);
                        assert forall|j: int| 0 <= j < got.len() implies got[j] == want[j] by {
                            if j < i {
                                assert(sections@[j] == before[j]);
                                assert(section_views(before)[j] == book_of(
                                    wanted.take(i as int),
                                    docs@,
                                )[j]);
                                assert(wanted.take(i + 1)[j] == wanted.take(i as int)[j]);
                            }
                        }
                    }
                },
                Err(e) => {
                    proof {
                        lemma_first_missing_stays(wanted, docs@, i + 1);
                    }
                    return Err(e);
                },
            }
            i += 1;
        }
        assert(wanted.take(manifest.sections.len() as int) =~= wanted);
        let book = BookIndex { sections };
        Ok(book)
    }
}

/// A page that is missing among the first `i` sections is the first one missing overall.
proof fn lemma_first_missing_stays<B>(sections: Seq<Seq<char>>, docs: Seq<(PageKey, Doc<B>)>, i: int)
    requires
        0 <= i <= sections.len(),
        first_missing(sections.take(i), docs) is Some,
    ensures
        first_missing(sections, docs) == first_missing(sections.take(i), docs),
    decreases sections.len() - i,
{
    if i < sections.len() {
        assert(sections.take(i + 1).drop_last() =~= sections.take(i));
        lemma_first_missing_stays(sections, docs, i + 1);
    } else {
        assert(sections.take(i) =~= sections);
    }
}

/// Each section of a manifest that names no section twice has one entry in
/// the table of contents: the one at the section's place. Its subsections
/// are those that the page of the section declares, as many and in the same
/// order.
pub proof fn lemma_book_sections<B>(sections: Seq<Seq<char>>, docs: Seq<(PageKey, Doc<B>)>, i: int)
    requires
        sections.no_duplicates(),
        0 <= i < sections.len(),
    ensures
        book_of(sections, docs).len() == sections.len(),
        book_of(sections, docs)[i].path == (sections[i], None::<Seq<char>>),
        forall|j: int|
            0 <= j < sections.len() && (#[trigger] book_of(sections, docs)[j]).path == (
                sections[i],
                None::<Seq<char>>,
            ) ==> j == i,
        book_of(sections, docs)[i].subsections.len() == declared(docs, sections[i]).len(),
        forall|k: int|
            0 <= k < declared(docs, sections[i]).len() ==> (#[trigger] book_of(
                sections,
                docs,
            )[i].subsections[k]).path == (sections[i], Some(declared(docs, sections[i])[k])),
{
    let book = book_of(sections, docs);
    assert forall|j: int|
        0 <= j < sections.len() && (#[trigger] book[j]).path == (
            sections[i],
            None::<Seq<char>>,
        ) implies j == i by {
        assert(book[j].path == (sections[j], None::<Seq<char>>));
    }
}

/// Where no page is missing, every path of the table of contents is a key of the index.
pub proof fn lemma_book_paths_resolve<B>(sections: Seq<Seq<char>>, docs: Seq<(PageKey, Doc<B>)>)
    requires
        first_missing(sections, docs) is None,
    ensures
        forall|i: int|
            0 <= i < sections.len() ==> has_key(docs, (#[trigger] book_of(sections, docs)[i]).path),
        forall|i: int, k: int|
            0 <= i < sections.len() && 0 <= k < book_of(sections, docs)[i].subsections.len()
                ==> has_key(docs, (#[trigger] book_of(sections, docs)[i].subsections[k]).path),
{
    let book = book_of(sections, docs);
    assert forall|i: int| 0 <= i < sections.len() implies has_key(docs, (#[trigger] book[i]).path)
        && forall|k: int|
        0 <= k < book[i].subsections.len() ==> has_key(
            docs,
            (#[trigger] book[i].subsections[k]).path,
        ) by {
        lemma_section_not_missing(sections, docs, i);
        let section = sections[i];
        assert forall|k: int| 0 <= k < book[i].subsections.len() implies has_key(
            docs,
            (#[trigger] book[i].subsections[k]).path,
        ) by {
            lemma_subsection_not_missing(docs, section, declared(docs, section).len() as int, k);
        }
    }
}

proof fn lemma_section_not_missing<B>(sections: Seq<Seq<char>>, docs: Seq<(PageKey, Doc<B>)>, i: int)
    requires
        first_missing(sections, docs) is None,
        0 <= i < sections.len(),
    ensures
        missing_in_section(docs, sections[i], declared(docs, sections[i]).len() as int) is None,
        has_key(docs, (sections[i], None::<Seq<char>>)),
    decreases sections.len(),
{
    if i < sections.len() - 1 {
        lemma_section_not_missing(sections.drop_last(), docs, i);
    }
}

proof fn lemma_subsection_not_missing<B>(
    docs: Seq<(PageKey, Doc<B>)>,
    section: Seq<char>,
    count: int,
    k: int,
)
    requires
        missing_in_section(docs, section, count) is None,
        0 <= k < count <= declared(docs, section).len(),
    ensures
        has_key(docs, (section, Some(declared(docs, section)[k]))),
    decreases count,
{
    if k < count - 1 {
        lemma_subsection_not_missing(docs, section, count - 1, k);
    }
}

} // verus!
