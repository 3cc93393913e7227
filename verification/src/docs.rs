//! The index of documentation pages, keyed by page.

use vstd::prelude::*;
use crate::assoc::{has_key, lemma_lookup_at, lemma_put, lookup, position, put, unique_keys};
use crate::content::{DocFrontmatter, DocPage, PageKey, Parsed};

verus! {

/// A parsed documentation page.
pub type Doc<B> = Parsed<DocFrontmatter, B>;

/// The documentation pages by key. A key occurs once; the pages stand in the
/// order in which their keys were first inserted.
pub struct DocIndex<B> {
    entries: Vec<(DocPage, Doc<B>)>,
}

impl<B> View for DocIndex<B> {
    type V = Seq<(PageKey, Doc<B>)>;

    closed spec fn view(&self) -> Seq<(PageKey, Doc<B>)> {
        self.entries@.map_values(|e: (DocPage, Doc<B>)| (e.0@, e.1))
    }
}

impl<B> DocIndex<B> {
    /// No key occurs twice.
    pub open spec fn wf(&self) -> bool {
        unique_keys(self@)
    }

    /// An index without pages.
    pub fn new() -> (index: Self)
        ensures
            index@ == Seq::<(PageKey, Doc<B>)>::empty(),
            index.wf(),
    {
        let index = DocIndex { entries: Vec::new() };
        assert(index@ =~= Seq::<(PageKey, Doc<B>)>::empty());
        index
    }

    /// The number of pages.
    pub fn len(&self) -> (n: usize)
        ensures
            n == self@.len(),
    {
        self.entries.len()
    }

    /// The key of the page at position `i`.
    pub fn page_at(&self, i: usize) -> (page: &DocPage)
        requires
            i < self@.len(),
        ensures
            page@ == self@[i as int].0,
    {
        &self.entries[i].0
    }

    /// The page at position `i`.
    pub fn doc_at(&self, i: usize) -> (doc: &Doc<B>)
        requires
            i < self@.len(),
        ensures
            *doc == self@[i as int].1,
    {
        &self.entries[i].1
    }

    /// The first position that holds the key `page`.
    pub fn find(&self, page: &DocPage) -> (r: Option<usize>)
        ensures
            r is Some == has_key(self@, page@),
            r is Some ==> r.unwrap() < self@.len() && self@[r.unwrap() as int].0 == page@,
            r is Some ==> forall|j: int| 0 <= j < r.unwrap() ==> (#[trigger] self@[j]).0 != page@,
            r is Some && self.wf() ==> r.unwrap() == position(self@, page@),
    {
        let mut i: usize = 0;
        while i < self.entries.len()
            invariant
                i <= self.entries.len(),
                forall|j: int| 0 <= j < i ==> (#[trigger] self@[j]).0 != page@,
            decreases self.entries.len() - i,
        {
            if self.entries[i].0.same_page(page) {
                assert(self@[i as int].0 == page@);
                proof {
                    if self.wf() {
                        lemma_lookup_at(self@, i as int);
                    }
                }
                return Some(i);
            }
            i += 1;
        }
        None
    }

    /// Whether the index holds the page `page`.
    pub fn contains(&self, page: &DocPage) -> (r: bool)
        ensures
            r == has_key(self@, page@),
    {
        self.find(page).is_some()
    }

    /// The page under the key `page`.
    pub fn get(&self, page: &DocPage) -> (r: Option<&Doc<B>>)
        requires
            self.wf(),
        ensures
            r is Some == has_key(self@, page@),
            r is Some ==> Some(*r.unwrap()) == lookup(self@, page@),
    {
        match self.find(page) {
            Some(i) => Some(&self.entries[i].1),
            None => None,
        }
    }

    /// Stores `doc` under `page`: in the place of the page that the key held
    /// before, else after all the others.
    pub fn insert(&mut self, page: DocPage, doc: Doc<B>)
        requires
            old(self).wf(),
        ensures
            final(self)@ == put(old(self)@, page@, doc),
            final(self).wf(),
    {
        proof {
            lemma_put(self@, page@, doc);
        }
        match self.find(&page) {
            Some(i) => {
                self.entries[i] = (page, doc);
                assert(self@ =~= put(old(self)@, page@, doc));
            },
            None => {
                self.entries.push((page, doc));
                assert(self@ =~= put(old(self)@, page@, doc));
            },
        }
    }
}

} // verus!
