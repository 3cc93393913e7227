//! Loading the documentation pages, one file at a time.
//!
//! Which file is read next depends on what the files before it declared, and
//! reading is not this library's work. So the loader is a state machine: it
//! names the page to read, takes the parsed page, and goes on. The top-level
//! sections come first, in the order of the manifest; the subsections that
//! they declare follow, in the order in which they were declared.

use vstd::prelude::*;
use vstd::string::StringExecFns;
use crate::assoc::{has_key, lemma_put, lookup, put, unique_keys};
use crate::book::{declared, first_missing, missing_in_section};
use crate::content::{
    page_name, texts, ContentError, ContentFault, DocPage, PageKey, SectionsJson,
};
use crate::docs::{Doc, DocIndex};

verus! {

/// The state of a load as plain values.
pub struct LoadState<B> {
    /// The sections of the manifest.
    pub sections: Seq<Seq<char>>,
    /// How many sections have been supplied.
    pub cursor: int,
    /// The subsections declared so far, each with its section.
    pub pending: Seq<(Seq<char>, Seq<char>)>,
    /// How many of the pending subsections have been supplied.
    pub pending_cursor: int,
    /// The pages loaded so far.
    pub docs: Seq<(PageKey, Doc<B>)>,
}

/// The state before anything is read.
pub open spec fn initial<B>(sections: Seq<Seq<char>>) -> LoadState<B> {
    LoadState {
        sections,
        cursor: 0,
        pending: Seq::empty(),
        pending_cursor: 0,
        docs: Seq::empty(),
    }
}

/// The page that is to be read next, if any is left.
pub open spec fn requested<B>(s: LoadState<B>) -> Option<PageKey> {
    if 0 <= s.cursor < s.sections.len() {
        Some((s.sections[s.cursor], None))
    } else if 0 <= s.pending_cursor < s.pending.len() {
        Some((s.pending[s.pending_cursor].0, Some(s.pending[s.pending_cursor].1)))
    } else {
        None
    }
}

/// Each of `names` paired with `section`.
pub open spec fn paired(section: Seq<char>, names: Seq<Seq<char>>) -> Seq<(Seq<char>, Seq<char>)> {
    names.map_values(|name: Seq<char>| (section, name))
}

/// The state after `doc` was supplied for the requested page, or the reason
/// why `doc` is refused.
pub open spec fn step<B>(s: LoadState<B>, doc: Doc<B>) -> Result<LoadState<B>, ContentFault> {
    match requested(s) {
        None => Err(ContentFault::Unrequested),
        Some((section, None)) => Ok(
            LoadState {
                cursor: s.cursor + 1,
                pending: s.pending + paired(section, texts(doc.front_matter.subsections@)),
                docs: put(s.docs, (section, None), doc),
                ..s
            },
        ),
        Some((section, Some(name))) => if doc.front_matter.subsections@.len() > 0 {
            Err(ContentFault::NestedSubsections(section, name))
        } else {
            Ok(
                LoadState {
                    pending_cursor: s.pending_cursor + 1,
                    docs: put(s.docs, (section, Some(name)), doc),
                    ..s
                },
            )
        },
    }
}

/// What holds of every state that a load passes through: the pages asked for
/// so far are in the index, and every subsection that a loaded section
/// declares is among the pending ones.
pub open spec fn consistent<B>(s: LoadState<B>) -> bool {
    &&& 0 <= s.cursor <= s.sections.len()
    &&& 0 <= s.pending_cursor <= s.pending.len()
    &&& unique_keys(s.docs)
    &&& forall|i: int| 0 <= i < s.cursor ==> has_key(s.docs, (#[trigger] s.sections[i], None::<Seq<char>>))
    &&& forall|j: int|
        0 <= j < s.pending_cursor ==> has_key(
            s.docs,
            ((#[trigger] s.pending[j]).0, Some(s.pending[j].1)),
        )
    &&& forall|section: Seq<char>, k: int|
        has_key(s.docs, (section, None::<Seq<char>>)) && 0 <= k < declared(s.docs, section).len()
            ==> s.pending.contains((section, #[trigger] declared(s.docs, section)[k]))
}

/// Whether nothing is left to read.
pub open spec fn complete<B>(s: LoadState<B>) -> bool {
    requested(s) is None
}

/// A step keeps the state consistent.
pub proof fn lemma_step_consistent<B>(s: LoadState<B>, doc: Doc<B>)
    requires
        consistent(s),
        step(s, doc) is Ok,
    ensures
        consistent(step(s, doc)->Ok_0),
{
    let t = step(s, doc)->Ok_0;
    let page = requested(s).unwrap();
    lemma_put(s.docs, page, doc);
    assert forall|section: Seq<char>, k: int|
        has_key(t.docs, (section, None::<Seq<char>>)) && 0 <= k < declared(t.docs, section).len()
            implies t.pending.contains((section, #[trigger] declared(t.docs, section)[k])) by {
        let key = (section, None::<Seq<char>>);
        if key == page {
            let names = texts(doc.front_matter.subsections@);
            assert(declared(t.docs, section) == names);
            let added = paired(section, names);
            assert(added[k] == (section, names[k]));
            assert(t.pending[s.pending.len() + k] == added[k]);
        } else {
            assert(lookup(t.docs, key) == lookup(s.docs, key));
            assert(has_key(s.docs, key));
            let name = declared(s.docs, section)[k];
            assert(s.pending.contains((section, name)));
            let j = choose|j: int| 0 <= j < s.pending.len() && s.pending[j] == (section, name);
            assert(t.pending[j] == (section, name));
        }
    }
    assert forall|j: int| 0 <= j < t.pending_cursor implies has_key(
        t.docs,
        ((#[trigger] t.pending[j]).0, Some(t.pending[j].1)),
    ) by {
        if j < s.pending_cursor {
            assert(t.pending[j] == s.pending[j]);
        }
    }
}

/// When nothing is left to read, the index holds every page of the table of contents.
pub proof fn lemma_complete_resolves<B>(s: LoadState<B>)
    requires
        consistent(s),
        complete(s),
    ensures
        first_missing(s.sections, s.docs) is None,
{
    lemma_sections_resolve(s, s.sections.len() as int);
    assert(s.sections.take(s.sections.len() as int) =~= s.sections);
}

proof fn lemma_sections_resolve<B>(s: LoadState<B>, n: int)
    requires
        consistent(s),
        complete(s),
        0 <= n <= s.sections.len(),
    ensures
        first_missing(s.sections.take(n), s.docs) is None,
    decreases n,
{
    if n > 0 {
        lemma_sections_resolve(s, n - 1);
        assert(s.sections.take(n).drop_last() =~= s.sections.take(n - 1));
        let section = s.sections[n - 1];
        assert(s.sections.take(n).last() == section);
        assert(has_key(s.docs, (section, None::<Seq<char>>)));
        lemma_subsections_resolve(s, section, declared(s.docs, section).len() as int);
    }
}

proof fn lemma_subsections_resolve<B>(s: LoadState<B>, section: Seq<char>, count: int)
    requires
        consistent(s),
        complete(s),
        has_key(s.docs, (section, None::<Seq<char>>)),
        0 <= count <= declared(s.docs, section).len(),
    ensures
        missing_in_section(s.docs, section, count) is None,
    decreases count,
{
    if count > 0 {
        lemma_subsections_resolve(s, section, count - 1);
        let name = declared(s.docs, section)[count - 1];
        assert(s.pending.contains((section, name)));
        let j = choose|j: int| 0 <= j < s.pending.len() && s.pending[j] == (section, name);
        assert(has_key(s.docs, (s.pending[j].0, Some(s.pending[j].1))));
    }
}

/// The plain values of a list of pending subsections.
pub open spec fn pair_texts(v: Seq<(String, String)>) -> Seq<(Seq<char>, Seq<char>)> {
    v.map_values(|e: (String, String)| (e.0@, e.1@))
}

/// The file of a page, relative to the documentation directory:
/// `next/section.md` or `next/section/subsection.md`. The extension is put
/// behind the whole name, whatever dots the name holds.
pub open spec fn doc_file_name(page: PageKey) -> Seq<char> {
    "next/"@ + page_name(page) + ".md"@
}

/// The file of a page, relative to the documentation directory.
pub fn doc_file(page: &DocPage) -> (file: String)
    ensures
        file@ == doc_file_name(page@),
{
    let mut file = String::new();
    file.append("next/");
    file.append(page.section());
    match page.subsection() {
        Some(doc) => {
            file.append("/");
            file.append(doc);
        },
        None => {},
    }
    file.append(".md");
    assert(file@ =~= doc_file_name(page@));
    file
}

/// A load of the documentation pages in progress.
pub struct DocLoader<B> {
    sections: Vec<String>,
    cursor: usize,
    pending: Vec<(String, String)>,
    pending_cursor: usize,
    docs: DocIndex<B>,
}

impl<B> View for DocLoader<B> {
    type V = LoadState<B>;

    closed spec fn view(&self) -> LoadState<B> {
        LoadState {
            sections: texts(self.sections@),
            cursor: self.cursor as int,
            pending: pair_texts(self.pending@),
            pending_cursor: self.pending_cursor as int,
            docs: self.docs@,
        }
    }
}

impl<B> DocLoader<B> {
    /// The state is one that a load passes through.
    pub open spec fn wf(&self) -> bool {
        consistent(self@)
    }

    /// A load of the sections that `manifest` names, with nothing read yet.
    pub fn new(manifest: SectionsJson) -> (loader: Self)
        ensures
            loader@ == initial::<B>(texts(manifest.sections@)),
            loader.wf(),
    {
        let loader = DocLoader {
            sections: manifest.sections,
            cursor: 0,
            pending: Vec::new(),
            pending_cursor: 0,
            docs: DocIndex::new(),
        };
        assert(loader@.pending =~= Seq::empty());
        loader
    }

    /// The page to read next, or `None` when everything has been read.
    pub fn request(&self) -> (page: Option<DocPage>)
        ensures
            page is Some == requested(self@) is Some,
            page is Some ==> page.unwrap()@ == requested(self@).unwrap(),
    {
        if self.cursor < self.sections.len() {
            Some(DocPage::new(self.sections[self.cursor].clone(), None))
        } else if self.pending_cursor < self.pending.len() {
            let pair = &self.pending[self.pending_cursor];
            Some(DocPage::new(pair.0.clone(), Some(pair.1.clone())))
        } else {
            None
        }
    }

    /// Whether everything has been read.
    pub fn is_done(&self) -> (done: bool)
        ensures
            done == complete(self@),
    {
        self.cursor >= self.sections.len() && self.pending_cursor >= self.pending.len()
    }

    /// Takes the parsed page that `request` asked for. A subsection that
    /// declares subsections of its own is refused, and so is a page that was
    /// not asked for; the load then stays as it was.
    pub fn supply(&mut self, doc: Doc<B>) -> (r: Result<(), ContentError>)
        requires
            old(self).wf(),
        ensures
            match step(old(self)@, doc) {
                Ok(next) => r is Ok && final(self)@ == next,
                Err(fault) => r is Err && r->Err_0@ == fault && final(self)@ == old(self)@,
            },
            final(self).wf(),
    {
        proof {
            if step(self@, doc) is Ok {
                lemma_step_consistent(self@, doc);
            }
        }
        if self.cursor < self.sections.len() {
            let section = self.sections[self.cursor].clone();
            let ghost before = self.pending@;
            let mut k: usize = 0;
            while k < doc.front_matter.subsections.len()
                invariant
                    k <= doc.front_matter.subsections.len(),
                    self.cursor == old(self).cursor,
                    self.sections == old(self).sections,
                    self.pending_cursor == old(self).pending_cursor,
                    self.docs == old(self).docs,
                    old(self).cursor < old(self).sections.len(),
                    section@ == old(self)@.sections[old(self).cursor as int],
                    pair_texts(self.pending@) == pair_texts(before) + paired(
                        section@,
                        texts(doc.front_matter.subsections@).take(k as int),
                    ),
                decreases doc.front_matter.subsections.len() - k,
            {
                let name = doc.front_matter.subsections[k].clone();
                let ghost names = texts(doc.front_matter.subsections@);
                assert(names[k as int] == name@);
                let ghost earlier = self.pending@;
                self.pending.push((section.clone(), name));
                assert(pair_texts(self.pending@) =~= pair_texts(before) + paired(
                    section@,
                    names.take(k + 1),
                )) by {
                    let got = pair_texts(self.pending@);
                    let want = pair_texts(before) + paired(section@, names.take(k + 1));
                    let was = pair_texts(before) + paired(section@, names.take(k as int));
                    assert(pair_texts(earlier) == was);
                    assert(earlier.len() == was.len());
                    assert forall|j: int| 0 <= j < got.len() implies got[j] == want[j] by {
                        if j < earlier.len() {
                            assert(self.pending@[j] == earlier[j]);
                            assert(pair_texts(earlier)[j] == was[j]);
                            if j >= before.len() {
                                assert(names.take(k + 1)[j - before.len()] == names.take(
                                    k as int,
                                )[j - before.len()]);
                            }
                        }
                    }
                }
                k += 1;
            }
            assert(texts(doc.front_matter.subsections@).take(k as int) =~= texts(
                doc.front_matter.subsections@,
            ));
            self.docs.insert(DocPage::new(section, None), doc);
            self.cursor = self.cursor + 1;
            Ok(())
        } else if self.pending_cursor < self.pending.len() {
            let section = self.pending[self.pending_cursor].0.clone();
            let name = self.pending[self.pending_cursor].1.clone();
            if doc.front_matter.subsections.len() > 0 {
                return Err(ContentError::NestedSubsections { section, subsection: name });
            }
            self.docs.insert(DocPage::new(section, Some(name)), doc);
            self.pending_cursor = self.pending_cursor + 1;
            Ok(())
        } else {
            Err(ContentError::Unrequested)
        }
    }

    /// Ends the load: the manifest's sections and the index of the pages,
    /// or `None` while pages are left to read.
    pub fn finish(self) -> (r: Option<(SectionsJson, DocIndex<B>)>)
        requires
            self.wf(),
        ensures
            r is Some == complete(self@),
            r is Some ==> {
                let (manifest, docs) = r.unwrap();
                &&& texts(manifest.sections@) == self@.sections
                &&& docs@ == self@.docs
                &&& docs.wf()
                &&& first_missing(texts(manifest.sections@), docs@) is None
            },
    {
        if !self.is_done() {
            return None;
        }
        proof {
            lemma_complete_resolves(self@);
        }
        Some((SectionsJson { sections: self.sections }, self.docs))
    }
}

} // verus!
