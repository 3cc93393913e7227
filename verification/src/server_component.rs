//! Fragments that are rendered at build time and fetched by the client.
//!
//! While the pages are rendered, each server-only part registers its markup
//! under an id. After the last page the collector is drained and each
//! fragment is written to a file of its own. An id is used once in a build:
//! a second fragment under an id that is taken is refused, not written over
//! the first.

use vstd::prelude::*;
use vstd::string::StringExecFns;
use crate::assoc::{has_key, lemma_put, unique_keys};

verus! {

/// Why a fragment was not registered.
#[derive(Debug, Clone, PartialEq, Eq)]
pub enum FragmentError {
    /// A fragment is registered under this id already.
    DuplicateId(String),
}

/// The fragments of a build as plain values: each id with its markup, in the order of arrival.
pub type Fragments = Seq<(Seq<char>, Seq<char>)>;

/// The plain values of a list of fragments.
pub open spec fn fragment_texts(v: Seq<(String, String)>) -> Fragments {
    v.map_values(|e: (String, String)| (e.0@, e.1@))
}

/// The fragments that were registered while the pages were rendered.
#[derive(Debug)]
pub struct FragmentCollector {
    fragments: Vec<(String, String)>,
}

impl View for FragmentCollector {
    type V = Fragments;

    closed spec fn view(&self) -> Fragments {
        fragment_texts(self.fragments@)
    }
}

impl FragmentCollector {
    /// No id occurs twice.
    pub open spec fn wf(&self) -> bool {
        unique_keys(self@)
    }

    /// A collector without fragments.
    pub fn new() -> (collector: Self)
        ensures
            collector@ == Fragments::empty(),
            collector.wf(),
    {
        let collector = FragmentCollector { fragments: Vec::new() };
        assert(collector@ =~= Fragments::empty());
        collector
    }

    /// The number of fragments.
    pub fn len(&self) -> (n: usize)
        ensures
            n == self@.len(),
    {
        self.fragments.len()
    }

    /// Whether a fragment is registered under `id`.
    pub fn contains(&self, id: &str) -> (r: bool)
        ensures
            r == has_key(self@, id@),
    {
        let wanted = id.to_owned();
        let mut i: usize = 0;
        while i < self.fragments.len()
            invariant
                i <= self.fragments.len(),
                wanted@ == id@,
                forall|j: int| 0 <= j < i ==> (#[trigger] self@[j]).0 != id@,
            decreases self.fragments.len() - i,
        {
            if self.fragments[i].0 == wanted {
                assert(self@[i as int].0 == id@);
                return true;
            }
            i += 1;
        }
        false
    }

    /// Registers the markup `html` under `id`. Where the id is taken, the
    /// fragment is refused and the collector stays as it was.
    pub fn register(&mut self, id: String, html: String) -> (r: Result<(), FragmentError>)
        requires
            old(self).wf(),
        ensures
            final(self).wf(),
            has_key(old(self)@, id@) ==> r == Err::<(), FragmentError>(FragmentError::DuplicateId(id))
                && final(self)@ == old(self)@,
            !has_key(old(self)@, id@) ==> r is Ok && final(self)@ == old(self)@.push((id@, html@)),
    {
        if self.contains(id.as_str()) {
            return Err(FragmentError::DuplicateId(id));
        }
        proof {
            lemma_put(self@, id@, html@);
        }
        self.fragments.push((id, html));
        assert(self@ =~= old(self)@.push((id@, html@)));
        Ok(())
    }

    /// Hands out all the fragments, in the order in which they were
    /// registered, and leaves the collector empty.
    pub fn drain(&mut self) -> (all: Vec<(String, String)>)
        ensures
            fragment_texts(all@) == old(self)@,
            final(self)@ == Fragments::empty(),
            final(self).wf(),
    {
        let mut all: Vec<(String, String)> = Vec::new();
        std::mem::swap(&mut all, &mut self.fragments);
        assert(self@ =~= Fragments::empty());
        all
    }
}

/// The address under which the client fetches the fragment `id`.
pub open spec fn fragment_address(id: Seq<char>) -> Seq<char> {
    "/server_components/"@ + id + ".html"@
}

/// The address under which the client fetches the fragment `id`.
pub fn fragment_url(id: &str) -> (url: String)
    ensures
        url@ == fragment_address(id@),
{
    let mut url = String::new();
    url.append("/server_components/");
    url.append(id);
    url.append(".html");
    assert(url@ =~= fragment_address(id@));
    url
}

/// The script that sets the title of the document to `title`.
pub fn title_script(title: &str) -> (js: String)
    ensures
        js@ == "document.title = '"@ + title@ + "'"@,
{
    let mut js = String::new();
    js.append("document.title = '");
    js.append(title);
    js.append("'");
    assert(js@ =~= "document.title = '"@ + title@ + "'"@);
    js
}

} // verus!
