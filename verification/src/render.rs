//! What the build writes: for each rendered page, each fragment and the
//! sitemap, the file and its contents.

use vstd::prelude::*;
use vstd::string::StringExecFns;
use crate::server_component::{fragment_address, fragment_texts, FragmentCollector, Fragments};
use crate::text::{chars_of, push_range};

verus! {

/// A file to write: its path and what it holds.
#[derive(Debug, Clone, PartialEq, Eq)]
pub struct OutputFile {
    pub path: String,
    pub contents: String,
}

/// `path` without the slashes it starts with.
pub open spec fn trim_slashes(path: Seq<char>) -> Seq<char>
    decreases path.len(),
{
    if path.len() > 0 && path[0] == '/' {
        trim_slashes(path.drop_first())
    } else {
        path
    }
}

/// The path `rel` below the directory `root`: a slash stands between them
/// unless `root` is empty or ends with one.
pub open spec fn join(root: Seq<char>, rel: Seq<char>) -> Seq<char> {
    if root.len() == 0 {
        rel
    } else if root.last() == '/' {
        root + rel
    } else {
        root + "/"@ + rel
    }
}

/// A rendered page as a complete document.
pub open spec fn document(html: Seq<char>) -> Seq<char> {
    "<!DOCTYPE html>"@ + html
}

/// The file of the page that is rendered to `path`.
pub open spec fn page_path(root: Seq<char>, path: Seq<char>) -> Seq<char> {
    join(root, trim_slashes(path))
}

/// The file of the fragment `id`.
pub open spec fn fragment_path(root: Seq<char>, id: Seq<char>) -> Seq<char> {
    join(root, "server_components/"@ + id + ".html"@)
}

/// The file of the sitemap.
pub open spec fn sitemap_path(root: Seq<char>) -> Seq<char> {
    join(root, "sitemap.xml"@)
}

proof fn lemma_trim_slashes_skip(path: Seq<char>, i: int)
    requires
        0 <= i <= path.len(),
        forall|j: int| 0 <= j < i ==> path[j] == '/',
    ensures
        trim_slashes(path) == trim_slashes(path.skip(i)),
    decreases i,
{
    if i > 0 {
        let rest = path.drop_first();
        assert forall|j: int| 0 <= j < i - 1 implies rest[j] == '/' by {
            assert(rest[j] == path[j + 1]);
        }
        lemma_trim_slashes_skip(rest, i - 1);
        assert(rest.skip(i - 1) =~= path.skip(i));
    } else {
        assert(path.skip(0) =~= path);
    }
}

/// Starts a path below `root`: `root`, and a slash unless `root` is empty or ends with one.
fn start_below(root: &str) -> (path: String)
    ensures
        forall|rel: Seq<char>| path@ + rel == join(root@, rel),
{
    let chars = chars_of(root);
    let mut path = String::new();
    push_range(&mut path, &chars, 0, chars.len());
    assert(chars@.subrange(0, chars.len() as int) =~= chars@);
    if chars.len() > 0 && chars[chars.len() - 1] != '/' {
        path.append("/");
    }
    assert forall|rel: Seq<char>| path@ + rel == join(root@, rel) by {
        assert(path@ + rel =~= join(root@, rel));
    }
    path
}

/// The file of the page that is rendered to `path`, with `html` as a complete document.
pub fn page_file(root: &str, path: &str, html: &str) -> (file: OutputFile)
    ensures
        file.path@ == page_path(root@, path@),
        file.contents@ == document(html@),
{
    let chars = chars_of(path);
    let mut start: usize = 0;
    while start < chars.len() && chars[start] == '/'
        invariant
            start <= chars.len(),
            forall|j: int| 0 <= j < start ==> chars@[j] == '/',
        decreases chars.len() - start,
    {
        start += 1;
    }
    proof {
        lemma_trim_slashes_skip(chars@, start as int);
        assert(chars@.subrange(start as int, chars.len() as int) =~= chars@.skip(start as int));
    }
    let mut out = start_below(root);
    push_range(&mut out, &chars, start, chars.len());
    let mut contents = String::new();
    contents.append("<!DOCTYPE html>");
    contents.append(html);
    assert(contents@ =~= document(html@));
    OutputFile { path: out, contents }
}

/// The file of the fragment `id`, which holds the markup `html` as it is.
pub fn fragment_file(root: &str, id: &str, html: &str) -> (file: OutputFile)
    ensures
        file.path@ == fragment_path(root@, id@),
        file.contents@ == html@,
{
    let mut path = start_below(root);
    let ghost begin = path@;
    path.append("server_components/");
    path.append(id);
    path.append(".html");
    assert(path@ =~= begin + ("server_components/"@ + id@ + ".html"@));
    OutputFile { path, contents: html.to_owned() }
}

/// The file of the sitemap `xml`.
pub fn sitemap_file(root: &str, xml: &str) -> (file: OutputFile)
    ensures
        file.path@ == sitemap_path(root@),
        file.contents@ == xml@,
{
    let mut path = start_below(root);
    path.append("sitemap.xml");
    OutputFile { path, contents: xml.to_owned() }
}

/// The files of the fragments `all`, in their order.
pub open spec fn fragment_outputs(root: Seq<char>, all: Fragments) -> Seq<(Seq<char>, Seq<char>)> {
    all.map_values(|e: (Seq<char>, Seq<char>)| (fragment_path(root, e.0), e.1))
}

/// The path and the contents of each file of a list.
pub open spec fn file_texts(files: Seq<OutputFile>) -> Seq<(Seq<char>, Seq<char>)> {
    files.map_values(|f: OutputFile| (f.path@, f.contents@))
}

/// Drains the collector and gives the file of each fragment, in the order
/// in which the fragments were registered.
pub fn fragment_files(root: &str, collector: &mut FragmentCollector) -> (files: Vec<OutputFile>)
    ensures
        file_texts(files@) == fragment_outputs(root@, old(collector)@),
        final(collector)@ == Fragments::empty(),
        final(collector).wf(),
{
    let all = collector.drain();
    let ghost wanted = fragment_texts(all@);
    let mut files: Vec<OutputFile> = Vec::new();
    let mut i: usize = 0;
    while i < all.len()
        invariant
            i <= all.len(),
            wanted == fragment_texts(all@),
            files@.len() == i,
            file_texts(files@) == fragment_outputs(root@, wanted.take(i as int)),
        decreases all.len() - i,
    {
        let file = fragment_file(root, all[i].0.as_str(), all[i].1.as_str());
        let ghost before = files@;
        assert(wanted[i as int] == (all@[i as int].0@, all@[i as int].1@));
        files.push(file);
        assert(file_texts(files@) =~= fragment_outputs(root@, wanted.take(i + 1))) by {
            let got = file_texts(files@);
            let want = fragment_outputs(root@, wanted.take(i + 1));
            assert forall|j: int| 0 <= j < got.len() implies got[j] == want[j] by {
                if j < i {
                    assert(files@[j] == before[j]);
                    assert(file_texts(before)[j] == fragment_outputs(
                        root@,
                        wanted.take(i as int),
                    )[j]);
                    assert(wanted.take(i + 1)[j] == wanted.take(i as int)[j]);
                }
            }
        }
        i += 1;
    }
    assert(wanted.take(all.len() as int) =~= wanted);
    files
}

/// The file of a fragment lies where the client fetches it: below the
/// output root, at the fragment's address.
pub proof fn lemma_fragment_path_is_address(root: Seq<char>, id: Seq<char>)
    ensures
        fragment_path(root, id) == page_path(root, fragment_address(id)),
{
    reveal_strlit("/server_components/");
    reveal_strlit("server_components/");
    let address = fragment_address(id);
    let rel = "server_components/"@ + id + ".html"@;
    assert(address[0] == '/');
    assert(address.drop_first() =~= rel);
    assert(rel[0] == 's');
    assert(trim_slashes(rel) == rel);
    assert(trim_slashes(address) == rel);
}

} // verus!
