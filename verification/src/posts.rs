//! The index of blog posts, keyed by post id and kept in the dictionary order of the ids.

use vstd::prelude::*;
use vstd::string::StringExecFns;
use crate::assoc::{has_key, lemma_lookup_at, lookup, position};
use crate::content::{Parsed, PostFrontmatter};
use crate::sorted::{
    ascending, filled, lemma_ascending_unique, lemma_rank_split, lemma_sorted_put,
    lemma_sorted_put_ascending, sorted_put,
};
use crate::text::{
    chars_of, lemma_text_before_irreflexive, lemma_text_before_total,
    lemma_text_before_transitive, push_range, text_before, text_lt,
};

verus! {

/// A parsed blog post.
pub type Post<B> = Parsed<PostFrontmatter, B>;

/// The position of the last dot of `name`, or -1 where it has none.
pub open spec fn last_dot(name: Seq<char>) -> int
    decreases name.len(),
{
    if name.len() == 0 {
        -1
    } else if name.last() == '.' {
        name.len() - 1
    } else {
        last_dot(name.drop_last())
    }
}

/// The stem of a file name: the name up to its last dot. A name without a
/// dot, or with its only dot in front, is its own stem.
pub open spec fn file_stem(name: Seq<char>) -> Seq<char> {
    if last_dot(name) <= 0 {
        name
    } else {
        name.take(last_dot(name))
    }
}

/// The id of the post in the file `name`: the stem of the file name.
pub fn post_id(name: &str) -> (id: String)
    ensures
        id@ == file_stem(name@),
{
    let chars = chars_of(name);
    let mut end: usize = chars.len();
    assert(chars@.take(chars.len() as int) =~= chars@);
    while end > 0 && chars[end - 1] != '.'
        invariant
            end <= chars.len(),
            last_dot(chars@) == last_dot(chars@.take(end as int)),
        decreases end,
    {
        assert(chars@.take(end as int).drop_last() =~= chars@.take(end - 1));
        end -= 1;
    }
    // `end` is one past the last dot, or 0 where there is none.
    let stop: usize = if end <= 1 {
        chars.len()
    } else {
        end - 1
    };
    let mut id = String::new();
    push_range(&mut id, &chars, 0, stop);
    assert(chars@.subrange(0, stop as int) =~= file_stem(name@));
    id
}

/// The file of the post with the id `id`, relative to the documentation
/// directory. The extension is put behind the whole id, whatever dots the
/// id holds.
pub fn post_file(id: &str) -> (file: String)
    ensures
        file@ == "posts/"@ + id@ + ".md"@,
{
    let mut file = String::new();
    file.append("posts/");
    file.append(id);
    file.append(".md");
    file
}

/// The blog posts by id. An id occurs once, and the posts stand in the
/// dictionary order of their ids, whatever the order in which they came.
pub struct PostIndex<B> {
    entries: Vec<(String, Post<B>)>,
}

impl<B> View for PostIndex<B> {
    type V = Seq<(Seq<char>, Post<B>)>;

    closed spec fn view(&self) -> Seq<(Seq<char>, Post<B>)> {
        self.entries@.map_values(|e: (String, Post<B>)| (e.0@, e.1))
    }
}

impl<B> PostIndex<B> {
    /// The ids stand in strictly ascending order.
    pub open spec fn wf(&self) -> bool {
        ascending(self@)
    }

    /// An index without posts.
    pub fn new() -> (index: Self)
        ensures
            index@ == Seq::<(Seq<char>, Post<B>)>::empty(),
            index.wf(),
    {
        let index = PostIndex { entries: Vec::new() };
        assert(index@ =~= Seq::<(Seq<char>, Post<B>)>::empty());
        index
    }

    /// The number of posts.
    pub fn len(&self) -> (n: usize)
        ensures
            n == self@.len(),
    {
        self.entries.len()
    }

    /// The id of the post at position `i`.
    pub fn id_at(&self, i: usize) -> (id: &str)
        requires
            i < self@.len(),
        ensures
            id@ == self@[i as int].0,
    {
        self.entries[i].0.as_str()
    }

    /// The post at position `i`.
    pub fn post_at(&self, i: usize) -> (post: &Post<B>)
        requires
            i < self@.len(),
        ensures
            *post == self@[i as int].1,
    {
        &self.entries[i].1
    }

    /// The position of the post with the id `id`.
    pub fn find(&self, id: &str) -> (r: Option<usize>)
        ensures
            r is Some == has_key(self@, id@),
            r is Some ==> r.unwrap() < self@.len() && self@[r.unwrap() as int].0 == id@,
            r is Some ==> forall|j: int| 0 <= j < r.unwrap() ==> (#[trigger] self@[j]).0 != id@,
            r is Some && self.wf() ==> r.unwrap() == position(self@, id@),
    {
        let wanted = id.to_owned();
        let mut i: usize = 0;
        while i < self.entries.len()
            invariant
                i <= self.entries.len(),
                wanted@ == id@,
                forall|j: int| 0 <= j < i ==> (#[trigger] self@[j]).0 != id@,
            decreases self.entries.len() - i,
        {
            if self.entries[i].0 == wanted {
                assert(self@[i as int].0 == id@);
                proof {
                    if self.wf() {
                        lemma_ascending_unique(self@);
                        lemma_lookup_at(self@, i as int);
                    }
                }
                return Some(i);
            }
            i += 1;
        }
        None
    }

    /// The post with the id `id`.
    pub fn get(&self, id: &str) -> (r: Option<&Post<B>>)
        requires
            self.wf(),
        ensures
            r is Some == has_key(self@, id@),
            r is Some ==> Some(*r.unwrap()) == lookup(self@, id@),
    {
        match self.find(id) {
            Some(i) => Some(&self.entries[i].1),
            None => None,
        }
    }

    /// Stores `post` under `id`: in the place of the post that the id held
    /// before, else where the dictionary order of the ids puts it.
    pub fn insert(&mut self, id: String, post: Post<B>)
        requires
            old(self).wf(),
        ensures
            final(self)@ == sorted_put(old(self)@, id@, post),
            final(self).wf(),
            lookup(final(self)@, id@) == Some(post),
            forall|other: Seq<char>|
                other != id@ ==> lookup(final(self)@, other) == lookup(old(self)@, other),
    {
        let ghost before = self@;
        let ghost k = id@;
        let n = self.entries.len();
        let mut i: usize = 0;
        while i < n && text_lt(self.entries[i].0.as_str(), id.as_str())
            invariant
                i <= n,
                n == self.entries.len(),
                self@ == before,
                k == id@,
                forall|j: int| 0 <= j < i ==> text_before((#[trigger] before[j]).0, k),
            decreases n - i,
        {
            i += 1;
        }
        proof {
            lemma_ascending_unique(before);
            // The ids from position i on are not before `k`: the one at i
            // is not, and those after it come after it.
            assert forall|j: int| i <= j < before.len() implies !text_before(
                (#[trigger] before[j]).0,
                k,
            ) by {
                if j > i {
                    lemma_text_before_transitive(before[i as int].0, before[j].0, k);
                }
            }
            lemma_rank_split(before, k, i as int);
            lemma_sorted_put_ascending(before, k, post);
            lemma_sorted_put(before, k, post);
        }
        if i < n && self.entries[i].0 == id {
            proof {
                lemma_lookup_at(before, i as int);
            }
            self.entries[i] = (id, post);
            assert(self@ =~= sorted_put(before, k, post));
        } else {
            proof {
                assert(!has_key(before, k)) by {
                    if has_key(before, k) {
                        let p = position(before, k);
                        lemma_text_before_irreflexive(k);
                        lemma_text_before_total(before[i as int].0, k);
                        if p > i {
                            lemma_text_before_transitive(k, before[i as int].0, before[p].0);
                        }
                    }
                }
            }
            self.entries.insert(i, (id, post));
            assert(self@ =~= sorted_put(before, k, post));
        }
    }
}

impl<B> PostIndex<B> {
    /// The index of the posts `entries`, each with the id it is stored under.
    pub fn from_entries(entries: Vec<(String, Post<B>)>) -> (index: Self)
        ensures
            index.wf(),
            index@ == filled(entries@.map_values(|e: (String, Post<B>)| (e.0@, e.1))),
    {
        let ghost wanted = entries@.map_values(|e: (String, Post<B>)| (e.0@, e.1));
        let mut index = PostIndex::new();
        assert(wanted.take(0) =~= Seq::empty());
        for e in iter: entries.into_iter()
            invariant
                index.wf(),
                iter.seq() == entries@,
                wanted == entries@.map_values(|e: (String, Post<B>)| (e.0@, e.1)),
                index@ == filled(wanted.take(iter.index() as int)),
        {
            let ghost done = iter.index() as int;
            assert(wanted[done] == (e.0@, e.1));
            assert(wanted.take(done + 1).drop_last() =~= wanted.take(done));
            index.insert(e.0, e.1);
        }
        assert(wanted.take(wanted.len() as int) =~= wanted);
        index
    }
}

} // verus!
