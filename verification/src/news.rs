//! The news list of the home page: the posts, newest first.

use vstd::prelude::*;
use vstd::string::StringExecFns;
use crate::date::{lemma_date_order, Date};
use crate::posts::{Post, PostIndex};

verus! {

/// The date of the post at position `i` of the index.
pub open spec fn date_at<B>(posts: Seq<(Seq<char>, Post<B>)>, i: int) -> Date {
    posts[i].1.front_matter.date
}

/// Whether the post at position `a` stands before the one at position `b`
/// in the news: it has the later date, or the same date and the later
/// position in the index.
pub open spec fn newer<B>(posts: Seq<(Seq<char>, Post<B>)>, a: int, b: int) -> bool {
    date_at(posts, b).before(date_at(posts, a)) || (date_at(posts, a) == date_at(posts, b) && a
        > b)
}

/// Whether `order` lists the positions of the index, each once, newest first.
pub open spec fn is_news_order<B>(posts: Seq<(Seq<char>, Post<B>)>, order: Seq<int>) -> bool {
    &&& order.len() == posts.len()
    &&& forall|k: int| 0 <= k < posts.len() ==> order.contains(k)
    &&& forall|a: int| 0 <= a < order.len() ==> 0 <= #[trigger] order[a] < posts.len()
    &&& forall|a: int, b: int|
        0 <= a < b < order.len() ==> newer(posts, #[trigger] order[a], #[trigger] order[b])
}

/// The positions of a list as integers.
pub open spec fn positions(order: Seq<usize>) -> Seq<int> {
    order.map_values(|k: usize| k as int)
}

/// `newer` is a strict total order of the positions.
pub proof fn lemma_newer_order<B>(posts: Seq<(Seq<char>, Post<B>)>, a: int, b: int, c: int)
    ensures
        !newer(posts, a, a),
        a != b ==> (newer(posts, a, b) <==> !newer(posts, b, a)),
        newer(posts, a, b) && newer(posts, b, c) ==> newer(posts, a, c),
{
    lemma_date_order(date_at(posts, a), date_at(posts, b), date_at(posts, c));
    lemma_date_order(date_at(posts, b), date_at(posts, a), date_at(posts, c));
    lemma_date_order(date_at(posts, c), date_at(posts, b), date_at(posts, a));
}

/// There is one news order: two lists that both are one are the same list.
pub proof fn lemma_news_order_unique<B>(
    posts: Seq<(Seq<char>, Post<B>)>,
    first: Seq<int>,
    second: Seq<int>,
)
    requires
        is_news_order(posts, first),
        is_news_order(posts, second),
    ensures
        first == second,
{
    lemma_agree_below(posts, first, second, first.len() as int);
    assert(first =~= second);
}

/// The place of `k` in a news order.
spec fn place(order: Seq<int>, k: int) -> int {
    choose|a: int| 0 <= a < order.len() && order[a] == k
}

/// Two news orders agree at every place below `i`.
proof fn lemma_agree_below<B>(
    posts: Seq<(Seq<char>, Post<B>)>,
    first: Seq<int>,
    second: Seq<int>,
    i: int,
)
    requires
        is_news_order(posts, first),
        is_news_order(posts, second),
        0 <= i <= first.len(),
    ensures
        forall|a: int| 0 <= a < i ==> first[a] == second[a],
    decreases i,
{
    if i > 0 {
        lemma_agree_below(posts, first, second, i - 1);
        let m = i - 1;
        let x = first[m];
        let y = second[m];
        if x != y {
            // Each of the two stands in the other list, and there it stands
            // after place m: the places below m hold what they hold here.
            assert(second.contains(x));
            let px = place(second, x);
            assert(first.contains(y));
            let py = place(first, y);
            if px < m {
                assert(first[px] == second[px]);
                lemma_newer_order(posts, x, x, x);
                assert(newer(posts, first[px], first[m]));
            }
            if py < m {
                assert(first[py] == second[py]);
                lemma_newer_order(posts, y, y, y);
                assert(newer(posts, second[py], second[m]));
            }
            assert(newer(posts, second[m], second[px]));
            assert(newer(posts, first[m], first[py]));
            lemma_newer_order(posts, x, y, x);
        }
    }
}

impl<B> PostIndex<B> {
    /// Whether the post at position `a` stands before the one at position `b` in the news.
    pub fn is_newer(&self, a: usize, b: usize) -> (r: bool)
        requires
            a < self@.len(),
            b < self@.len(),
        ensures
            r == newer(self@, a as int, b as int),
    {
        let da = self.post_at(a).front_matter.date;
        let db = self.post_at(b).front_matter.date;
        db.is_before(&da) || (da == db && a > b)
    }

    /// The positions of the posts in the order of the news: newest first,
    /// and of two posts of one day the one with the later id first.
    pub fn news_order(&self) -> (order: Vec<usize>)
        ensures
            is_news_order(self@, positions(order@)),
    {
        let n = self.len();
        let mut order: Vec<usize> = Vec::new();
        let mut i: usize = 0;
        while i < n
            invariant
                i <= n,
                n == self@.len(),
                order@.len() == i,
                forall|a: int| 0 <= a < i ==> #[trigger] order@[a] < i,
                forall|k: int| 0 <= k < i ==> positions(order@).contains(k),
                forall|a: int| 0 <= a < i ==> 0 <= #[trigger] positions(order@)[a] < i,
                forall|a: int, b: int|
                    0 <= a < b < i ==> newer(
                        self@,
                        #[trigger] positions(order@)[a],
                        #[trigger] positions(order@)[b],
                    ),
            decreases n - i,
        {
            let ghost before = positions(order@);
            let mut p: usize = 0;
            while p < i && self.is_newer(order[p], i)
                invariant
                    p <= i,
                    i < n,
                    n == self@.len(),
                    order@.len() == i,
                    forall|a: int| 0 <= a < i ==> #[trigger] order@[a] < i,
                    before == positions(order@),
                    forall|a: int| 0 <= a < i ==> 0 <= #[trigger] before[a] < i,
                    forall|a: int| 0 <= a < p ==> newer(self@, #[trigger] before[a], i as int),
                decreases i - p,
            {
                assert(before[p as int] == order@[p as int]);
                p += 1;
            }
            proof {
                if p < i {
                    assert(before[p as int] == order@[p as int]);
                    assert(!newer(self@, before[p as int], i as int));
                }
            }
            order.insert(p, i);
            proof {
                let after = positions(order@);
                assert(after =~= before.insert(p as int, i as int));
                assert forall|k: int| 0 <= k < i + 1 implies after.contains(k) by {
                    if k == i {
                        assert(after[p as int] == k);
                    } else {
                        assert(before.contains(k));
                        let a = choose|a: int| 0 <= a < before.len() && before[a] == k;
                        if a < p {
                            assert(after[a] == k);
                        } else {
                            assert(after[a + 1] == k);
                        }
                    }
                }
                assert forall|a: int| 0 <= a < i + 1 implies #[trigger] order@[a] < i + 1 by {
                    assert(order@[a] == after[a]);
                    if a < p {
                        assert(after[a] == before[a]);
                    } else if a > p {
                        assert(after[a] == before[a - 1]);
                    }
                }
                assert forall|a: int| 0 <= a < i + 1 implies 0 <= #[trigger] after[a] < i + 1 by {
                    if a < p {
                        assert(after[a] == before[a]);
                    } else if a > p {
                        assert(after[a] == before[a - 1]);
                    }
                }
                assert forall|a: int, b: int| 0 <= a < b < i + 1 implies newer(
                    self@,
                    #[trigger] after[a],
                    #[trigger] after[b],
                ) by {
                    if b < p {
                        assert(after[a] == before[a] && after[b] == before[b]);
                    } else if b == p {
                        assert(after[a] == before[a]);
                    } else if a < p {
                        assert(after[a] == before[a] && after[b] == before[b - 1]);
                    } else if a == p {
                        assert(after[b] == before[b - 1]);
                        let first = before[p as int];
                        assert(first != i);
                        lemma_newer_order(self@, i as int, first, before[b - 1]);
                        if b - 1 > p {
                            assert(newer(self@, first, before[b - 1]));
                        }
                    } else {
                        assert(after[a] == before[a - 1] && after[b] == before[b - 1]);
                    }
                }
            }
            i += 1;
        }
        order
    }
}

/// An entry of the news list.
#[derive(Debug, Clone, PartialEq, Eq)]
pub struct NewsItem {
    pub href: String,
    pub date: String,
    pub title: String,
    pub description: String,
}

impl<B> PostIndex<B> {
    /// The news entry of the post at position `i`: the address of the post,
    /// its date as a reader sees it, its title and its description.
    pub fn news_item(&self, i: usize) -> (item: NewsItem)
        requires
            i < self@.len(),
        ensures
            item.href@ == "/post/"@ + self@[i as int].0,
            item.date@ == date_at(self@, i as int).display(),
            item.title@ == self@[i as int].1.front_matter.title@,
            item.description@ == self@[i as int].1.front_matter.description@,
    {
        let post = self.post_at(i);
        let mut href = String::new();
        href.append("/post/");
        href.append(self.id_at(i));
        NewsItem {
            href,
            date: post.front_matter.date.to_string(),
            title: post.front_matter.title.clone(),
            description: post.front_matter.description.clone(),
        }
    }
}

} // verus!
