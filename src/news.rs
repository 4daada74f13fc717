//! Feed items and feeds, and the merge of two views of one item.

use crate::text::{opt_str, strs};
use crate::time::{later_of, TimeView, Timestamp};
use crate::utils::{
    dedup, lemma_dedup, lemma_dedup_back, lemma_dedup_front, lemma_dedup_seen, union_of,
    union_strings,
};
use vstd::prelude::*;

verus! {

/// Why two items could not be merged.
#[derive(Clone, Copy, Debug, PartialEq, Eq, Structural)]
pub enum FeedError {
    /// The items have different identifiers.
    IdentityMismatch,
}

/// The author of a feed or an item.
#[derive(Clone, Debug)]
pub struct NewsAuthor {
    pub name: String,
    pub email: String,
    pub uri: String,
}

pub struct AuthorView {
    pub name: Seq<char>,
    pub email: Seq<char>,
    pub uri: Seq<char>,
}

impl NewsAuthor {
    pub open spec fn view(&self) -> AuthorView {
        AuthorView { name: self.name@, email: self.email@, uri: self.uri@ }
    }

    pub fn new(name: String, email: String, uri: String) -> (r: NewsAuthor)
        ensures
            r.view() == (AuthorView { name: name@, email: email@, uri: uri@ }),
    {
        NewsAuthor { name, email, uri }
    }

    /// A copy of `self`.
    pub fn duplicate(&self) -> (r: NewsAuthor)
        ensures
            r.view() == self.view(),
    {
        NewsAuthor { name: self.name.clone(), email: self.email.clone(), uri: self.uri.clone() }
    }
}

pub open spec fn authors_view(v: Seq<NewsAuthor>) -> Seq<AuthorView> {
    v.map_values(|a: NewsAuthor| a.view())
}

/// A copy of a list of authors.
pub fn clone_authors(v: &Vec<NewsAuthor>) -> (r: Vec<NewsAuthor>)
    ensures
        authors_view(r@) == authors_view(v@),
{
    let mut r: Vec<NewsAuthor> = Vec::new();
    let mut i: usize = 0;
    while i < v.len()
        invariant
            i <= v.len(),
            authors_view(r@) == authors_view(v@.take(i as int)),
        decreases v.len() - i,
    {
        let a = v[i].duplicate();
        let ghost before = r@;
        r.push(a);
        assert(authors_view(r@) =~= authors_view(before).push(a.view()));
        assert(authors_view(v@.take(i + 1)) =~= authors_view(v@.take(i as int)).push(
            v@[i as int].view(),
        ));
        i += 1;
    }
    assert(v@.take(v.len() as int) == v@);
    r
}

/// One entry of a feed.
#[derive(Clone, Debug)]
pub struct NewsItem {
    pub id: String,
    pub link: String,
    pub title: String,
    pub summary: Option<String>,
    pub published: Timestamp,
    pub updated: Timestamp,
    pub authors: Vec<NewsAuthor>,
    pub categories: Vec<String>,
}

pub struct ItemView {
    pub id: Seq<char>,
    pub link: Seq<char>,
    pub title: Seq<char>,
    pub summary: Option<Seq<char>>,
    pub published: TimeView,
    pub updated: TimeView,
    pub authors: Seq<AuthorView>,
    pub categories: Seq<Seq<char>>,
}

/// The line that separates two merged summaries.
pub open spec fn summary_separator() -> Seq<char> {
    "\n-----\n"@
}

/// The summary of a merge: both, in order and separated, or the one that is there.
pub open spec fn merged_summary(a: Option<Seq<char>>, b: Option<Seq<char>>) -> Option<
    Seq<char>,
> {
    match (a, b) {
        (Some(x), Some(y)) => Some(x + summary_separator() + y),
        (Some(x), None) => Some(x),
        (None, y) => y,
    }
}

/// Two views of one item merged: identity, link, title, authors and publication from `a`;
/// the later update; both summaries; the union of the categories.
pub open spec fn merged(a: ItemView, b: ItemView) -> ItemView {
    ItemView {
        id: a.id,
        link: a.link,
        title: a.title,
        summary: merged_summary(a.summary, b.summary),
        published: a.published,
        updated: later_of(a.updated, b.updated),
        authors: a.authors,
        categories: union_of(a.categories, b.categories),
    }
}

impl NewsItem {
    pub open spec fn view(&self) -> ItemView {
        ItemView {
            id: self.id@,
            link: self.link@,
            title: self.title@,
            summary: opt_str(self.summary),
            published: self.published.view(),
            updated: self.updated.view(),
            authors: authors_view(self.authors@),
            categories: strs(self.categories@),
        }
    }

    /// Merges two views of the same item, observed at different times or from different
    /// sources. The merge is not symmetric: all but the update time, the summary and the
    /// categories come from `self`.
    pub fn merge(self, other: NewsItem) -> (r: Result<NewsItem, FeedError>)
        ensures
            self.view().id == other.view().id ==> (r matches Ok(m) && m.view() == merged(
                self.view(),
                other.view(),
            )),
            self.view().id != other.view().id ==> r == Err::<NewsItem, FeedError>(
                FeedError::IdentityMismatch,
            ),
    {
        if self.id != other.id {
            return Err(FeedError::IdentityMismatch);
        }
        let summary = match (self.summary, other.summary) {
            (Some(x), Some(y)) => {
                let mut s = x;
                s.append("\n-----\n");
                s.append(y.as_str());
                Some(s)
            },
            (Some(x), None) => Some(x),
            (None, y) => y,
        };
        let updated = self.updated.later(&other.updated);
        let categories = union_strings(self.categories, other.categories);
        Ok(
            NewsItem {
                id: self.id,
                link: self.link,
                title: self.title,
                summary,
                published: self.published,
                updated,
                authors: self.authors,
                categories,
            },
        )
    }
}

/// Merging an item with itself keeps its identity, link, title, authors, publication and
/// update time, and its categories, each once.
pub proof fn lemma_merge_self(a: ItemView)
    ensures
        merged(a, a).id == a.id,
        merged(a, a).link == a.link,
        merged(a, a).title == a.title,
        merged(a, a).authors == a.authors,
        merged(a, a).published == a.published,
        merged(a, a).updated == a.updated,
        merged(a, a).categories == dedup(a.categories),
        forall|c: Seq<char>| merged(a, a).categories.contains(c) <==> a.categories.contains(c),
{
    let c = a.categories;
    assert forall|i: int| 0 <= i < c.len() implies c.contains(#[trigger] c[i]) by {}
    lemma_dedup_seen(c, c);
    lemma_dedup(c);
}

/// Merging three items that share an identifier gives the same categories and the same
/// update time whichever pair is merged first.
pub proof fn lemma_merge_associative(a: ItemView, b: ItemView, c: ItemView)
    requires
        a.id == b.id,
        b.id == c.id,
    ensures
        merged(merged(a, b), c).categories == merged(a, merged(b, c)).categories,
        merged(merged(a, b), c).updated == merged(a, merged(b, c)).updated,
{
    let (x, y, z) = (a.categories, b.categories, c.categories);
    lemma_dedup_front(x + y, z);
    lemma_dedup_back(x, y + z);
    assert(x + y + z == x + (y + z));
}

/// A feed: its own fields and its entries, in order.
pub struct NewsFeed {
    pub id: String,
    pub updated: Timestamp,
    pub link: String,
    pub title: String,
    pub subtitle: String,
    pub items: Vec<NewsItem>,
    pub authors: Vec<NewsAuthor>,
    pub categories: Vec<String>,
    pub generator: String,
}

} // verus!
