//! Feed assembly: which bookmarks a feed of each kind takes, in what order, and how many.

use crate::news::{authors_view, AuthorView, ItemView, NewsAuthor, NewsFeed};
use crate::pile::{item_of_bookmark, project, recommended, unread, Bookmark, BookmarkView};
use crate::text::strs;
use crate::time::{TimeView, Timestamp};
use crate::xml::{entries_xml, feed_head_xml, feed_xml, items_view, FeedView};
use rand::rngs::StdRng;
use rand::seq::SliceRandom;
use vstd::prelude::*;

verus! {

#[verifier::external_type_specification]
#[verifier::external_body]
pub struct ExStdRng(StdRng);

/// Relies on rand's `SliceRandom::shuffle`, which reorders a slice by swapping its elements:
/// the same elements come back, in an order that the generator decides.
#[verifier::external_body]
fn shuffle_indices(v: &mut Vec<usize>, rng: &mut StdRng)
    ensures
        final(v)@.to_multiset() == old(v)@.to_multiset(),
        final(v)@.len() == old(v)@.len(),
{
    v.shuffle(rng);
}

/// The feeds that can be made from bookmarks.
#[derive(Clone, Copy, Debug, PartialEq, Eq, Structural)]
pub enum FeedKind {
    /// Unread bookmarks that are not projects: two at random.
    PileBookmarks,
    /// Unread projects: one at random.
    PileBookmarksProjects,
    /// Recommended bookmarks: all, in the order given.
    RecommendedLinks,
}

/// Whether a feed of `kind` takes the bookmark `b`.
pub open spec fn selects(kind: FeedKind, b: BookmarkView) -> bool {
    match kind {
        FeedKind::PileBookmarks => unread(b) && !project(b),
        FeedKind::PileBookmarksProjects => unread(b) && project(b),
        FeedKind::RecommendedLinks => recommended(b),
    }
}

/// How many items a feed of `kind` holds at most, if it is bounded.
pub open spec fn limit_of(kind: FeedKind) -> Option<usize> {
    match kind {
        FeedKind::PileBookmarks => Some(2),
        FeedKind::PileBookmarksProjects => Some(1),
        FeedKind::RecommendedLinks => None,
    }
}

/// Whether a feed of `kind` takes its bookmarks in random order.
pub open spec fn shuffles(kind: FeedKind) -> bool {
    kind != FeedKind::RecommendedLinks
}

pub open spec fn kind_id(kind: FeedKind) -> Seq<char> {
    match kind {
        FeedKind::PileBookmarks => "pile-bookmarks"@,
        FeedKind::PileBookmarksProjects => "pile-bookmarks-projects"@,
        FeedKind::RecommendedLinks => "recommended-links"@,
    }
}

pub open spec fn kind_title(kind: FeedKind) -> Seq<char> {
    match kind {
        FeedKind::PileBookmarks => "General Bookmarks"@,
        FeedKind::PileBookmarksProjects => "Unsorted Projects"@,
        FeedKind::RecommendedLinks => "lepisma's recommended links"@,
    }
}

pub open spec fn kind_link(kind: FeedKind) -> Seq<char> {
    match kind {
        FeedKind::PileBookmarks => "/pile-bookmarks"@,
        FeedKind::PileBookmarksProjects => "/pile-bookmarks-projects"@,
        FeedKind::RecommendedLinks => "/recommended-links"@,
    }
}

pub open spec fn kind_subtitle(kind: FeedKind) -> Seq<char> {
    match kind {
        FeedKind::PileBookmarks => "Unread picks from saved bookmarks."@,
        FeedKind::PileBookmarksProjects => "Unsorted projects from saved bookmarks."@,
        FeedKind::RecommendedLinks => "Recommendations from lepisma's list of read articles and bookmarks"@,
    }
}

pub open spec fn generator_name() -> Seq<char> {
    "journalist"@
}

pub open spec fn bookmarks_view(v: Seq<Bookmark>) -> Seq<BookmarkView> {
    v.map_values(|b: Bookmark| b.view())
}

/// The indices of the first `n` bookmarks that a feed of `kind` takes, in order.
pub open spec fn matching(kind: FeedKind, bms: Seq<BookmarkView>, n: int) -> Seq<usize>
    decreases n,
{
    if n <= 0 {
        Seq::empty()
    } else if selects(kind, bms[n - 1]) {
        matching(kind, bms, n - 1).push((n - 1) as usize)
    } else {
        matching(kind, bms, n - 1)
    }
}

/// The items of the bookmarks at `order`, as many as the feed's bound allows.
pub open spec fn picked(kind: FeedKind, bms: Seq<BookmarkView>, order: Seq<usize>) -> Seq<
    ItemView,
> {
    let all = order.map_values(|i: usize| item_of_bookmark(bms[i as int]));
    match limit_of(kind) {
        Some(n) => if all.len() > n {
            all.take(n as int)
        } else {
            all
        },
        None => all,
    }
}

/// The feed of `kind` with the bookmarks at `order`, by `author`, updated at `updated`.
pub open spec fn feed_of(
    kind: FeedKind,
    bms: Seq<BookmarkView>,
    order: Seq<usize>,
    author: AuthorView,
    updated: TimeView,
) -> FeedView {
    FeedView {
        id: kind_id(kind),
        updated,
        link: kind_link(kind),
        title: kind_title(kind),
        subtitle: kind_subtitle(kind),
        items: picked(kind, bms, order),
        authors: seq![author],
        categories: Seq::empty(),
        generator: generator_name(),
    }
}

proof fn lemma_matching_bounds(kind: FeedKind, bms: Seq<BookmarkView>, n: int)
    requires
        0 <= n,
    ensures
        forall|j: int| 0 <= j < matching(kind, bms, n).len() ==> #[trigger] matching(kind, bms, n)[j] < n,
    decreases n,
{
    if n > 0 {
        lemma_matching_bounds(kind, bms, n - 1);
        let m = matching(kind, bms, n - 1);
        if selects(kind, bms[n - 1]) {
            assert forall|j: int| 0 <= j < m.push((n - 1) as usize).len() implies #[trigger] m.push(
                (n - 1) as usize,
            )[j] < n by {
                if j < m.len() {
                    assert(m.push((n - 1) as usize)[j] == m[j]);
                }
            }
        }
    }
}

impl FeedKind {
    pub fn id(&self) -> (r: &'static str)
        ensures
            r@ == kind_id(*self),
    {
        match self {
            FeedKind::PileBookmarks => "pile-bookmarks",
            FeedKind::PileBookmarksProjects => "pile-bookmarks-projects",
            FeedKind::RecommendedLinks => "recommended-links",
        }
    }

    pub fn title(&self) -> (r: &'static str)
        ensures
            r@ == kind_title(*self),
    {
        match self {
            FeedKind::PileBookmarks => "General Bookmarks",
            FeedKind::PileBookmarksProjects => "Unsorted Projects",
            FeedKind::RecommendedLinks => "lepisma's recommended links",
        }
    }

    pub fn link(&self) -> (r: &'static str)
        ensures
            r@ == kind_link(*self),
    {
        match self {
            FeedKind::PileBookmarks => "/pile-bookmarks",
            FeedKind::PileBookmarksProjects => "/pile-bookmarks-projects",
            FeedKind::RecommendedLinks => "/recommended-links",
        }
    }

    pub fn subtitle(&self) -> (r: &'static str)
        ensures
            r@ == kind_subtitle(*self),
    {
        match self {
            FeedKind::PileBookmarks => "Unread picks from saved bookmarks.",
            FeedKind::PileBookmarksProjects => "Unsorted projects from saved bookmarks.",
            FeedKind::RecommendedLinks => "Recommendations from lepisma's list of read articles and bookmarks",
        }
    }

    /// How many items a feed of this kind holds at most, if it is bounded.
    pub fn limit(&self) -> (r: Option<usize>)
        ensures
            r == limit_of(*self),
    {
        match self {
            FeedKind::PileBookmarks => Some(2),
            FeedKind::PileBookmarksProjects => Some(1),
            FeedKind::RecommendedLinks => None,
        }
    }

    /// Whether a feed of this kind takes `b`.
    pub fn selects(&self, b: &Bookmark) -> (r: bool)
        ensures
            r == selects(*self, b.view()),
    {
        match self {
            FeedKind::PileBookmarks => b.is_unread() && !b.is_project(),
            FeedKind::PileBookmarksProjects => b.is_unread() && b.is_project(),
            FeedKind::RecommendedLinks => b.is_recommended(),
        }
    }
}

/// The indices of the bookmarks that a feed of `kind` takes, in order.
pub fn matching_indices(kind: FeedKind, bms: &Vec<Bookmark>) -> (r: Vec<usize>)
    ensures
        r@ == matching(kind, bookmarks_view(bms@), bms.len() as int),
        forall|j: int| 0 <= j < r.len() ==> #[trigger] r@[j] < bms.len(),
{
    let ghost bv = bookmarks_view(bms@);
    let mut r: Vec<usize> = Vec::new();
    let mut i: usize = 0;
    while i < bms.len()
        invariant
            i <= bms.len(),
            bv == bookmarks_view(bms@),
            r@ == matching(kind, bv, i as int),
        decreases bms.len() - i,
    {
        assert(bv[i as int] == bms@[i as int].view());
        if kind.selects(&bms[i]) {
            r.push(i);
        }
        i += 1;
    }
    proof {
        lemma_matching_bounds(kind, bv, bms.len() as int);
    }
    r
}

/// The feed of `kind` with the bookmarks at `order`, in that order and as many as the feed's
/// bound allows, by `author` and updated at `updated`.
pub fn build_feed(
    kind: FeedKind,
    bms: &Vec<Bookmark>,
    order: &Vec<usize>,
    author: &NewsAuthor,
    updated: Timestamp,
) -> (r: NewsFeed)
    requires
        forall|j: int| 0 <= j < order.len() ==> #[trigger] order@[j] < bms.len(),
    ensures
        r.view() == feed_of(kind, bookmarks_view(bms@), order@, author.view(), updated.view()),
{
    let ghost bv = bookmarks_view(bms@);
    let ghost all = order@.map_values(|i: usize| item_of_bookmark(bv[i as int]));
    let n = match kind.limit() {
        Some(k) => if order.len() > k {
            k
        } else {
            order.len()
        },
        None => order.len(),
    };
    let mut items = Vec::new();
    let mut j: usize = 0;
    while j < n
        invariant
            j <= n <= order.len(),
            bv == bookmarks_view(bms@),
            all == order@.map_values(|i: usize| item_of_bookmark(bv[i as int])),
            forall|j: int| 0 <= j < order.len() ==> #[trigger] order@[j] < bms.len(),
            items_view(items@) == all.take(j as int),
        decreases n - j,
    {
        let item = bms[order[j]].to_newsitem();
        let ghost before = items@;
        items.push(item);
        proof {
            assert(bv[order@[j as int] as int] == bms@[order@[j as int] as int].view());
            assert(items_view(items@) =~= items_view(before).push(item.view()));
            assert(all.take(j + 1) =~= all.take(j as int).push(all[j as int]));
        }
        j += 1;
    }
    assert(all.take(order.len() as int) == all);
    let mut authors = Vec::new();
    authors.push(author.duplicate());
    assert(authors_view(authors@) =~= seq![author.view()]);
    let categories: Vec<String> = Vec::new();
    assert(strs(categories@) =~= Seq::<Seq<char>>::empty());
    NewsFeed {
        id: kind.id().to_owned(),
        updated,
        link: kind.link().to_owned(),
        title: kind.title().to_owned(),
        subtitle: kind.subtitle().to_owned(),
        items,
        authors,
        categories,
        generator: "journalist".to_owned(),
    }
}

/// The feed of `kind` from `bms`: the bookmarks that it takes, in random order where the kind
/// asks for it, as many as its bound allows.
pub fn assemble_feed(
    kind: FeedKind,
    bms: &Vec<Bookmark>,
    author: &NewsAuthor,
    updated: Timestamp,
    rng: &mut StdRng,
) -> (r: NewsFeed)
    ensures
        exists|order: Seq<usize>|
            {
                &&& order.to_multiset() == matching(
                    kind,
                    bookmarks_view(bms@),
                    bms.len() as int,
                ).to_multiset()
                &&& !shuffles(kind) ==> order == matching(
                    kind,
                    bookmarks_view(bms@),
                    bms.len() as int,
                )
                &&& r.view() == #[trigger] feed_of(
                    kind,
                    bookmarks_view(bms@),
                    order,
                    author.view(),
                    updated.view(),
                )
            },
{
    let mut order = matching_indices(kind, bms);
    let ghost before = order@;
    if kind != FeedKind::RecommendedLinks {
        shuffle_indices(&mut order, rng);
        proof {
            order@.to_multiset_ensures();
            before.to_multiset_ensures();
            assert forall|j: int| 0 <= j < order.len() implies #[trigger] order@[j] < bms.len() by {
                assert(order@.contains(order@[j]));
                assert(order@.to_multiset().count(order@[j]) > 0);
                assert(before.to_multiset().count(order@[j]) > 0);
                assert(before.contains(order@[j]));
                let i = choose|i: int| 0 <= i < before.len() && before[i] == order@[j];
                assert(before[i] < bms.len());
            }
        }
    }
    let r = build_feed(kind, bms, &order, author, updated);
    assert(r.view() == feed_of(kind, bookmarks_view(bms@), order@, author.view(), updated.view()));
    r
}

/// A feed that takes none of the bookmarks has no entries: its document is the feed's own
/// elements and nothing else.
pub proof fn lemma_feed_without_matches(
    kind: FeedKind,
    bms: Seq<BookmarkView>,
    order: Seq<usize>,
    author: AuthorView,
    updated: TimeView,
)
    requires
        matching(kind, bms, bms.len() as int).len() == 0,
        order.to_multiset() == matching(kind, bms, bms.len() as int).to_multiset(),
    ensures
        feed_of(kind, bms, order, author, updated).items.len() == 0,
        feed_xml(feed_of(kind, bms, order, author, updated)) == feed_head_xml(
            feed_of(kind, bms, order, author, updated),
        ) + "\n</feed>"@,
{
    order.to_multiset_ensures();
    matching(kind, bms, bms.len() as int).to_multiset_ensures();
    let f = feed_of(kind, bms, order, author, updated);
    assert(entries_xml(f.items) == Seq::<char>::empty());
}

} // verus!
