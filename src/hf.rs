//! Papers from a weekly listing of papers.

use crate::news::{ItemView, NewsItem};
use crate::pile::clone_strings;
use crate::pile::{digit, is_digit};
use crate::text::{chars_of, opt_str, string_of_range, strs, trim, trim_bounds};
use crate::time::{TimeView, Timestamp};
use vstd::prelude::*;

verus! {

/// A paper from the listing.
#[derive(Debug, Clone)]
pub struct Paper {
    id: String,
    title: String,
    link: String,
    description: String,
    tags: Vec<String>,
    arxiv: Option<String>,
    added: Timestamp,
    votes: usize,
    n_comments: usize,
}

/// What a `Paper` holds.
pub struct PaperView {
    pub id: Seq<char>,
    pub title: Seq<char>,
    pub link: Seq<char>,
    pub description: Seq<char>,
    pub tags: Seq<Seq<char>>,
    pub arxiv: Option<Seq<char>>,
    pub added: TimeView,
    pub votes: nat,
    pub n_comments: nat,
}

/// A week of a year, as ISO 8601 numbers it.
#[derive(Debug, Clone, Copy, PartialEq, Eq, Structural)]
pub struct Week {
    pub year: usize,
    pub week: usize,
}

impl Week {
    pub fn new(year: usize, week: usize) -> (r: Week)
        ensures
            r.year == year,
            r.week == week,
    {
        Week { year, week }
    }

    pub fn year(&self) -> (r: usize)
        ensures
            r == self.year,
    {
        self.year
    }

    pub fn week(&self) -> (r: usize)
        ensures
            r == self.week,
    {
        self.week
    }
}

/// The site that the listing's links are relative to.
pub open spec fn listing_site() -> Seq<char> {
    "https://huggingface.co"@
}

/// The feed item of a paper; its summary is the description, absent when that is empty.
pub open spec fn item_of_paper(p: PaperView) -> ItemView {
    ItemView {
        id: p.id,
        link: p.link,
        title: p.title,
        summary: if p.description.len() == 0 {
            None
        } else {
            Some(p.description)
        },
        published: p.added,
        updated: p.added,
        authors: Seq::empty(),
        categories: p.tags,
    }
}

/// The value of a string of decimal digits.
pub open spec fn decimal(s: Seq<char>) -> int
    decreases s.len(),
{
    if s.len() == 0 {
        0
    } else {
        decimal(s.drop_last()) * 10 + digit(s.last())
    }
}

/// The digits of a count, after an optional `+`.
pub open spec fn unsigned_part(t: Seq<char>) -> Seq<char> {
    if t.len() > 0 && t[0] == '+' {
        t.drop_first()
    } else {
        t
    }
}

/// The value of one or more decimal digits, when it fits in a `usize`.
pub open spec fn digits_value(d: Seq<char>) -> Option<int> {
    if d.len() > 0 && (forall|i: int| 0 <= i < d.len() ==> is_digit(#[trigger] d[i])) && decimal(d)
        <= usize::MAX {
        Some(decimal(d))
    } else {
        None
    }
}

/// A count as `usize::from_str` reads it from the trimmed text: an optional `+`, then one or
/// more decimal digits, whose value fits in a `usize`.
pub open spec fn count_of(text: Seq<char>) -> Option<int> {
    digits_value(unsigned_part(trim(text)))
}

proof fn lemma_decimal_grows(s: Seq<char>, k: int)
    requires
        0 <= k <= s.len(),
        forall|i: int| 0 <= i < s.len() ==> is_digit(#[trigger] s[i]),
    ensures
        decimal(s) >= decimal(s.take(k)) >= 0,
    decreases s.len(),
{
    if s.len() > 0 {
        if k == s.len() {
            assert(s.take(k) == s);
            lemma_decimal_grows(s.drop_last(), 0);
            assert(s.drop_last().take(0) =~= Seq::<char>::empty());
        } else {
            lemma_decimal_grows(s.drop_last(), k);
            assert(s.drop_last().take(k) == s.take(k));
        }
        assert(is_digit(s[s.len() - 1]));
    } else {
        assert(s.take(k) =~= Seq::<char>::empty());
    }
}

/// The count written in `text`, as `count_of` states it.
pub fn parse_count(text: &str) -> (r: Option<usize>)
    ensures
        match count_of(text@) {
            Some(n) => r matches Some(x) && x as int == n,
            None => r is None,
        },
{
    let v = chars_of(text);
    let (a, b) = trim_bounds(&v, 0, v.len());
    assert(v@.subrange(0, v.len() as int) == v@);
    let ghost t = v@.subrange(a as int, b as int);
    let start = if a < b && v[a] == '+' {
        a + 1
    } else {
        a
    };
    let ghost d = v@.subrange(start as int, b as int);
    assert(d == unsigned_part(t));
    assert(trim(text@) == t);
    if start == b {
        assert(d.len() == 0);
        return None;
    }
    let mut n: usize = 0;
    let mut i: usize = start;
    while i < b
        invariant
            start <= i <= b <= v.len(),
            d == v@.subrange(start as int, b as int),
            d == unsigned_part(trim(text@)),
            forall|j: int| 0 <= j < i - start ==> is_digit(#[trigger] d[j]),
            n == decimal(d.take(i - start)),
        decreases b - i,
    {
        let c = v[i];
        assert(c == d[i - start]);
        if !('0' <= c && c <= '9') {
            assert(!is_digit(d[i - start]));
            return None;
        }
        let x = (c as u32 - '0' as u32) as usize;
        proof {
            assert(d.take(i - start + 1).drop_last() == d.take(i - start));
            assert(d.take(i - start + 1).last() == c);
        }
        if n > (usize::MAX - x) / 10 {
            proof {
                assert forall|j: int| 0 <= j < i - start + 1 implies is_digit(
                    #[trigger] d.take(i - start + 1)[j],
                ) by {
                    assert(d.take(i - start + 1)[j] == d[j]);
                }
                assert(decimal(d.take(i - start + 1)) > usize::MAX) by (nonlinear_arith)
                    requires
                        n > (usize::MAX - x) / 10,
                        decimal(d.take(i - start + 1)) == n * 10 + x,
                        0 <= x <= 9,
                ;
                if forall|j: int| 0 <= j < d.len() ==> is_digit(#[trigger] d[j]) {
                    lemma_decimal_grows(d, i - start + 1);
                }
            }
            return None;
        }
        n = n * 10 + x;
        i += 1;
    }
    assert(d.take(b - start) == d);
    Some(n)
}

impl Paper {
    pub closed spec fn view(&self) -> PaperView {
        PaperView {
            id: self.id@,
            title: self.title@,
            link: self.link@,
            description: self.description@,
            tags: strs(self.tags@),
            arxiv: opt_str(self.arxiv),
            added: self.added.view(),
            votes: self.votes as nat,
            n_comments: self.n_comments as nat,
        }
    }

    /// A paper from one entry of the listing: the link of its title relative to the site,
    /// which also identifies it, the title, and its votes, seen at `added`.
    pub fn from_listing(rel_link: String, title: String, votes: usize, added: Timestamp) -> (r:
        Paper)
        ensures
            r.view() == (PaperView {
                id: rel_link@,
                title: title@,
                link: listing_site() + rel_link@,
                description: Seq::empty(),
                tags: Seq::empty(),
                arxiv: None,
                added: added.view(),
                votes: votes as nat,
                n_comments: 0,
            }),
    {
        let mut link = String::new();
        link.append("https://huggingface.co");
        link.append(rel_link.as_str());
        let r = Paper {
            id: rel_link,
            title,
            link,
            description: String::new(),
            tags: Vec::new(),
            arxiv: None,
            added,
            votes,
            n_comments: 0,
        };
        assert(strs(r.tags@) =~= Seq::<Seq<char>>::empty());
        r
    }

    /// A paper from the texts of one entry of the listing: its title trimmed, and its votes
    /// read as a count; `None` where they are no count.
    pub fn from_listing_texts(rel_link: String, title_text: &str, votes_text: &str, added: Timestamp)
        -> (r: Option<Paper>)
        ensures
            match count_of(votes_text@) {
                Some(n) => r matches Some(p) && p.view() == (PaperView {
                    id: rel_link@,
                    title: trim(title_text@),
                    link: listing_site() + rel_link@,
                    description: Seq::empty(),
                    tags: Seq::empty(),
                    arxiv: None,
                    added: added.view(),
                    votes: n as nat,
                    n_comments: 0,
                }),
                None => r is None,
            },
    {
        let votes = match parse_count(votes_text) {
            Some(n) => n,
            None => return None,
        };
        let t = chars_of(title_text);
        let (a, b) = trim_bounds(&t, 0, t.len());
        assert(t@.subrange(0, t.len() as int) == t@);
        let title = string_of_range(&t, a, b);
        Some(Paper::from_listing(rel_link, title, votes, added))
    }

    /// The feed item of a paper.
    pub fn to_newsitem(&self) -> (r: NewsItem)
        ensures
            r.view() == item_of_paper(self.view()),
    {
        let summary = if self.description.as_str().is_empty() {
            None
        } else {
            Some(self.description.clone())
        };
        let r = NewsItem {
            id: self.id.clone(),
            link: self.link.clone(),
            title: self.title.clone(),
            summary,
            published: self.added,
            updated: self.added,
            authors: Vec::new(),
            categories: clone_strings(&self.tags),
        };
        assert(crate::news::authors_view(r.authors@) =~= Seq::empty());
        r
    }

    pub fn id(&self) -> (r: &String)
        ensures
            r@ == self.view().id,
    {
        &self.id
    }

    pub fn title(&self) -> (r: &String)
        ensures
            r@ == self.view().title,
    {
        &self.title
    }

    pub fn link(&self) -> (r: &String)
        ensures
            r@ == self.view().link,
    {
        &self.link
    }

    pub fn votes(&self) -> (r: usize)
        ensures
            r == self.view().votes,
    {
        self.votes
    }
}

} // verus!
