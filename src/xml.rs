//! The feed document: Atom XML with a fixed element order.
//!
//! Entry titles and summaries are escaped; identifiers, links, times and category terms
//! are written as they are.

use crate::news::{authors_view, AuthorView, ItemView, NewsAuthor, NewsFeed, NewsItem};
use crate::text::strs;
use crate::time::{rfc3339_utc, TimeView};
use vstd::prelude::*;

verus! {

/// What `htmlescape::encode_minimal` writes for one character: an entity for `"`, `&`,
/// `'`, `<` and `>`, the character itself for any other.
pub open spec fn escape_char(c: char) -> Seq<char> {
    if c == '"' {
        "&quot;"@
    } else if c == '&' {
        "&amp;"@
    } else if c == '\'' {
        "&#x27;"@
    } else if c == '<' {
        "&lt;"@
    } else if c == '>' {
        "&gt;"@
    } else {
        seq![c]
    }
}

/// `s` with each character escaped.
pub open spec fn escape_minimal(s: Seq<char>) -> Seq<char>
    decreases s.len(),
{
    if s.len() == 0 {
        Seq::empty()
    } else {
        escape_minimal(s.drop_last()) + escape_char(s.last())
    }
}

/// Relies on `htmlescape::encode_minimal`, which writes each character of `s` in turn,
/// replaced by its entity where it is one of `"`, `&`, `'`, `<` and `>`.
#[verifier::external_body]
fn encode_minimal(s: &str) -> (r: String)
    ensures
        r@ == escape_minimal(s@),
{
    htmlescape::encode_minimal(s)
}

/// The text of a time.
pub open spec fn time_text(t: TimeView) -> Seq<char> {
    rfc3339_utc(t.secs, t.nanos)
}

pub open spec fn author_xml(a: AuthorView) -> Seq<char> {
    "<author>\n  <name>"@ + a.name + "</name>\n  <email>"@ + a.email + "</email>\n  <uri>"@ + a.uri
        + "</uri>\n</author>"@
}

/// One category element per term, each on its own line.
pub open spec fn categories_xml(terms: Seq<Seq<char>>) -> Seq<char>
    decreases terms.len(),
{
    if terms.len() == 0 {
        Seq::empty()
    } else {
        categories_xml(terms.drop_last()) + "\n  <category term=\""@ + terms.last() + "\" />"@
    }
}

/// One author block per author, each starting on its own line.
pub open spec fn authors_xml(authors: Seq<AuthorView>) -> Seq<char>
    decreases authors.len(),
{
    if authors.len() == 0 {
        Seq::empty()
    } else {
        authors_xml(authors.drop_last()) + "\n  "@ + author_xml(authors.last())
    }
}

/// The summary element, present only with a summary.
pub open spec fn summary_xml(summary: Option<Seq<char>>) -> Seq<char> {
    match summary {
        Some(s) => "\n  <summary type=\"text\">"@ + escape_minimal(s) + "</summary>"@,
        None => Seq::empty(),
    }
}

pub open spec fn entry_xml(it: ItemView) -> Seq<char> {
    "<entry>\n  <title>"@ + escape_minimal(it.title) + "</title>\n  <link href=\""@ + it.link
        + "\" />\n  <id>urn:uuid:"@ + it.id + "</id>\n  <updated>"@ + time_text(it.updated)
        + "</updated>\n  <published>"@ + time_text(it.published) + "</published>"@ + summary_xml(
        it.summary,
    ) + categories_xml(it.categories) + authors_xml(it.authors) + "\n</entry>"@
}

/// The entries, each starting on its own line.
pub open spec fn entries_xml(items: Seq<ItemView>) -> Seq<char>
    decreases items.len(),
{
    if items.len() == 0 {
        Seq::empty()
    } else {
        entries_xml(items.drop_last()) + "\n"@ + entry_xml(items.last())
    }
}

/// What a `NewsFeed` holds.
pub struct FeedView {
    pub id: Seq<char>,
    pub updated: TimeView,
    pub link: Seq<char>,
    pub title: Seq<char>,
    pub subtitle: Seq<char>,
    pub items: Seq<ItemView>,
    pub authors: Seq<AuthorView>,
    pub categories: Seq<Seq<char>>,
    pub generator: Seq<char>,
}

pub open spec fn items_view(v: Seq<NewsItem>) -> Seq<ItemView> {
    v.map_values(|i: NewsItem| i.view())
}

/// The document up to and including the generator, before any entry.
pub open spec fn feed_head_xml(f: FeedView) -> Seq<char> {
    "<?xml version=\"1.0\" encoding=\"utf-8\"?>\n<feed xmlns=\"http://www.w3.org/2005/Atom\">\n  <id>"@
        + f.id + "</id>\n  <title>"@ + f.title + "</title>\n  <subtitle>"@ + f.subtitle
        + "</subtitle>\n  <updated>"@ + time_text(f.updated) + "</updated>\n  <link rel=\"self\" href=\""@
        + f.link + "\" />"@ + categories_xml(f.categories) + authors_xml(f.authors)
        + "\n  <generator>"@ + f.generator + "</generator>"@
}

pub open spec fn feed_xml(f: FeedView) -> Seq<char> {
    feed_head_xml(f) + entries_xml(f.items) + "\n</feed>"@
}

/// Appends the category elements of `terms` to `out`.
fn write_categories(out: &mut String, terms: &Vec<String>)
    ensures
        final(out)@ == old(out)@ + categories_xml(strs(terms@)),
{
    let ghost start = out@;
    let mut i: usize = 0;
    while i < terms.len()
        invariant
            i <= terms.len(),
            out@ == start + categories_xml(strs(terms@).take(i as int)),
        decreases terms.len() - i,
    {
        proof {
            let t = strs(terms@);
            assert(t.take(i + 1).drop_last() == t.take(i as int));
            assert(t.take(i + 1).last() == terms@[i as int]@);
        }
        out.append("\n  <category term=\"");
        out.append(terms[i].as_str());
        out.append("\" />");
        i += 1;
    }
    assert(strs(terms@).take(terms.len() as int) == strs(terms@));
}

/// Appends the author blocks of `authors` to `out`.
fn write_authors(out: &mut String, authors: &Vec<NewsAuthor>)
    ensures
        final(out)@ == old(out)@ + authors_xml(authors_view(authors@)),
{
    let ghost start = out@;
    let mut i: usize = 0;
    while i < authors.len()
        invariant
            i <= authors.len(),
            out@ == start + authors_xml(authors_view(authors@).take(i as int)),
        decreases authors.len() - i,
    {
        proof {
            let t = authors_view(authors@);
            assert(t.take(i + 1).drop_last() == t.take(i as int));
            assert(t.take(i + 1).last() == authors@[i as int].view());
        }
        out.append("\n  ");
        let block = authors[i].to_xml_string();
        out.append(block.as_str());
        i += 1;
    }
    assert(authors_view(authors@).take(authors.len() as int) == authors_view(authors@));
}

impl NewsAuthor {
    /// The author block.
    pub fn to_xml_string(&self) -> (r: String)
        ensures
            r@ == author_xml(self.view()),
    {
        let mut out = String::new();
        out.append("<author>\n  <name>");
        out.append(self.name.as_str());
        out.append("</name>\n  <email>");
        out.append(self.email.as_str());
        out.append("</email>\n  <uri>");
        out.append(self.uri.as_str());
        out.append("</uri>\n</author>");
        out
    }
}

impl NewsItem {
    /// The entry block, with its title and summary escaped.
    pub fn to_xml_string(&self) -> (r: String)
        ensures
            r@ == entry_xml(self.view()),
    {
        let mut out = String::new();
        out.append("<entry>\n  <title>");
        let title = encode_minimal(self.title.as_str());
        out.append(title.as_str());
        out.append("</title>\n  <link href=\"");
        out.append(self.link.as_str());
        out.append("\" />\n  <id>urn:uuid:");
        out.append(self.id.as_str());
        out.append("</id>\n  <updated>");
        let updated = self.updated.to_rfc3339();
        out.append(updated.as_str());
        out.append("</updated>\n  <published>");
        let published = self.published.to_rfc3339();
        out.append(published.as_str());
        out.append("</published>");
        match &self.summary {
            Some(s) => {
                out.append("\n  <summary type=\"text\">");
                let summary = encode_minimal(s.as_str());
                out.append(summary.as_str());
                out.append("</summary>");
            },
            None => {},
        }
        write_categories(&mut out, &self.categories);
        write_authors(&mut out, &self.authors);
        out.append("\n</entry>");
        out
    }
}

impl NewsFeed {
    pub open spec fn view(&self) -> FeedView {
        FeedView {
            id: self.id@,
            updated: self.updated.view(),
            link: self.link@,
            title: self.title@,
            subtitle: self.subtitle@,
            items: items_view(self.items@),
            authors: authors_view(self.authors@),
            categories: strs(self.categories@),
            generator: self.generator@,
        }
    }

    /// The feed document.
    pub fn to_xml_string(&self) -> (r: String)
        ensures
            r@ == feed_xml(self.view()),
    {
        let mut out = String::new();
        out.append(
            "<?xml version=\"1.0\" encoding=\"utf-8\"?>\n<feed xmlns=\"http://www.w3.org/2005/Atom\">\n  <id>",
        );
        out.append(self.id.as_str());
        out.append("</id>\n  <title>");
        out.append(self.title.as_str());
        out.append("</title>\n  <subtitle>");
        out.append(self.subtitle.as_str());
        out.append("</subtitle>\n  <updated>");
        let updated = self.updated.to_rfc3339();
        out.append(updated.as_str());
        out.append("</updated>\n  <link rel=\"self\" href=\"");
        out.append(self.link.as_str());
        out.append("\" />");
        write_categories(&mut out, &self.categories);
        write_authors(&mut out, &self.authors);
        out.append("\n  <generator>");
        out.append(self.generator.as_str());
        out.append("</generator>");
        let ghost head = out@;
        let mut i: usize = 0;
        while i < self.items.len()
            invariant
                i <= self.items.len(),
                out@ == head + entries_xml(items_view(self.items@).take(i as int)),
            decreases self.items.len() - i,
        {
            proof {
                let t = items_view(self.items@);
                assert(t.take(i + 1).drop_last() == t.take(i as int));
                assert(t.take(i + 1).last() == self.items@[i as int].view());
            }
            out.append("\n");
            let entry = self.items[i].to_xml_string();
            out.append(entry.as_str());
            i += 1;
        }
        assert(items_view(self.items@).take(self.items.len() as int) == items_view(self.items@));
        out.append("\n</feed>");
        out
    }
}

} // verus!
