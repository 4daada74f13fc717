use journalist::feed::{assemble_feed, build_feed, matching_indices, FeedKind};
use journalist::news::{FeedError, NewsAuthor, NewsFeed, NewsItem};
use journalist::pile::Bookmark;
use journalist::time::Timestamp;
use journalist::utils::union_strings;
use rand::rngs::StdRng;
use rand::SeedableRng;

fn at(secs: i64) -> Timestamp {
    Timestamp::new(secs, 0).unwrap()
}

fn item(id: &str, summary: Option<&str>, updated: i64, categories: &[&str]) -> NewsItem {
    NewsItem {
        id: id.to_string(),
        link: format!("https://{}.test", id),
        title: format!("Title {}", id),
        summary: summary.map(|s| s.to_string()),
        published: at(100),
        updated: at(updated),
        authors: vec![NewsAuthor::new("A".to_string(), "a@x".to_string(), "x".to_string())],
        categories: categories.iter().map(|c| c.to_string()).collect(),
    }
}

fn author() -> NewsAuthor {
    NewsAuthor::new("Name".to_string(), "me@example.com".to_string(), "example.com".to_string())
}

fn strings(v: &[&str]) -> Vec<String> {
    v.iter().map(|s| s.to_string()).collect()
}

#[test]
fn union_keeps_first_occurrences() {
    let u = union_strings(strings(&["a", "b", "a"]), strings(&["c", "b", "d"]));
    assert_eq!(u, strings(&["a", "b", "c", "d"]));
    assert_eq!(union_strings(vec![], vec![]), Vec::<String>::new());
}

#[test]
fn merge_combines_two_views() {
    let mut b = item("x", Some("second"), 500, &["b", "c"]);
    b.title = "Other title".to_string();
    b.published = at(300);
    let m = item("x", Some("first"), 200, &["a", "b"]).merge(b).unwrap();
    assert_eq!(m.summary.as_deref(), Some("first\n-----\nsecond"));
    assert_eq!(m.updated, at(500));
    assert_eq!(m.published, at(100));
    assert_eq!(m.title, "Title x");
    assert_eq!(m.categories, strings(&["a", "b", "c"]));
}

#[test]
fn merge_keeps_a_single_summary() {
    let m = item("x", None, 1, &[]).merge(item("x", Some("only"), 2, &[])).unwrap();
    assert_eq!(m.summary.as_deref(), Some("only"));
    let m = item("x", Some("only"), 1, &[]).merge(item("x", None, 2, &[])).unwrap();
    assert_eq!(m.summary.as_deref(), Some("only"));
    let m = item("x", None, 1, &[]).merge(item("x", None, 2, &[])).unwrap();
    assert_eq!(m.summary, None);
}

#[test]
fn merge_of_different_items_fails() {
    let r = item("x", None, 1, &[]).merge(item("y", None, 1, &[]));
    assert_eq!(r.unwrap_err(), FeedError::IdentityMismatch);
}

#[test]
fn merge_with_itself() {
    let a = item("x", Some("s"), 42, &["a", "b"]);
    let m = a.clone().merge(a.clone()).unwrap();
    assert_eq!(m.id, a.id);
    assert_eq!(m.link, a.link);
    assert_eq!(m.title, a.title);
    assert_eq!(m.published, a.published);
    assert_eq!(m.updated, a.updated);
    assert_eq!(m.categories, a.categories);
    assert_eq!(m.authors.len(), 1);
}

#[test]
fn merge_grouping_does_not_change_categories_or_update() {
    let a = item("x", None, 10, &["a", "b"]);
    let b = item("x", None, 30, &["c", "a"]);
    let c = item("x", None, 20, &["d", "b"]);
    let left = a.clone().merge(b.clone()).unwrap().merge(c.clone()).unwrap();
    let right = a.merge(b.merge(c).unwrap()).unwrap();
    assert_eq!(left.categories, right.categories);
    assert_eq!(left.updated, right.updated);
    assert_eq!(left.updated, at(30));
}

#[test]
fn later_compares_nanoseconds() {
    let a = Timestamp::new(5, 10).unwrap();
    let b = Timestamp::new(5, 20).unwrap();
    assert_eq!(a.later(&b), b);
    assert_eq!(b.later(&a), b);
    assert!(Timestamp::new(0, 1_000_000_000).is_none());
    assert!(Timestamp::new(i64::MAX, 0).is_none());
}

#[test]
fn author_block() {
    assert_eq!(
        author().to_xml_string(),
        "<author>\n  <name>Name</name>\n  <email>me@example.com</email>\n  <uri>example.com</uri>\n</author>"
    );
}

#[test]
fn entry_escapes_title_and_summary() {
    let mut it = item("x", Some("<script>&\"</script>"), 0, &["c1"]);
    it.title = "Tom's <b>".to_string();
    it.authors = vec![];
    let xml = it.to_xml_string();
    assert!(xml.contains("<summary type=\"text\">&lt;script&gt;&amp;&quot;&lt;/script&gt;</summary>"));
    assert!(!xml.contains("<script>"));
    assert_eq!(
        xml,
        "<entry>\n  <title>Tom&#x27;s &lt;b&gt;</title>\n  <link href=\"https://x.test\" />\n  <id>urn:uuid:x</id>\n  <updated>1970-01-01T00:00:00Z</updated>\n  <published>1970-01-01T00:01:40Z</published>\n  <summary type=\"text\">&lt;script&gt;&amp;&quot;&lt;/script&gt;</summary>\n  <category term=\"c1\" />\n</entry>"
    );
}

#[test]
fn entry_without_summary_has_no_summary_element() {
    let mut it = item("x", None, 0, &[]);
    it.authors = vec![author()];
    let xml = it.to_xml_string();
    assert!(!xml.contains("<summary"));
    assert!(xml.ends_with("</published>\n  <author>\n  <name>Name</name>\n  <email>me@example.com</email>\n  <uri>example.com</uri>\n</author>\n</entry>"));
}

#[test]
fn times_render_in_rfc3339() {
    assert_eq!(at(0).to_rfc3339(), "1970-01-01T00:00:00Z");
    assert_eq!(Timestamp::new(1, 500_000_000).unwrap().to_rfc3339(), "1970-01-01T00:00:01.500Z");
}

fn bookmark(id: &str, reference: &str, tags: &str) -> Bookmark {
    Bookmark::from_index_row(
        id.to_string(),
        reference.to_string(),
        format!("Title {}", id),
        "20230101120000-x.org",
        tags,
        at(0),
    )
}

#[test]
fn empty_feed_renders_without_entries() {
    let bms = vec![bookmark("a", "https://a.test", "#+TAGS: other\n")];
    let mut rng = StdRng::seed_from_u64(7);
    let feed = assemble_feed(FeedKind::PileBookmarks, &bms, &author(), at(0), &mut rng);
    assert!(feed.items.is_empty());
    let xml = feed.to_xml_string();
    assert_eq!(
        xml,
        "<?xml version=\"1.0\" encoding=\"utf-8\"?>\n<feed xmlns=\"http://www.w3.org/2005/Atom\">\n  <id>pile-bookmarks</id>\n  <title>General Bookmarks</title>\n  <subtitle>Unread picks from saved bookmarks.</subtitle>\n  <updated>1970-01-01T00:00:00Z</updated>\n  <link rel=\"self\" href=\"/pile-bookmarks\" />\n  <author>\n  <name>Name</name>\n  <email>me@example.com</email>\n  <uri>example.com</uri>\n</author>\n  <generator>journalist</generator>\n</feed>"
    );
    assert!(!xml.contains("<entry>"));
}

#[test]
fn feed_kinds_select_and_bound() {
    let bms = vec![
        bookmark("a", "https://a.test", "#+TAGS: unsorted\n"),
        bookmark("b", "https://github.com/b", "#+TAGS: unsorted\n"),
        bookmark("c", "https://c.test", "#+TAGS: unsorted, project\n"),
        bookmark("d", "https://d.test", "#+TAGS: unsorted\n"),
        bookmark("e", "https://e.test", "#+TAGS: unsorted\n"),
        bookmark("f", "https://f.test", "#+TAGS: recommend\n"),
        bookmark("g", "https://g.test", "#+TAGS: recommend, unsorted\n"),
        bookmark("h", "https://h.test", "#+TAGS: recommend\n"),
    ];
    assert_eq!(matching_indices(FeedKind::PileBookmarks, &bms), vec![0, 3, 4, 6]);
    assert_eq!(matching_indices(FeedKind::PileBookmarksProjects, &bms), vec![1, 2]);
    assert_eq!(matching_indices(FeedKind::RecommendedLinks, &bms), vec![5, 7]);

    let mut rng = StdRng::seed_from_u64(1);
    let general = assemble_feed(FeedKind::PileBookmarks, &bms, &author(), at(0), &mut rng);
    assert_eq!(general.items.len(), 2);
    for it in &general.items {
        assert!(["a", "d", "e", "g"].contains(&it.id.as_str()));
    }
    assert_ne!(general.items[0].id, general.items[1].id);

    let projects = assemble_feed(FeedKind::PileBookmarksProjects, &bms, &author(), at(0), &mut rng);
    assert_eq!(projects.items.len(), 1);
    assert!(["b", "c"].contains(&projects.items[0].id.as_str()));
    assert_eq!(projects.id, "pile-bookmarks-projects");

    let recommended = assemble_feed(FeedKind::RecommendedLinks, &bms, &author(), at(0), &mut rng);
    let ids: Vec<&str> = recommended.items.iter().map(|i| i.id.as_str()).collect();
    assert_eq!(ids, vec!["f", "h"]);
    assert_eq!(recommended.title, "lepisma's recommended links");
}

#[test]
fn seeded_shuffles_repeat() {
    let bms: Vec<Bookmark> = (0..10)
        .map(|i| bookmark(&format!("n{}", i), "https://x.test", "#+TAGS: unsorted\n"))
        .collect();
    let pick = |seed: u64| {
        let mut rng = StdRng::seed_from_u64(seed);
        let f = assemble_feed(FeedKind::PileBookmarks, &bms, &author(), at(0), &mut rng);
        f.items.iter().map(|i| i.id.clone()).collect::<Vec<_>>()
    };
    assert_eq!(pick(3), pick(3));
}

#[test]
fn build_feed_follows_order_and_bound() {
    let bms = vec![
        bookmark("a", "https://a.test", ""),
        bookmark("b", "https://b.test", ""),
        bookmark("c", "https://c.test", ""),
    ];
    let feed: NewsFeed = build_feed(FeedKind::PileBookmarks, &bms, &vec![2, 0, 1], &author(), at(0));
    let ids: Vec<&str> = feed.items.iter().map(|i| i.id.as_str()).collect();
    assert_eq!(ids, vec!["c", "a"]);
    assert_eq!(feed.items[0].link, "https://c.test");
    assert_eq!(feed.items[0].published, feed.items[0].updated);
    assert_eq!(feed.generator, "journalist");
}
