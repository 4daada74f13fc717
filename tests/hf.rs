use journalist::hf::{parse_count, Paper, Week};
use journalist::time::Timestamp;

fn at(secs: i64) -> Timestamp {
    Timestamp::new(secs, 0).unwrap()
}

#[test]
fn counts_read_like_usize_from_str() {
    assert_eq!(parse_count("42"), Some(42));
    assert_eq!(parse_count("  7\n"), Some(7));
    assert_eq!(parse_count("+3"), Some(3));
    assert_eq!(parse_count("007"), Some(7));
    assert_eq!(parse_count(""), None);
    assert_eq!(parse_count("+"), None);
    assert_eq!(parse_count("-1"), None);
    assert_eq!(parse_count("1 2"), None);
    assert_eq!(parse_count("12a"), None);
    assert_eq!(parse_count(&usize::MAX.to_string()), Some(usize::MAX));
    assert_eq!(parse_count(&format!("{}0", usize::MAX)), None);
}

#[test]
fn paper_from_listing_entry() {
    let p = Paper::from_listing_texts("/papers/2401.00001".to_string(), "\n  A Paper Title  \n", " 15 ", at(10))
        .unwrap();
    assert_eq!(p.id(), "/papers/2401.00001");
    assert_eq!(p.link(), "https://huggingface.co/papers/2401.00001");
    assert_eq!(p.title(), "A Paper Title");
    assert_eq!(p.votes(), 15);
    let item = p.to_newsitem();
    assert_eq!(item.summary, None);
    assert_eq!(item.published, at(10));
    assert_eq!(item.updated, at(10));
    assert_eq!(item.link, "https://huggingface.co/papers/2401.00001");
    assert!(item.categories.is_empty());
    assert!(Paper::from_listing_texts("/p".to_string(), "t", "many", at(10)).is_none());
}

#[test]
fn week_holds_its_numbers() {
    let w = Week::new(2024, 7);
    assert_eq!(w.year(), 2024);
    assert_eq!(w.week(), 7);
}
