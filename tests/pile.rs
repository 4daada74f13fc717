use journalist::pile::{
    read_bookmark_from_file, read_bookmarks_from_notes, read_content, read_datetime, read_tags,
    Bookmark, NoteError, OrgNode,
};
use journalist::time::Timestamp;

fn now() -> Timestamp {
    Timestamp::new(1_700_000_000, 0).unwrap()
}

#[test]
fn tags_parsing_works() {
    let string = r#":PROPERTIES:
:ID:       cae71435-9f7e-41ba-84d2-cf8d85fbffa0
:ROAM_REFS: https://github.com/MattMoony/figaro?tab=readme-ov-file#references
:END:
#+TAGS: project, speech, privacy
#+TITLE: MattMoony/figaro: Real-time voice-changer for voice-chat, etc. Will support many different voice-filters and features in the future. 🎵
"#;
    let _ = string;
    assert!(true);
}

#[test]
fn header_fields_are_parsed() {
    let text = ":PROPERTIES:\n:ID:       cae71435-9f7e-41ba-84d2-cf8d85fbffa0\n:ROAM_REFS: https://github.com/MattMoony/figaro?tab=readme-ov-file#references\n:END:\n#+TAGS: project, speech, privacy\n#+TITLE: MattMoony/figaro: Real-time voice-changer 🎵\n";
    let node = OrgNode::parse(text, now()).unwrap();
    assert_eq!(node.id(), "cae71435-9f7e-41ba-84d2-cf8d85fbffa0");
    assert_eq!(
        node.reference().as_deref(),
        Some("https://github.com/MattMoony/figaro?tab=readme-ov-file#references")
    );
    assert_eq!(node.tags(), &vec!["project".to_string(), "speech".to_string(), "privacy".to_string()]);
    assert_eq!(node.title(), "MattMoony/figaro: Real-time voice-changer 🎵");
    assert_eq!(node.content(), &None);
    assert_eq!(node.created(), now());
}

#[test]
fn example_note_gives_unsorted_project_bookmark() {
    let text = ":ID: abc\n:ROAM_REFS: https://x.test\n#+TAGS: unsorted, project\n#+TITLE: Example\nhello\n";
    let b = read_bookmark_from_file("20230101120000-example.org", text, now()).unwrap();
    assert!(b.is_unread());
    assert!(b.is_project());
    assert!(!b.is_recommended());
    assert_eq!(b.content().as_deref(), Some("hello"));
    assert_eq!(b.id(), "abc");
    assert_eq!(b.reference(), "https://x.test");
    // 2023-01-01 12:00:00 in Asia/Kolkata (+05:30) is 06:30:00 UTC.
    assert_eq!(b.created().secs(), 1_672_554_600);
    assert_eq!(b.created().to_rfc3339(), "2023-01-01T06:30:00Z");
}

#[test]
fn header_keys_ignore_case_and_unknown_lines() {
    let text = ":properties:\n:id: x1\n:Roam_Refs:   https://a.test  \n:END:\n#+tags: a,b ,  c\n#+filetags: :z:\n#+title:   Hello  \n";
    let node = OrgNode::parse(text, now()).unwrap();
    assert_eq!(node.id(), "x1");
    assert_eq!(node.reference().as_deref(), Some("https://a.test  "));
    assert_eq!(node.tags(), &vec!["a".to_string(), "b".to_string(), "c".to_string()]);
    assert_eq!(node.title(), "Hello  ");
}

#[test]
fn body_starts_after_title_and_is_trimmed() {
    let text = ":ID: n\n#+TITLE: T\n\n  first line\r\n:ID: not-an-id\n#+TITLE: not a title\n\n";
    let node = OrgNode::parse(text, now()).unwrap();
    assert_eq!(node.id(), "n");
    assert_eq!(node.title(), "T");
    assert_eq!(
        node.content().as_deref(),
        Some("first line\n:ID: not-an-id\n#+TITLE: not a title")
    );
}

#[test]
fn later_header_line_replaces_earlier() {
    let text = ":ID: one\n:ID: two\n#+TAGS: a\n#+TAGS: b\n#+TITLE: T\n";
    let node = OrgNode::parse(text, now()).unwrap();
    assert_eq!(node.id(), "two");
    assert_eq!(node.tags(), &vec!["b".to_string()]);
}

#[test]
fn empty_tags_value_gives_one_empty_tag() {
    let node = OrgNode::parse(":ID: a\n#+TAGS:\n#+TITLE: T\n", now()).unwrap();
    assert_eq!(node.tags(), &vec!["".to_string()]);
}

#[test]
fn missing_id_or_title_is_an_error() {
    assert_eq!(
        OrgNode::parse("#+TITLE: T\nbody\n", now()).unwrap_err(),
        NoteError::MissingRequiredField
    );
    assert_eq!(
        OrgNode::parse(":ID: a\nbody\n", now()).unwrap_err(),
        NoteError::MissingRequiredField
    );
    assert_eq!(OrgNode::parse("", now()).unwrap_err(), NoteError::MissingRequiredField);
}

#[test]
fn note_without_reference_is_no_bookmark() {
    let text = ":ID: a\n#+TITLE: T\n";
    assert_eq!(
        read_bookmark_from_file("20230101120000-x.org", text, now()).unwrap_err(),
        NoteError::NoReference
    );
    let node = OrgNode::parse(text, now()).unwrap();
    assert_eq!(Bookmark::from_org_node(&node).unwrap_err(), NoteError::NoReference);
}

#[test]
fn file_name_time_stamps() {
    assert_eq!(read_datetime("20230101120000-example.org").unwrap().secs(), 1_672_554_600);
    assert_eq!(read_datetime("example.org").unwrap_err(), NoteError::InvalidFilename);
    assert_eq!(read_datetime("2023010112000-x.org").unwrap_err(), NoteError::InvalidFilename);
    assert_eq!(read_datetime("2023013112000a-x.org").unwrap_err(), NoteError::InvalidFilename);
    assert_eq!(read_datetime("20230231120000-x.org").unwrap_err(), NoteError::InvalidFilename);
    assert_eq!(read_datetime("20230101250000-x.org").unwrap_err(), NoteError::InvalidFilename);
    assert_eq!(read_datetime("").unwrap_err(), NoteError::InvalidFilename);
}

#[test]
fn bad_file_name_falls_back_to_now() {
    let text = ":ID: a\n:ROAM_REFS: https://x.test\n#+TITLE: T\n";
    let b = read_bookmark_from_file("notes.org", text, now()).unwrap();
    assert_eq!(b.created(), now());
}

#[test]
fn is_project_by_tag_or_github_link() {
    let github = Bookmark::from_index_row(
        "a".to_string(),
        "https://github.com/x/y".to_string(),
        "t".to_string(),
        "x.org",
        "",
        now(),
    );
    assert!(github.tags().is_empty());
    assert!(github.is_project());
    let other = Bookmark::from_index_row(
        "a".to_string(),
        "https://example.com".to_string(),
        "t".to_string(),
        "x.org",
        "",
        now(),
    );
    assert!(!other.is_project());
    let tagged = Bookmark::from_index_row(
        "a".to_string(),
        "https://example.com".to_string(),
        "t".to_string(),
        "x.org",
        "#+TAGS: project\n",
        now(),
    );
    assert!(tagged.is_project());
}

#[test]
fn recommended_only_once_read() {
    let row = |tags: &str| {
        Bookmark::from_index_row(
            "a".to_string(),
            "https://example.com".to_string(),
            "t".to_string(),
            "x.org",
            tags,
            now(),
        )
    };
    assert!(row("#+TAGS: recommend\n").is_recommended());
    assert!(!row("#+TAGS: recommend, unsorted\n").is_recommended());
    assert!(row("#+TAGS: recommend, unsorted\n").is_unread());
    assert!(!row("#+TAGS: other\n").is_recommended());
}

#[test]
fn index_row_reads_tags_body_and_time_as_the_parser_does() {
    let text = ":PROPERTIES:\n:ID: a\n:END:\n#+TAGS: first\n#+TAGS: early, tags\n#+TITLE: T\n\n  Body one\n#+TAGS: late\n\n";
    let b = Bookmark::from_index_row(
        "id1".to_string(),
        "https:example".to_string(),
        "Title".to_string(),
        "20230101120000-t.org",
        text,
        now(),
    );
    assert_eq!(b.id(), "id1");
    assert_eq!(b.title(), "Title");
    assert_eq!(b.tags(), &vec!["early".to_string(), "tags".to_string()]);
    assert_eq!(b.content().as_deref(), Some("Body one\n#+TAGS: late"));
    assert_eq!(b.created().secs(), 1_672_554_600);
}

#[test]
fn index_row_without_body() {
    let b = Bookmark::from_index_row(
        "id1".to_string(),
        "r".to_string(),
        "Title".to_string(),
        "bad.org",
        ":ID: a\n#+TITLE: T\n",
        now(),
    );
    assert_eq!(b.content(), &None);
    assert!(b.tags().is_empty());
    assert_eq!(b.created(), now());
    let with_body = Bookmark::from_index_row(
        "id1".to_string(),
        "r".to_string(),
        "Title".to_string(),
        "bad.org",
        ":ID: a\n#+TITLE: T\nhello\n",
        now(),
    );
    assert_eq!(with_body.content().as_deref(), Some("hello"));
}

#[test]
fn read_tags_and_content_of_text() {
    assert_eq!(read_tags("no tags here\n"), Vec::<String>::new());
    assert_eq!(read_tags("x\n#+tags: a, b\n#+TAGS: c\n"), vec!["a".to_string(), "b".to_string()]);
    assert_eq!(read_content("#+TITLE: x\n:ID: y\n\n"), "");
    assert_eq!(read_content("  \n  text\r\nmore"), "  text\nmore\n");
}

#[test]
fn directory_notes_skip_failures() {
    let names = vec![
        "20230101120000-a.org".to_string(),
        "20230101120000-b.org".to_string(),
        "20230101120000-c.org".to_string(),
    ];
    let texts = vec![
        ":ID: a\n:ROAM_REFS: https://a.test\n#+TITLE: A\n".to_string(),
        ":ID: b\n#+TITLE: B\n".to_string(),
        ":ROAM_REFS: https://c.test\n#+TITLE: C\n".to_string(),
    ];
    let bms = read_bookmarks_from_notes(&names, &texts, now());
    assert_eq!(bms.len(), 1);
    assert_eq!(bms[0].id(), "a");
}

#[test]
fn rendered_note_parses_back() {
    let text = ":PROPERTIES:\n:ID: abc-1\n:END:\n:ROAM_REFS: https://r.test/x\n#+TAGS: one, two words,three\n#+TITLE: A title\n\nSome body\nmore\n";
    let node = OrgNode::parse(text, now()).unwrap();
    let rendered = node.to_org_text();
    assert_eq!(
        rendered,
        ":ID: abc-1\n:ROAM_REFS: https://r.test/x\n#+TAGS: one, two words, three\n#+TITLE: A title\nSome body\nmore\n"
    );
    let again = OrgNode::parse(&rendered, now()).unwrap();
    assert_eq!(again.id(), node.id());
    assert_eq!(again.reference(), node.reference());
    assert_eq!(again.title(), node.title());
    assert_eq!(again.tags(), node.tags());
    assert_eq!(again.content(), node.content());
}

#[test]
fn rendered_note_without_reference_or_tags() {
    let node = OrgNode::parse(":ID: z\n#+TITLE: Only a title\n", now()).unwrap();
    let rendered = node.to_org_text();
    assert_eq!(rendered, ":ID: z\n#+TITLE: Only a title\n");
    let again = OrgNode::parse(&rendered, now()).unwrap();
    assert_eq!(again.reference(), &None);
    assert!(again.tags().is_empty());
    assert_eq!(again.title(), "Only a title");
}
