//! Notes from an org-roam directory: nodes, bookmarks with their classification, and what
//! the creation time, tags and content of a note file are.
//!
//! A note looks like this:
//!
//! ```text
//! :PROPERTIES:
//! :ID:       cae71435-9f7e-41ba-84d2-cf8d85fbffa0
//! :ROAM_REFS: https://example.com/article
//! :END:
//! #+TAGS: unsorted, speech
//! #+TITLE: An article
//! Notes on the article.
//! ```

use crate::news::{ItemView, NewsItem};
use crate::org::{
    header_lines, id_line, joined, note_body, note_tags, note_text, parse_note, ref_line,
    scan_text, tag_list, tags_key, tags_line, tags_text, trimmed_body, value_after, NoteFields,
};
use crate::text::{
    char_seqs, chars_of, contains_str, has_prefix, has_prefix_ci, lines_of, opt_str, split_lines,
    split_trimmed, starts_with_ci, strs, trim, trim_bounds, trim_start_index,
};
use crate::time::{TimeView, Timestamp};
use vstd::prelude::*;

verus! {

/// Why a note yields no node or no bookmark.
#[derive(Clone, Copy, Debug, PartialEq, Eq, Structural)]
pub enum NoteError {
    /// The note has no identifier line or no title line.
    MissingRequiredField,
    /// The file name does not begin with a `YYYYMMDDhhmmss` time stamp followed by `-`, or
    /// the stamp names no single wall-clock time in the zone that notes are saved in.
    InvalidFilename,
    /// The note has no reference, so it is no bookmark.
    NoReference,
}

/// The index of the first `c` in `s`, or `s.len()` when there is none.
pub open spec fn first_index(s: Seq<char>, c: char) -> int
    decreases s.len(),
{
    if s.len() == 0 {
        0
    } else if s[0] == c {
        0
    } else {
        1 + first_index(s.drop_first(), c)
    }
}

proof fn lemma_first_index(s: Seq<char>, c: char, k: int)
    requires
        0 <= k <= s.len(),
        forall|j: int| 0 <= j < k ==> #[trigger] s[j] != c,
        k == s.len() || s[k] == c,
    ensures
        first_index(s, c) == k,
    decreases k,
{
    if k > 0 {
        lemma_first_index(s.drop_first(), c, k - 1);
    }
}

/// The part of a file name before its first `-`, if it has one.
pub open spec fn stamp_of_name(name: Seq<char>) -> Option<Seq<char>> {
    let k = first_index(name, '-');
    if k < name.len() {
        Some(name.take(k))
    } else {
        None
    }
}

pub open spec fn is_digit(c: char) -> bool {
    '0' <= c <= '9'
}

pub open spec fn digit(c: char) -> int {
    c as int - '0' as int
}

/// The number written by the two digits at `i` and `i + 1`.
pub open spec fn two_digits(p: Seq<char>, i: int) -> int {
    digit(p[i]) * 10 + digit(p[i + 1])
}

/// A stamp of exactly fourteen ASCII digits.
pub open spec fn is_stamp(p: Seq<char>) -> bool {
    p.len() == 14 && forall|i: int| 0 <= i < 14 ==> is_digit(#[trigger] p[i])
}

/// The instant that a note's file name gives: its name begins with `YYYYMMDDhhmmss-`, a
/// wall-clock time in the zone that notes are saved in.
pub open spec fn name_time(name: Seq<char>) -> Option<TimeView> {
    match stamp_of_name(name) {
        Some(p) => if is_stamp(p) {
            crate::time::source_local(
                (two_digits(p, 0) * 100 + two_digits(p, 2)) as i32,
                two_digits(p, 4) as u32,
                two_digits(p, 6) as u32,
                two_digits(p, 8) as u32,
                two_digits(p, 10) as u32,
                two_digits(p, 12) as u32,
            )
        } else {
            None
        },
        None => None,
    }
}

fn digit_at(v: &Vec<char>, i: usize) -> (r: u32)
    requires
        i < v.len(),
        is_digit(v@[i as int]),
    ensures
        r == digit(v@[i as int]),
        r <= 9,
{
    (v[i] as u32) - ('0' as u32)
}

fn two_digits_at(v: &Vec<char>, i: usize) -> (r: u32)
    requires
        i + 1 < v.len(),
        is_digit(v@[i as int]),
        is_digit(v@[i + 1]),
    ensures
        r == two_digits(v@, i as int),
        r <= 99,
{
    digit_at(v, i) * 10 + digit_at(v, i + 1)
}

/// The creation time that a note's file name gives, as `name_time` states it.
pub fn read_datetime(file_name: &str) -> (r: Result<Timestamp, NoteError>)
    ensures
        match name_time(file_name@) {
            Some(t) => r matches Ok(x) && x.view() == t,
            None => r == Err::<Timestamp, NoteError>(NoteError::InvalidFilename),
        },
{
    let name = chars_of(file_name);
    let mut k: usize = 0;
    while k < name.len() && name[k] != '-'
        invariant
            k <= name.len(),
            forall|j: int| 0 <= j < k ==> #[trigger] name@[j] != '-',
        decreases name.len() - k,
    {
        k += 1;
    }
    proof {
        lemma_first_index(name@, '-', k as int);
    }
    if k == name.len() || k != 14 {
        return Err(NoteError::InvalidFilename);
    }
    let mut i: usize = 0;
    while i < 14
        invariant
            i <= 14 < name.len(),
            forall|j: int| 0 <= j < i ==> is_digit(#[trigger] name@[j]),
            name@ == file_name@,
            first_index(name@, '-') == 14,
        decreases 14 - i,
    {
        if !('0' <= name[i] && name[i] <= '9') {
            proof {
                let p = name@.take(14);
                assert(p[i as int] == name@[i as int]);
                assert(!is_stamp(p));
                assert(stamp_of_name(file_name@) == Some(p));
            }
            return Err(NoteError::InvalidFilename);
        }
        i += 1;
    }
    let ghost p = name@.take(14);
    assert(is_stamp(p)) by {
        assert forall|j: int| 0 <= j < 14 implies is_digit(#[trigger] p[j]) by {
            assert(p[j] == name@[j]);
        }
    }
    let year = two_digits_at(&name, 0) * 100 + two_digits_at(&name, 2);
    let month = two_digits_at(&name, 4);
    let day = two_digits_at(&name, 6);
    let hour = two_digits_at(&name, 8);
    let minute = two_digits_at(&name, 10);
    let second = two_digits_at(&name, 12);
    proof {
        assert forall|j: int| 0 <= j < 14 implies p[j] == name@[j] by {}
        assert(two_digits(p, 0) == two_digits(name@, 0));
        assert(two_digits(p, 2) == two_digits(name@, 2));
        assert(two_digits(p, 4) == two_digits(name@, 4));
        assert(two_digits(p, 6) == two_digits(name@, 6));
        assert(two_digits(p, 8) == two_digits(name@, 8));
        assert(two_digits(p, 10) == two_digits(name@, 10));
        assert(two_digits(p, 12) == two_digits(name@, 12));
    }
    match Timestamp::from_source_local(year as i32, month, day, hour, minute, second) {
        Some(t) => Ok(t),
        None => Err(NoteError::InvalidFilename),
    }
}

/// A note read from its file.
#[derive(Debug, Clone)]
pub struct OrgNode {
    id: String,
    ref_: Option<String>,
    title: String,
    tags: Vec<String>,
    created: Timestamp,
    content: Option<String>,
}

/// What an `OrgNode` holds.
pub struct NodeView {
    pub id: Seq<char>,
    pub reference: Option<Seq<char>>,
    pub title: Seq<char>,
    pub tags: Seq<Seq<char>>,
    pub created: TimeView,
    pub body: Option<Seq<char>>,
}

/// The node of a note with fields `f`, created at `created`.
pub open spec fn node_of(f: NoteFields, created: TimeView) -> NodeView {
    NodeView {
        id: f.id,
        reference: f.reference,
        title: f.title,
        tags: f.tags,
        created,
        body: f.body,
    }
}

/// The node that a note file gives: its text parsed, and its creation time from its name,
/// or `now` where the name gives none.
pub open spec fn node_from_file(name: Seq<char>, text: Seq<char>, now: TimeView) -> Option<NodeView> {
    match parse_note(text) {
        Some(f) => Some(
            node_of(
                f,
                match name_time(name) {
                    Some(t) => t,
                    None => now,
                },
            ),
        ),
        None => None,
    }
}

impl OrgNode {
    pub closed spec fn view(&self) -> NodeView {
        NodeView {
            id: self.id@,
            reference: opt_str(self.ref_),
            title: self.title@,
            tags: strs(self.tags@),
            created: self.created.view(),
            body: opt_str(self.content),
        }
    }

    /// Parses the text of a note created at `created`.
    pub fn parse(text: &str, created: Timestamp) -> (r: Result<OrgNode, NoteError>)
        ensures
            match parse_note(text@) {
                Some(f) => r matches Ok(n) && n.view() == node_of(f, created.view()),
                None => r == Err::<OrgNode, NoteError>(NoteError::MissingRequiredField),
            },
    {
        let sc = scan_text(text);
        let content = trimmed_body(&sc.body);
        match (sc.id, sc.title) {
            (Some(id), Some(title)) => Ok(
                OrgNode { id, ref_: sc.reference, title, tags: sc.tags, created, content },
            ),
            _ => Err(NoteError::MissingRequiredField),
        }
    }

    /// The node of a note file named `file_name` holding `text`. Where the name gives no
    /// creation time, the note counts as created `now`.
    pub fn from_file_contents(file_name: &str, text: &str, now: Timestamp) -> (r: Result<
        OrgNode,
        NoteError,
    >)
        ensures
            match node_from_file(file_name@, text@, now.view()) {
                Some(n) => r matches Ok(x) && x.view() == n,
                None => r == Err::<OrgNode, NoteError>(NoteError::MissingRequiredField),
            },
    {
        let created = match read_datetime(file_name) {
            Ok(t) => t,
            Err(_) => now,
        };
        OrgNode::parse(text, created)
    }

    /// The node written as note text: its header lines, then its body.
    pub fn to_org_text(&self) -> (r: String)
        ensures
            r@ == note_text(self.view()),
    {
        let ghost n = self.view();
        let mut out = String::new();
        proof {
            reveal_strlit(":ID: ");
            reveal_strlit(":ROAM_REFS: ");
            reveal_strlit("#+TAGS: ");
            reveal_strlit("#+TITLE: ");
            reveal_strlit(", ");
            assert(":ID: "@ =~= seq![':', 'I', 'D', ':', ' ']);
            assert(":ROAM_REFS: "@ =~= seq![':', 'R', 'O', 'A', 'M', '_', 'R', 'E', 'F', 'S', ':', ' ']);
            assert("#+TAGS: "@ =~= seq!['#', '+', 'T', 'A', 'G', 'S', ':', ' ']);
            assert("#+TITLE: "@ =~= seq!['#', '+', 'T', 'I', 'T', 'L', 'E', ':', ' ']);
            assert(", "@ =~= seq![',', ' ']);
            assert(joined(Seq::<Seq<char>>::empty()) == Seq::<char>::empty());
        }
        out.append(":ID: ");
        out.append(self.id.as_str());
        crate::text::push_char(&mut out, '\n');
        let ghost a = seq![id_line(n.id)];
        assert(a.drop_last() == Seq::<Seq<char>>::empty());
        assert(out@ == joined(a));
        let ghost b = match n.reference {
            Some(r) => a.push(ref_line(r)),
            None => a,
        };
        match &self.ref_ {
            Some(r) => {
                out.append(":ROAM_REFS: ");
                out.append(r.as_str());
                crate::text::push_char(&mut out, '\n');
                assert(b.drop_last() == a);
            },
            None => {},
        }
        assert(out@ == joined(b));
        let ghost c = if n.tags.len() > 0 {
            b.push(tags_line(n.tags))
        } else {
            b
        };
        if self.tags.len() > 0 {
            out.append("#+TAGS: ");
            let ghost start = out@;
            out.append(self.tags[0].as_str());
            assert(strs(self.tags@).take(1) =~= seq![self.tags@[0]@]);
            let mut i: usize = 1;
            while i < self.tags.len()
                invariant
                    1 <= i <= self.tags.len(),
                    ", "@ == seq![',', ' '],
                    out@ == start + tags_text(strs(self.tags@).take(i as int)),
                decreases self.tags.len() - i,
            {
                proof {
                    let t = strs(self.tags@);
                    assert(t.take(i + 1).drop_last() == t.take(i as int));
                    assert(t.take(i + 1).last() == self.tags@[i as int]@);
                }
                let ghost prev = out@;
                out.append(", ");
                out.append(self.tags[i].as_str());
                proof {
                    let t = strs(self.tags@);
                    assert(tags_text(t.take(i + 1)) == tags_text(t.take(i as int)) + seq![',', ' ']
                        + t[i as int]);
                    assert(out@ =~= prev + seq![',', ' '] + t[i as int]);
                }
                i += 1;
            }
            assert(strs(self.tags@).take(self.tags.len() as int) == n.tags);
            crate::text::push_char(&mut out, '\n');
            assert(c.drop_last() == b);
        }
        assert(out@ == joined(c));
        out.append("#+TITLE: ");
        out.append(self.title.as_str());
        crate::text::push_char(&mut out, '\n');
        assert(header_lines(n).drop_last() == c);
        assert(out@ == joined(header_lines(n)));
        match &self.content {
            Some(body) => {
                out.append(body.as_str());
                crate::text::push_char(&mut out, '\n');
            },
            None => {},
        }
        out
    }

    pub fn id(&self) -> (r: &String)
        ensures
            r@ == self.view().id,
    {
        &self.id
    }

    pub fn reference(&self) -> (r: &Option<String>)
        ensures
            opt_str(*r) == self.view().reference,
    {
        &self.ref_
    }

    pub fn title(&self) -> (r: &String)
        ensures
            r@ == self.view().title,
    {
        &self.title
    }

    pub fn tags(&self) -> (r: &Vec<String>)
        ensures
            strs(r@) == self.view().tags,
    {
        &self.tags
    }

    pub fn created(&self) -> (r: Timestamp)
        ensures
            r.view() == self.view().created,
    {
        self.created
    }

    pub fn content(&self) -> (r: &Option<String>)
        ensures
            opt_str(*r) == self.view().body,
    {
        &self.content
    }
}

/// A note with a reference: a saved link.
#[derive(Debug, Clone)]
pub struct Bookmark {
    id: String,
    ref_: String,
    title: String,
    tags: Vec<String>,
    created: Timestamp,
    content: Option<String>,
}

/// What a `Bookmark` holds.
pub struct BookmarkView {
    pub id: Seq<char>,
    pub reference: Seq<char>,
    pub title: Seq<char>,
    pub tags: Seq<Seq<char>>,
    pub created: TimeView,
    pub body: Option<Seq<char>>,
}

/// The bookmark of a node, when it has a reference.
pub open spec fn bookmark_of(n: NodeView) -> Option<BookmarkView> {
    match n.reference {
        Some(r) => Some(
            BookmarkView {
                id: n.id,
                reference: r,
                title: n.title,
                tags: n.tags,
                created: n.created,
                body: n.body,
            },
        ),
        None => None,
    }
}

/// The feed item of a bookmark.
pub open spec fn item_of_bookmark(b: BookmarkView) -> ItemView {
    ItemView {
        id: b.id,
        link: b.reference,
        title: b.title,
        summary: b.body,
        published: b.created,
        updated: b.created,
        authors: Seq::empty(),
        categories: b.tags,
    }
}

/// Tagged `unsorted`: not read or triaged yet.
pub open spec fn unread(b: BookmarkView) -> bool {
    b.tags.contains("unsorted"@)
}

/// Tagged `project`, or a link into GitHub.
pub open spec fn project(b: BookmarkView) -> bool {
    b.tags.contains("project"@) || crate::text::starts_with(b.reference, "https://github.com"@)
}

/// Tagged `recommend`, and no longer unread.
pub open spec fn recommended(b: BookmarkView) -> bool {
    b.tags.contains("recommend"@) && !unread(b)
}

/// The tags of the first tags line among `lines`, or none.
pub open spec fn first_tags(lines: Seq<Seq<char>>) -> Seq<Seq<char>>
    decreases lines.len(),
{
    if lines.len() == 0 {
        Seq::empty()
    } else if starts_with_ci(lines[0], tags_key()) {
        tag_list(value_after(lines[0], tags_key()))
    } else {
        first_tags(lines.drop_first())
    }
}

/// A line that may open a note before its content: blank, or after trimming beginning with
/// `#` or `:`.
pub open spec fn is_preamble(line: Seq<char>) -> bool {
    let t = trim(line);
    t.len() == 0 || t[0] == '#' || t[0] == ':'
}

/// The content of a note's lines: all lines from the first that is no preamble line.
pub open spec fn content_of(lines: Seq<Seq<char>>) -> Seq<char>
    decreases lines.len(),
{
    if lines.len() == 0 {
        Seq::empty()
    } else if is_preamble(lines[0]) {
        content_of(lines.drop_first())
    } else {
        joined(lines)
    }
}

/// The tags of a note's text: those of its first tags line, wherever it stands.
pub fn read_tags(text: &str) -> (r: Vec<String>)
    ensures
        strs(r@) == first_tags(lines_of(text@)),
{
    let chars = chars_of(text);
    let lines = split_lines(&chars);
    let tags_k = vec!['#', '+', 't', 'a', 'g', 's', ':'];
    assert(tags_k@ == tags_key());
    let ghost all = char_seqs(lines@);
    assert(all.skip(0) == all);
    let mut i: usize = 0;
    while i < lines.len()
        invariant
            i <= lines.len(),
            all == char_seqs(lines@),
            all == lines_of(text@),
            tags_k@ == tags_key(),
            first_tags(all) == first_tags(all.skip(i as int)),
        decreases lines.len() - i,
    {
        assert(all.skip(i as int)[0] == lines@[i as int]@);
        assert(all.skip(i as int).drop_first() == all.skip(i + 1));
        if has_prefix_ci(&lines[i], &tags_k) {
            let line = &lines[i];
            let a = trim_start_index(line, tags_k.len());
            assert(line@.skip(tags_k.len() as int) == line@.subrange(
                tags_k.len() as int,
                line.len() as int,
            ));
            return split_trimmed(line, a, line.len(), ',');
        }
        i += 1;
    }
    assert(all.skip(i as int).len() == 0);
    let r: Vec<String> = Vec::new();
    assert(strs(r@) =~= Seq::<Seq<char>>::empty());
    r
}

fn preamble_line(line: &Vec<char>) -> (r: bool)
    ensures
        r == is_preamble(line@),
{
    let (a, b) = trim_bounds(line, 0, line.len());
    assert(line@.subrange(0, line.len() as int) == line@);
    a == b || line[a] == '#' || line[a] == ':'
}

proof fn lemma_joined_push(lines: Seq<Seq<char>>, k: int, i: int)
    requires
        0 <= k <= i < lines.len(),
    ensures
        joined(lines.subrange(k, i + 1)) == joined(lines.subrange(k, i)) + lines[i].push('\n'),
{
    assert(lines.subrange(k, i + 1).drop_last() == lines.subrange(k, i));
}

/// Appends `line` and a `\n` to `out`.
fn append_line(out: &mut String, line: &Vec<char>)
    ensures
        final(out)@ == old(out)@ + line@.push('\n'),
{
    let ghost before = out@;
    let mut j: usize = 0;
    while j < line.len()
        invariant
            j <= line.len(),
            out@ == before + line@.take(j as int),
        decreases line.len() - j,
    {
        crate::text::push_char(out, line[j]);
        assert(line@.take(j + 1) == line@.take(j as int).push(line@[j as int]));
        j += 1;
    }
    crate::text::push_char(out, '\n');
    assert(line@.take(line.len() as int) == line@);
    assert(out@ =~= before + line@.push('\n'));
}

/// The content of a note's text: every line from the first one that is no preamble line,
/// each followed by `\n`.
pub fn read_content(text: &str) -> (r: String)
    ensures
        r@ == content_of(lines_of(text@)),
{
    let chars = chars_of(text);
    let lines = split_lines(&chars);
    let ghost all = char_seqs(lines@);
    let mut content = String::new();
    let mut in_content = false;
    let ghost mut k: int = 0;
    assert(all.skip(0) == all);
    let mut i: usize = 0;
    while i < lines.len()
        invariant
            i <= lines.len(),
            all == char_seqs(lines@),
            all == lines_of(text@),
            !in_content ==> content@.len() == 0 && content_of(all) == content_of(all.skip(i as int)),
            in_content ==> 0 <= k <= i && content_of(all) == joined(all.skip(k))
                && content@ == joined(all.subrange(k, i as int)),
        decreases lines.len() - i,
    {
        let line = &lines[i];
        assert(all[i as int] == line@);
        if !in_content {
            assert(all.skip(i as int)[0] == line@);
            assert(all.skip(i as int).drop_first() == all.skip(i + 1));
            if preamble_line(line) {
                i += 1;
                continue;
            }
            in_content = true;
            proof {
                k = i as int;
                assert(all.subrange(k, k) =~= Seq::<Seq<char>>::empty());
            }
        }
        proof {
            lemma_joined_push(all, k, i as int);
        }
        append_line(&mut content, line);
        i += 1;
    }
    proof {
        if in_content {
            assert(all.subrange(k, all.len() as int) == all.skip(k));
        } else {
            assert(all.skip(i as int).len() == 0);
        }
    }
    content
}

impl Bookmark {
    pub closed spec fn view(&self) -> BookmarkView {
        BookmarkView {
            id: self.id@,
            reference: self.ref_@,
            title: self.title@,
            tags: strs(self.tags@),
            created: self.created.view(),
            body: opt_str(self.content),
        }
    }

    /// The bookmark of a node, which must have a reference.
    pub fn from_org_node(node: &OrgNode) -> (r: Result<Bookmark, NoteError>)
        ensures
            match bookmark_of(node.view()) {
                Some(b) => r matches Ok(x) && x.view() == b,
                None => r == Err::<Bookmark, NoteError>(NoteError::NoReference),
            },
    {
        match &node.ref_ {
            Some(reference) => Ok(
                Bookmark {
                    id: node.id.clone(),
                    ref_: reference.clone(),
                    title: node.title.clone(),
                    tags: clone_strings(&node.tags),
                    created: node.created,
                    content: clone_opt(&node.content),
                },
            ),
            None => Err(NoteError::NoReference),
        }
    }

    /// A bookmark from a row of the org-roam index: its identifier, reference and title come
    /// from the row; its tags and body from the text of its file, as the note parser reads
    /// them; its creation time from the file's name, or `now`.
    pub fn from_index_row(
        id: String,
        reference: String,
        title: String,
        file_name: &str,
        text: &str,
        now: Timestamp,
    ) -> (r: Bookmark)
        ensures
            r.view() == (BookmarkView {
                id: id@,
                reference: reference@,
                title: title@,
                tags: note_tags(text@),
                created: match name_time(file_name@) {
                    Some(t) => t,
                    None => now.view(),
                },
                body: note_body(text@),
            }),
    {
        let sc = scan_text(text);
        let content = trimmed_body(&sc.body);
        let created = match read_datetime(file_name) {
            Ok(t) => t,
            Err(_) => now,
        };
        Bookmark { id, ref_: reference, title, tags: sc.tags, created, content }
    }

    /// The feed item of a bookmark. Its publication and update times are both when the
    /// bookmark was saved, which is all that is known of them.
    pub fn to_newsitem(&self) -> (r: NewsItem)
        ensures
            r.view() == item_of_bookmark(self.view()),
    {
        let r = NewsItem {
            id: self.id.clone(),
            link: self.ref_.clone(),
            title: self.title.clone(),
            summary: clone_opt(&self.content),
            published: self.created,
            updated: self.created,
            authors: Vec::new(),
            categories: clone_strings(&self.tags),
        };
        assert(crate::news::authors_view(r.authors@) =~= Seq::empty());
        r
    }

    /// Tagged `unsorted`.
    pub fn is_unread(&self) -> (r: bool)
        ensures
            r == unread(self.view()),
    {
        contains_str(&self.tags, "unsorted")
    }

    /// Tagged `project`, or a link into GitHub.
    pub fn is_project(&self) -> (r: bool)
        ensures
            r == project(self.view()),
    {
        if contains_str(&self.tags, "project") {
            true
        } else {
            let reference = chars_of(self.ref_.as_str());
            let prefix = chars_of("https://github.com");
            has_prefix(&reference, &prefix)
        }
    }

    /// Tagged `recommend` and no longer unread.
    pub fn is_recommended(&self) -> (r: bool)
        ensures
            r == recommended(self.view()),
    {
        contains_str(&self.tags, "recommend") && !self.is_unread()
    }

    pub fn id(&self) -> (r: &String)
        ensures
            r@ == self.view().id,
    {
        &self.id
    }

    pub fn reference(&self) -> (r: &String)
        ensures
            r@ == self.view().reference,
    {
        &self.ref_
    }

    pub fn title(&self) -> (r: &String)
        ensures
            r@ == self.view().title,
    {
        &self.title
    }

    pub fn tags(&self) -> (r: &Vec<String>)
        ensures
            strs(r@) == self.view().tags,
    {
        &self.tags
    }

    pub fn created(&self) -> (r: Timestamp)
        ensures
            r.view() == self.view().created,
    {
        self.created
    }

    pub fn content(&self) -> (r: &Option<String>)
        ensures
            opt_str(*r) == self.view().body,
    {
        &self.content
    }
}

/// A copy of a list of strings.
pub fn clone_strings(v: &Vec<String>) -> (r: Vec<String>)
    ensures
        strs(r@) == strs(v@),
{
    let mut r: Vec<String> = Vec::new();
    let mut i: usize = 0;
    while i < v.len()
        invariant
            i <= v.len(),
            strs(r@) == strs(v@.take(i as int)),
        decreases v.len() - i,
    {
        let s = v[i].clone();
        let ghost before = r@;
        r.push(s);
        assert(strs(r@) =~= strs(before).push(s@));
        assert(strs(v@.take(i + 1)) =~= strs(v@.take(i as int)).push(v@[i as int]@));
        i += 1;
    }
    assert(v@.take(v.len() as int) == v@);
    r
}

/// A copy of an optional string.
pub fn clone_opt(s: &Option<String>) -> (r: Option<String>)
    ensures
        opt_str(r) == opt_str(*s),
{
    match s {
        Some(t) => Some(t.clone()),
        None => None,
    }
}

/// The bookmark of a note file named `file_name` holding `text`.
pub fn read_bookmark_from_file(file_name: &str, text: &str, now: Timestamp) -> (r: Result<
    Bookmark,
    NoteError,
>)
    ensures
        match node_from_file(file_name@, text@, now.view()) {
            Some(n) => match bookmark_of(n) {
                Some(b) => r matches Ok(x) && x.view() == b,
                None => r == Err::<Bookmark, NoteError>(NoteError::NoReference),
            },
            None => r == Err::<Bookmark, NoteError>(NoteError::MissingRequiredField),
        },
{
    let node = OrgNode::from_file_contents(file_name, text, now)?;
    Bookmark::from_org_node(&node)
}

/// What `read_bookmark_from_file` gives for a note file, as a bookmark if it gives one.
pub open spec fn bookmark_from_file(name: Seq<char>, text: Seq<char>, now: TimeView) -> Option<
    BookmarkView,
> {
    match node_from_file(name, text, now) {
        Some(n) => bookmark_of(n),
        None => None,
    }
}

/// The bookmarks of the first `n` note files, in order, skipping files that give none.
pub open spec fn bookmarks_from_files(
    names: Seq<Seq<char>>,
    texts: Seq<Seq<char>>,
    now: TimeView,
    n: int,
) -> Seq<BookmarkView>
    decreases n,
{
    if n <= 0 {
        Seq::empty()
    } else {
        let rest = bookmarks_from_files(names, texts, now, n - 1);
        match bookmark_from_file(names[n - 1], texts[n - 1], now) {
            Some(b) => rest.push(b),
            None => rest,
        }
    }
}

/// The bookmarks of a directory's note files, named `names` and holding `texts`; files that
/// are no notes, or have no reference, are skipped.
pub fn read_bookmarks_from_notes(names: &Vec<String>, texts: &Vec<String>, now: Timestamp) -> (r:
    Vec<Bookmark>)
    requires
        names.len() == texts.len(),
    ensures
        r@.map_values(|b: Bookmark| b.view()) == bookmarks_from_files(
            strs(names@),
            strs(texts@),
            now.view(),
            names.len() as int,
        ),
{
    let mut out: Vec<Bookmark> = Vec::new();
    let mut i: usize = 0;
    while i < names.len()
        invariant
            i <= names.len() == texts.len(),
            out@.map_values(|b: Bookmark| b.view()) == bookmarks_from_files(
                strs(names@),
                strs(texts@),
                now.view(),
                i as int,
            ),
        decreases names.len() - i,
    {
        assert(strs(names@)[i as int] == names@[i as int]@);
        assert(strs(texts@)[i as int] == texts@[i as int]@);
        match read_bookmark_from_file(names[i].as_str(), texts[i].as_str(), now) {
            Ok(b) => {
                let ghost before = out@;
                out.push(b);
                assert(out@.map_values(|b: Bookmark| b.view()) =~= before.map_values(
                    |b: Bookmark| b.view(),
                ).push(b.view()));
            },
            Err(_) => {},
        }
        i += 1;
    }
    out
}

/// A recommended bookmark is never unread, whatever its tags.
pub proof fn lemma_recommended_is_read(b: BookmarkView)
    ensures
        unread(b) ==> !recommended(b),
        recommended(b) ==> b.tags.contains("recommend"@),
{
}

} // verus!
