//! The syntax of an org note: header lines, the line scanner that reads a note, and the
//! note text that a node is written back as.
//!
//! A note begins with a header of property and keyword lines and continues, after its
//! `#+TITLE:` line, with a free-form body. Header keys are matched without regard to case; the
//! value of a header line is what follows its key, without leading white space. Lines of the
//! header with no known key are ignored.

use crate::pile::NodeView;
use crate::text::{
    trim_end, char_seqs, chars_of, ci_char_eq, has_prefix_ci, is_space, lines_of, opt_str, split_lines,
    split_on, split_trimmed, starts_with_ci, string_of_range, strip_cr, strs, trim, trim_start,
    trim_start_index,
};
use vstd::prelude::*;

verus! {

/// The key of an identifier line, `:ID:`, in lower case.
pub open spec fn id_key() -> Seq<char> {
    seq![':', 'i', 'd', ':']
}

/// The key of a reference line, `:ROAM_REFS:`, in lower case.
pub open spec fn ref_key() -> Seq<char> {
    seq![':', 'r', 'o', 'a', 'm', '_', 'r', 'e', 'f', 's', ':']
}

/// The key of a tags line, `#+TAGS:`, in lower case.
pub open spec fn tags_key() -> Seq<char> {
    seq!['#', '+', 't', 'a', 'g', 's', ':']
}

/// The key of a title line, `#+TITLE:`, in lower case.
pub open spec fn title_key() -> Seq<char> {
    seq!['#', '+', 't', 'i', 't', 'l', 'e', ':']
}

/// The value of a header line: what follows its key, without leading white space.
pub open spec fn value_after(line: Seq<char>, key: Seq<char>) -> Seq<char> {
    trim_start(line.skip(key.len() as int))
}

/// The tags of a tags value: split at commas, each trimmed.
pub open spec fn tag_list(value: Seq<char>) -> Seq<Seq<char>> {
    split_on(value, ',').map_values(|t: Seq<char>| trim(t))
}

/// What a line of the header says.
pub enum HeaderLine {
    Id(Seq<char>),
    Reference(Seq<char>),
    Tags(Seq<Seq<char>>),
    Title(Seq<char>),
    Other,
}

/// The kind of a header line, by its key, ignoring case.
pub open spec fn classify(line: Seq<char>) -> HeaderLine {
    if starts_with_ci(line, id_key()) {
        HeaderLine::Id(value_after(line, id_key()))
    } else if starts_with_ci(line, ref_key()) {
        HeaderLine::Reference(value_after(line, ref_key()))
    } else if starts_with_ci(line, tags_key()) {
        HeaderLine::Tags(tag_list(value_after(line, tags_key())))
    } else if starts_with_ci(line, title_key()) {
        HeaderLine::Title(value_after(line, title_key()))
    } else {
        HeaderLine::Other
    }
}

/// The state of the line scanner: the fields read so far, whether the title has been seen
/// (after which every line is body), and the body so far, one `\n` after each line.
pub struct NoteScan {
    pub in_body: bool,
    pub id: Option<Seq<char>>,
    pub reference: Option<Seq<char>>,
    pub tags: Seq<Seq<char>>,
    pub title: Option<Seq<char>>,
    pub body: Seq<char>,
}

pub open spec fn scan_start() -> NoteScan {
    NoteScan {
        in_body: false,
        id: None,
        reference: None,
        tags: Seq::empty(),
        title: None,
        body: Seq::empty(),
    }
}

/// One line through the scanner. In the header a later line of a kind replaces an earlier
/// one, lines of no kind are ignored, and the title line ends the header; in the body each
/// line is kept verbatim.
pub open spec fn scan_step(st: NoteScan, line: Seq<char>) -> NoteScan {
    if st.in_body {
        NoteScan { body: st.body + line.push('\n'), ..st }
    } else {
        match classify(line) {
            HeaderLine::Id(v) => NoteScan { id: Some(v), ..st },
            HeaderLine::Reference(v) => NoteScan { reference: Some(v), ..st },
            HeaderLine::Tags(t) => NoteScan { tags: t, ..st },
            HeaderLine::Title(v) => NoteScan { title: Some(v), in_body: true, ..st },
            HeaderLine::Other => st,
        }
    }
}

/// The scanner's state after `lines`, in order.
pub open spec fn scan_lines(lines: Seq<Seq<char>>) -> NoteScan
    decreases lines.len(),
{
    if lines.len() == 0 {
        scan_start()
    } else {
        scan_step(scan_lines(lines.drop_last()), lines.last())
    }
}

/// What a note says, apart from when it was created.
pub struct NoteFields {
    pub id: Seq<char>,
    pub reference: Option<Seq<char>>,
    pub title: Seq<char>,
    pub tags: Seq<Seq<char>>,
    pub body: Option<Seq<char>>,
}

/// A body trimmed of white space, absent when nothing is left.
pub open spec fn body_of(raw: Seq<char>) -> Option<Seq<char>> {
    if trim(raw).len() == 0 {
        None
    } else {
        Some(trim(raw))
    }
}

/// The fields of the note `text`, or `None` when it has no identifier or no title.
pub open spec fn parse_note(text: Seq<char>) -> Option<NoteFields> {
    let st = scan_lines(lines_of(text));
    if st.id is Some && st.title is Some {
        Some(
            NoteFields {
                id: st.id->0,
                reference: st.reference,
                title: st.title->0,
                tags: st.tags,
                body: body_of(st.body),
            },
        )
    } else {
        None
    }
}

/// The phase of the line scanner.
pub(crate) enum ScanPhase {
    ScanningHeader,
    ScanningBody,
}

/// The line scanner's state while it runs.
pub(crate) struct Scanner {
    pub(crate) phase: ScanPhase,
    pub(crate) id: Option<String>,
    pub(crate) reference: Option<String>,
    pub(crate) tags: Vec<String>,
    pub(crate) title: Option<String>,
    pub(crate) body: Vec<char>,
}

impl Scanner {
    pub(crate) open spec fn view(&self) -> NoteScan {
        NoteScan {
            in_body: self.phase is ScanningBody,
            id: opt_str(self.id),
            reference: opt_str(self.reference),
            tags: strs(self.tags@),
            title: opt_str(self.title),
            body: self.body@,
        }
    }

    fn new() -> (r: Scanner)
        ensures
            r.view() == scan_start(),
    {
        let r = Scanner {
            phase: ScanPhase::ScanningHeader,
            id: None,
            reference: None,
            tags: Vec::new(),
            title: None,
            body: Vec::new(),
        };
        assert(strs(r.tags@) =~= Seq::<Seq<char>>::empty());
        r
    }

    /// The value of a header line whose key is `key_len` characters long.
    fn value(line: &Vec<char>, key_len: usize) -> (r: String)
        requires
            key_len <= line.len(),
        ensures
            r@ == trim_start(line@.skip(key_len as int)),
    {
        let a = trim_start_index(line, key_len);
        assert(line@.skip(key_len as int) == line@.subrange(key_len as int, line.len() as int));
        string_of_range(line, a, line.len())
    }

    fn step(&mut self, line: &Vec<char>)
        ensures
            final(self).view() == scan_step(old(self).view(), line@),
    {
        if let ScanPhase::ScanningBody = self.phase {
            let ghost before = self.body@;
            let mut i: usize = 0;
            while i < line.len()
                invariant
                    i <= line.len(),
                    self.body@ == before + line@.take(i as int),
                    self.view() == (NoteScan { body: self.body@, ..old(self).view() }),
                decreases line.len() - i,
            {
                self.body.push(line[i]);
                assert(line@.take(i + 1) == line@.take(i as int).push(line@[i as int]));
                i += 1;
            }
            self.body.push('\n');
            assert(line@.take(line.len() as int) == line@);
            assert(self.body@ =~= before + line@.push('\n'));
            return ;
        }
        let id_k = vec![':', 'i', 'd', ':'];
        let ref_k = vec![':', 'r', 'o', 'a', 'm', '_', 'r', 'e', 'f', 's', ':'];
        let tags_k = vec!['#', '+', 't', 'a', 'g', 's', ':'];
        let title_k = vec!['#', '+', 't', 'i', 't', 'l', 'e', ':'];
        assert(id_k@ == id_key());
        assert(ref_k@ == ref_key());
        assert(tags_k@ == tags_key());
        assert(title_k@ == title_key());
        if has_prefix_ci(line, &id_k) {
            self.id = Some(Scanner::value(line, id_k.len()));
        } else if has_prefix_ci(line, &ref_k) {
            self.reference = Some(Scanner::value(line, ref_k.len()));
        } else if has_prefix_ci(line, &tags_k) {
            let a = trim_start_index(line, tags_k.len());
            assert(line@.skip(tags_k.len() as int) == line@.subrange(
                tags_k.len() as int,
                line.len() as int,
            ));
            self.tags = split_trimmed(line, a, line.len(), ',');
        } else if has_prefix_ci(line, &title_k) {
            self.title = Some(Scanner::value(line, title_k.len()));
            self.phase = ScanPhase::ScanningBody;
        }
    }
}

/// The tags that the note parser reads from `text`: those of the last tags line of its header.
pub open spec fn note_tags(text: Seq<char>) -> Seq<Seq<char>> {
    scan_lines(lines_of(text)).tags
}

/// The body that the note parser reads from `text`: the lines after its title line, trimmed,
/// and absent when nothing is left.
pub open spec fn note_body(text: Seq<char>) -> Option<Seq<char>> {
    body_of(scan_lines(lines_of(text)).body)
}

/// A scanned body, trimmed, and absent when nothing is left.
pub(crate) fn trimmed_body(body: &Vec<char>) -> (r: Option<String>)
    ensures
        opt_str(r) == body_of(body@),
{
    let (a, b) = crate::text::trim_bounds(body, 0, body.len());
    assert(body@.subrange(0, body.len() as int) == body@);
    if a == b {
        None
    } else {
        Some(string_of_range(body, a, b))
    }
}

/// Scans the lines of `text`.
pub(crate) fn scan_text(text: &str) -> (r: Scanner)
    ensures
        r.view() == scan_lines(lines_of(text@)),
{
    let chars = chars_of(text);
    let lines = split_lines(&chars);
    let mut sc = Scanner::new();
    let mut i: usize = 0;
    while i < lines.len()
        invariant
            i <= lines.len(),
            char_seqs(lines@) == lines_of(text@),
            sc.view() == scan_lines(char_seqs(lines@).take(i as int)),
        decreases lines.len() - i,
    {
        proof {
            let l = char_seqs(lines@);
            assert(l.take(i + 1).drop_last() == l.take(i as int));
            assert(l.take(i + 1).last() == lines@[i as int]@);
        }
        sc.step(&lines[i]);
        i += 1;
    }
    assert(char_seqs(lines@).take(lines.len() as int) == char_seqs(lines@));
    sc
}

/// The lines joined, each followed by `\n`.
pub open spec fn joined(lines: Seq<Seq<char>>) -> Seq<char>
    decreases lines.len(),
{
    if lines.len() == 0 {
        Seq::empty()
    } else {
        joined(lines.drop_last()) + lines.last().push('\n')
    }
}

/// Tags written on one line, separated by `", "`.
pub open spec fn tags_text(tags: Seq<Seq<char>>) -> Seq<char>
    decreases tags.len(),
{
    if tags.len() == 0 {
        Seq::empty()
    } else if tags.len() == 1 {
        tags[0]
    } else {
        tags_text(tags.drop_last()) + seq![',', ' '] + tags.last()
    }
}

pub open spec fn id_line(id: Seq<char>) -> Seq<char> {
    seq![':', 'I', 'D', ':', ' '] + id
}

pub open spec fn ref_line(r: Seq<char>) -> Seq<char> {
    seq![':', 'R', 'O', 'A', 'M', '_', 'R', 'E', 'F', 'S', ':', ' '] + r
}

pub open spec fn tags_line(tags: Seq<Seq<char>>) -> Seq<char> {
    seq!['#', '+', 'T', 'A', 'G', 'S', ':', ' '] + tags_text(tags)
}

pub open spec fn title_line(title: Seq<char>) -> Seq<char> {
    seq!['#', '+', 'T', 'I', 'T', 'L', 'E', ':', ' '] + title
}

/// The header lines of a node: identifier, reference if any, tags if any, and title last.
pub open spec fn header_lines(n: NodeView) -> Seq<Seq<char>> {
    let a = seq![id_line(n.id)];
    let b = match n.reference {
        Some(r) => a.push(ref_line(r)),
        None => a,
    };
    let c = if n.tags.len() > 0 {
        b.push(tags_line(n.tags))
    } else {
        b
    };
    c.push(title_line(n.title))
}

/// The text of a note for a node: its header lines, then its body, each line ending in `\n`.
pub open spec fn note_text(n: NodeView) -> Seq<char> {
    joined(header_lines(n)) + match n.body {
        Some(b) => b.push('\n'),
        None => Seq::empty(),
    }
}

/// A field that reads back as written: on one line, not starting with white space, and not
/// ending in a carriage return (which would read as part of a `\r\n` line ending).
pub open spec fn plain_field(s: Seq<char>) -> bool {
    &&& forall|i: int| 0 <= i < s.len() ==> #[trigger] s[i] != '\n'
    &&& s.len() == 0 || !is_space(s[0])
    &&& s.len() == 0 || s.last() != '\r'
}

/// A tag that reads back as written: a plain field without commas or surrounding white space.
pub open spec fn plain_tag(t: Seq<char>) -> bool {
    &&& plain_field(t)
    &&& forall|i: int| 0 <= i < t.len() ==> #[trigger] t[i] != ','
    &&& trim(t) == t
}

/// A node whose header fields read back as written.
pub open spec fn plain_node(n: NodeView) -> bool {
    &&& plain_field(n.id)
    &&& plain_field(n.title)
    &&& (n.reference matches Some(r) ==> plain_field(r))
    &&& forall|i: int| 0 <= i < n.tags.len() ==> plain_tag(#[trigger] n.tags[i])
}

proof fn lemma_value_after(key: Seq<char>, lead: Seq<char>, v: Seq<char>)
    requires
        lead.len() == key.len() + 1,
        lead.last() == ' ',
        plain_field(v),
    ensures
        value_after(lead + v, key) == v,
{
    let line = lead + v;
    assert(line.skip(key.len() as int) =~= seq![' '] + v);
    assert((seq![' '] + v).drop_first() == v);
    let w = seq![' '] + v;
    assert(is_space(w[0]));
    assert(w.drop_first() == v);
    assert(trim_start(w) == trim_start(v));
    if v.len() > 0 {
        assert(trim_start(v) == v);
    } else {
        assert(trim_start(v) == v);
    }
}

proof fn lemma_lines_of_joined(hs: Seq<Seq<char>>, rest: Seq<char>)
    requires
        forall|k: int, i: int|
            0 <= k < hs.len() && 0 <= i < hs[k].len() ==> #[trigger] hs[k][i] != '\n',
    ensures
        lines_of(joined(hs) + rest) == hs.map_values(|l: Seq<char>| strip_cr(l))
            + lines_of(rest),
    decreases hs.len(),
{
    if hs.len() == 0 {
        assert(joined(hs) + rest == rest);
        assert(hs.map_values(|l: Seq<char>| strip_cr(l)) + lines_of(rest) =~= lines_of(
            rest,
        ));
    } else {
        let h = hs.last();
        let hs0 = hs.drop_last();
        assert forall|i: int| 0 <= i < h.len() implies #[trigger] h[i] != '\n' by {
            assert(hs[hs.len() - 1][i] != '\n');
        }
        lemma_lines_of_joined(hs0, h.push('\n') + rest);
        assert(joined(hs) + rest == joined(hs0) + (h.push('\n') + rest));
        crate::text::lemma_lines_of_cons(h, rest);
        assert(hs.map_values(|l: Seq<char>| strip_cr(l)) =~= hs0.map_values(
            |l: Seq<char>| strip_cr(l),
        ).push(strip_cr(h)));
        assert(lines_of(joined(hs) + rest) =~= hs.map_values(
            |l: Seq<char>| strip_cr(l),
        ) + lines_of(rest));
    }
}

proof fn lemma_scan_after_title(a: Seq<Seq<char>>, b: Seq<Seq<char>>)
    requires
        scan_lines(a).in_body,
    ensures
        scan_lines(a + b).in_body,
        scan_lines(a + b).body == scan_lines(a).body + joined(b),
        scan_lines(a + b).id == scan_lines(a).id,
        scan_lines(a + b).reference == scan_lines(a).reference,
        scan_lines(a + b).tags == scan_lines(a).tags,
        scan_lines(a + b).title == scan_lines(a).title,
    decreases b.len(),
{
    if b.len() == 0 {
        assert(a + b == a);
        assert(scan_lines(a).body + joined(b) == scan_lines(a).body);
    } else {
        lemma_scan_after_title(a, b.drop_last());
        assert((a + b).drop_last() == a + b.drop_last());
        assert((a + b).last() == b.last());
        assert(scan_lines(a).body + joined(b.drop_last()) + b.last().push('\n') == scan_lines(a).body
            + joined(b));
    }
}

proof fn lemma_split_tags(tags: Seq<Seq<char>>)
    requires
        tags.len() >= 1,
        forall|k: int, i: int|
            0 <= k < tags.len() && 0 <= i < tags[k].len() ==> #[trigger] tags[k][i] != ',',
    ensures
        split_on(tags_text(tags), ',').len() == tags.len(),
        split_on(tags_text(tags), ',')[0] == tags[0],
        forall|k: int|
            1 <= k < tags.len() ==> #[trigger] split_on(tags_text(tags), ',')[k] == seq![' ']
                + tags[k],
    decreases tags.len(),
{
    if tags.len() == 1 {
        assert forall|i: int| 0 <= i < tags[0].len() implies #[trigger] tags[0][i] != ',' by {
            assert(tags[0][i] != ',');
        }
        crate::text::lemma_split_on_single(tags[0], ',');
    } else {
        let t0 = tags.drop_last();
        let last = tags.last();
        assert forall|k: int, i: int|
            0 <= k < t0.len() && 0 <= i < t0[k].len() implies #[trigger] t0[k][i] != ',' by {
            assert(tags[k][i] != ',');
        }
        lemma_split_tags(t0);
        let tail = seq![' '] + last;
        assert forall|i: int| 0 <= i < tail.len() implies #[trigger] tail[i] != ',' by {
            if i > 0 {
                assert(tail[i] == tags[tags.len() - 1][i - 1]);
            }
        }
        crate::text::lemma_split_on_single(tail, ',');
        assert(tags_text(t0) + seq![',', ' '] + last == tags_text(t0).push(',') + tail);
        crate::text::lemma_split_on_concat(tags_text(t0), tail, ',');
    }
}

proof fn lemma_tag_list_round_trip(tags: Seq<Seq<char>>)
    requires
        tags.len() >= 1,
        forall|i: int| 0 <= i < tags.len() ==> plain_tag(#[trigger] tags[i]),
    ensures
        tag_list(tags_text(tags)) == tags,
{
    assert forall|k: int, i: int|
        0 <= k < tags.len() && 0 <= i < tags[k].len() implies #[trigger] tags[k][i] != ',' by {
        assert(plain_tag(tags[k]));
    }
    lemma_split_tags(tags);
    let p = split_on(tags_text(tags), ',');
    assert forall|k: int| 0 <= k < tags.len() implies trim(#[trigger] p[k]) == tags[k] by {
        assert(plain_tag(tags[k]));
        if k > 0 {
            assert(is_space(' '));
            assert((seq![' '] + tags[k]).drop_first() == tags[k]);
            assert(trim_start(seq![' '] + tags[k]) == trim_start(tags[k]));
        }
    }
    assert(tag_list(tags_text(tags)) =~= tags);
}

/// A body that reads back as written: not empty, without white space at either end, and
/// without a `\r\n` line ending, whose `\r` would be dropped.
pub open spec fn plain_body(b: Seq<char>) -> bool {
    &&& b.len() > 0
    &&& trim(b) == b
    &&& forall|i: int| 0 <= i < b.len() - 1 ==> !(#[trigger] b[i] == '\r' && b[i + 1] == '\n')
}

/// The pieces of `x` between newlines, all but the last with a `\r` ending dropped, joined
/// again give `x` back when it has no `\r\n`.
proof fn lemma_join_split(x: Seq<char>)
    requires
        forall|i: int| 0 <= i < x.len() - 1 ==> !(#[trigger] x[i] == '\r' && x[i + 1] == '\n'),
    ensures
        joined(split_on(x, '\n').drop_last().map_values(|l: Seq<char>| strip_cr(l))) + split_on(
            x,
            '\n',
        ).last() == x,
    decreases x.len(),
{
    crate::text::lemma_split_on_nonempty(x, '\n');
    if x.len() == 0 {
        assert(split_on(x, '\n').drop_last().map_values(|l: Seq<char>| strip_cr(l)) =~= Seq::<
            Seq<char>,
        >::empty());
    } else {
        let x0 = x.drop_last();
        let c = x.last();
        assert forall|i: int| 0 <= i < x0.len() - 1 implies !(#[trigger] x0[i] == '\r' && x0[i + 1]
            == '\n') by {
            assert(x0[i] == x[i] && x0[i + 1] == x[i + 1]);
        }
        lemma_join_split(x0);
        crate::text::lemma_split_on_nonempty(x0, '\n');
        let s0 = split_on(x0, '\n');
        let m0 = s0.drop_last().map_values(|l: Seq<char>| strip_cr(l));
        if c == '\n' {
            assert(split_on(x, '\n') == s0.push(Seq::empty()));
            assert(s0.push(Seq::empty()).drop_last() == s0);
            if s0.last().len() > 0 {
                crate::text::lemma_split_on_last(x0, '\n');
                assert(x[x0.len() - 1] == x0.last());
                assert(s0.last().last() != '\r');
            }
            assert(strip_cr(s0.last()) == s0.last());
            assert(s0 == s0.drop_last().push(s0.last()));
            assert(s0.map_values(|l: Seq<char>| strip_cr(l)) =~= m0.push(s0.last()));
            assert(m0.push(s0.last()).drop_last() == m0);
            assert(joined(m0.push(s0.last())) == joined(m0) + s0.last().push('\n'));
            assert(joined(m0) + s0.last().push('\n') + Seq::<char>::empty() =~= x0.push('\n'));
            assert(x0.push('\n') == x);
        } else {
            let s = split_on(x, '\n');
            assert(s == s0.update(s0.len() - 1, s0.last().push(c)));
            assert(s.drop_last() =~= s0.drop_last());
            assert(s.last() == s0.last().push(c));
            assert(joined(m0) + s0.last().push(c) =~= (joined(m0) + s0.last()).push(c));
            assert(x0.push(c) == x);
        }
    }
}

/// The body lines of a note read back as its body.
proof fn lemma_body_round_trip(b: Seq<char>)
    requires
        plain_body(b),
    ensures
        body_of(joined(lines_of(b.push('\n')))) == Some(b),
{
    lemma_join_split(b);
    crate::text::lemma_split_on_nonempty(b, '\n');
    let s = split_on(b, '\n');
    assert(b.push('\n').drop_last() == b);
    assert(split_on(b.push('\n'), '\n') == s.push(Seq::empty()));
    assert(s.push(Seq::<char>::empty()).drop_last() == s);
    if s.last().len() > 0 {
        crate::text::lemma_split_on_last(b, '\n');
        crate::text::lemma_trim_lengths(b);
        crate::text::lemma_trim_lengths(trim_start(b));
        assert(trim_end(b) == b) by {
            if trim_start(b) != b {
                assert(b.len() > 0 && is_space(b[0]));
            }
        }
        crate::text::lemma_trim_lengths(b.drop_last());
        assert(!is_space(b.last()));
    }
    assert(strip_cr(s.last()) == s.last());
    assert(s == s.drop_last().push(s.last()));
    let m0 = s.drop_last().map_values(|l: Seq<char>| strip_cr(l));
    assert(lines_of(b.push('\n')) =~= m0.push(s.last()));
    assert(m0.push(s.last()).drop_last() == m0);
    assert(joined(m0.push(s.last())) == joined(m0) + s.last().push('\n'));
    assert(joined(m0) + s.last().push('\n') =~= (joined(m0) + s.last()).push('\n'));
    crate::text::lemma_trim_newline(b);
}

/// A line that `lines_of` gives back unchanged.
spec fn good_line(l: Seq<char>) -> bool {
    &&& forall|i: int| 0 <= i < l.len() ==> #[trigger] l[i] != '\n'
    &&& l.len() > 0
    &&& l.last() != '\r'
}

proof fn lemma_good_line(lead: Seq<char>, v: Seq<char>)
    requires
        lead.len() > 0,
        lead.last() == ' ',
        forall|i: int| 0 <= i < lead.len() ==> #[trigger] lead[i] != '\n',
        plain_field(v),
    ensures
        good_line(lead + v),
{
    let l = lead + v;
    assert forall|i: int| 0 <= i < l.len() implies #[trigger] l[i] != '\n' by {
        if i < lead.len() {
            assert(l[i] == lead[i]);
        } else {
            assert(l[i] == v[i - lead.len()]);
        }
    }
    if v.len() > 0 {
        assert(l.last() == v.last());
    } else {
        assert(l.last() == lead.last());
    }
}

proof fn lemma_push_good(a: Seq<Seq<char>>, l: Seq<char>)
    requires
        forall|k: int| 0 <= k < a.len() ==> good_line(#[trigger] a[k]),
        good_line(l),
    ensures
        forall|k: int| 0 <= k < a.push(l).len() ==> good_line(#[trigger] a.push(l)[k]),
{
    assert forall|k: int| 0 <= k < a.push(l).len() implies good_line(#[trigger] a.push(l)[k]) by {
        if k < a.len() {
            assert(a.push(l)[k] == a[k]);
        }
    }
}

proof fn lemma_header_lines_good(n: NodeView)
    requires
        plain_node(n),
    ensures
        forall|k: int| 0 <= k < header_lines(n).len() ==> good_line(#[trigger] header_lines(n)[k]),
{
    let a = seq![id_line(n.id)];
    lemma_good_line(seq![':', 'I', 'D', ':', ' '], n.id);
    assert forall|k: int| 0 <= k < a.len() implies good_line(#[trigger] a[k]) by {}
    let b = match n.reference {
        Some(r) => a.push(ref_line(r)),
        None => a,
    };
    if let Some(r) = n.reference {
        lemma_good_line(seq![':', 'R', 'O', 'A', 'M', '_', 'R', 'E', 'F', 'S', ':', ' '], r);
        lemma_push_good(a, ref_line(r));
    }
    let c = if n.tags.len() > 0 {
        b.push(tags_line(n.tags))
    } else {
        b
    };
    if n.tags.len() > 0 {
        lemma_tags_text_plain(n.tags);
        lemma_good_line(seq!['#', '+', 'T', 'A', 'G', 'S', ':', ' '], tags_text(n.tags));
        lemma_push_good(b, tags_line(n.tags));
    }
    lemma_good_line(seq!['#', '+', 'T', 'I', 'T', 'L', 'E', ':', ' '], n.title);
    lemma_push_good(c, title_line(n.title));
}

/// Writing a node as note text and parsing that text gives the same identifier, reference,
/// title and tags back, for every node whose header fields read back as written; and the same
/// body, when the node has none or one that reads back as written.
pub proof fn lemma_note_round_trip(n: NodeView)
    requires
        plain_node(n),
    ensures
        parse_note(note_text(n)) is Some,
        parse_note(note_text(n))->0.id == n.id,
        parse_note(note_text(n))->0.reference == n.reference,
        parse_note(note_text(n))->0.title == n.title,
        parse_note(note_text(n))->0.tags == n.tags,
        (n.body matches Some(b) ==> plain_body(b)) ==> parse_note(note_text(n))->0.body == n.body,
{
    let hs = header_lines(n);
    let rest = match n.body {
        Some(b) => b.push('\n'),
        None => Seq::<char>::empty(),
    };
    let il = id_line(n.id);
    let tl = title_line(n.title);
    // Each header line is on one line and keeps its last character.
    lemma_header_lines_good(n);
    assert forall|k: int, i: int| 0 <= k < hs.len() && 0 <= i < hs[k].len() implies #[trigger] hs[k][i]
        != '\n' by {
        assert(good_line(hs[k]));
    }
    assert forall|k: int| 0 <= k < hs.len() implies strip_cr(#[trigger] hs[k]) == hs[k] by {
        assert(good_line(hs[k]));
    }
    assert(hs.map_values(|l: Seq<char>| strip_cr(l)) =~= hs);
    lemma_lines_of_joined(hs, rest);
    let ls = lines_of(rest);
    assert(lines_of(note_text(n)) == hs + ls);
    // The header lines, one by one.
    let a = seq![il];
    assert(a.drop_last() == Seq::<Seq<char>>::empty());
    assert(scan_lines(Seq::<Seq<char>>::empty()) == scan_start());
    assert(scan_lines(a) == scan_step(scan_start(), il));
    assert(starts_with_ci(il, id_key()));
    lemma_value_after(id_key(), seq![':', 'I', 'D', ':', ' '], n.id);
    assert(scan_lines(a).id == Some(n.id));
    let b = match n.reference {
        Some(r) => a.push(ref_line(r)),
        None => a,
    };
    if let Some(r) = n.reference {
        let rl = ref_line(r);
        assert(!ci_char_eq_at(rl, id_key(), 1));
        assert(starts_with_ci(rl, ref_key()));
        lemma_value_after(ref_key(), seq![':', 'R', 'O', 'A', 'M', '_', 'R', 'E', 'F', 'S', ':', ' '], r);
        assert(b.drop_last() == a);
    }
    assert(!scan_lines(b).in_body);
    assert(scan_lines(b).id == Some(n.id));
    assert(scan_lines(b).reference == n.reference);
    assert(scan_lines(b).tags == Seq::<Seq<char>>::empty());
    let c = if n.tags.len() > 0 {
        b.push(tags_line(n.tags))
    } else {
        b
    };
    if n.tags.len() > 0 {
        let gl = tags_line(n.tags);
        assert(!ci_char_eq_at(gl, id_key(), 0));
        assert(!ci_char_eq_at(gl, ref_key(), 0));
        assert(starts_with_ci(gl, tags_key()));
        lemma_tags_text_plain(n.tags);
        lemma_value_after(tags_key(), seq!['#', '+', 'T', 'A', 'G', 'S', ':', ' '], tags_text(n.tags));
        lemma_tag_list_round_trip(n.tags);
        assert(c.drop_last() == b);
    }
    assert(!scan_lines(c).in_body);
    assert(scan_lines(c).id == Some(n.id));
    assert(scan_lines(c).reference == n.reference);
    assert(scan_lines(c).tags == n.tags);
    assert(!ci_char_eq_at(tl, id_key(), 0));
    assert(!ci_char_eq_at(tl, ref_key(), 0));
    assert(!ci_char_eq_at(tl, tags_key(), 3));
    assert(starts_with_ci(tl, title_key()));
    lemma_value_after(title_key(), seq!['#', '+', 'T', 'I', 'T', 'L', 'E', ':', ' '], n.title);
    assert(hs == c.push(tl));
    assert(hs.drop_last() == c);
    assert(scan_lines(hs).in_body);
    assert(scan_lines(hs).body == Seq::<char>::empty());
    lemma_scan_after_title(hs, ls);
    assert(Seq::<char>::empty() + joined(ls) == joined(ls));
    match n.body {
        Some(b) => {
            if plain_body(b) {
                lemma_body_round_trip(b);
            }
        },
        None => {
            assert(ls =~= Seq::<Seq<char>>::empty());
            assert(joined(ls) == Seq::<char>::empty());
        },
    }
}

/// The character of `line` at `i` matches that of `key`.
spec fn ci_char_eq_at(line: Seq<char>, key: Seq<char>, i: int) -> bool {
    crate::text::ci_char_eq(line[i], key[i])
}

proof fn lemma_tags_text_plain(tags: Seq<Seq<char>>)
    requires
        forall|i: int| 0 <= i < tags.len() ==> plain_tag(#[trigger] tags[i]),
    ensures
        plain_field(tags_text(tags)),
    decreases tags.len(),
{
    if tags.len() == 1 {
        assert(plain_tag(tags[0]));
    } else if tags.len() > 1 {
        let t0 = tags.drop_last();
        let last = tags.last();
        assert forall|i: int| 0 <= i < t0.len() implies plain_tag(#[trigger] t0[i]) by {
            assert(t0[i] == tags[i]);
        }
        lemma_tags_text_plain(t0);
        assert(plain_tag(tags[tags.len() - 1]));
        let s = tags_text(tags);
        let x = tags_text(t0);
        assert(s == x + seq![',', ' '] + last);
        assert forall|i: int| 0 <= i < s.len() implies #[trigger] s[i] != '\n' by {
            if i < x.len() {
                assert(s[i] == x[i]);
            } else if i >= x.len() + 2 {
                assert(s[i] == last[i - x.len() - 2]);
            }
        }
        if x.len() > 0 {
            assert(s[0] == x[0]);
        } else {
            assert(s[0] == ',');
        }
        if last.len() > 0 {
            assert(s.last() == last.last());
        } else {
            assert(s.last() == ' ');
        }
    }
}

} // verus!
