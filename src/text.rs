//! Character-level helpers shared by the note parser and the feed renderer.
//!
//! Text is handled as sequences of `char`: a `String`'s view is its `Seq<char>`.

use vstd::prelude::*;

verus! {

/// The views of a sequence of strings.
pub open spec fn strs(v: Seq<String>) -> Seq<Seq<char>> {
    v.map_values(|s: String| s@)
}

/// The view of an optional string.
pub open spec fn opt_str(s: Option<String>) -> Option<Seq<char>> {
    match s {
        Some(s) => Some(s@),
        None => None,
    }
}

/// The views of a sequence of character vectors.
pub open spec fn char_seqs(v: Seq<Vec<char>>) -> Seq<Seq<char>> {
    v.map_values(|s: Vec<char>| s@)
}

/// White space as Unicode's `White_Space` property lists it: what `char::is_whitespace`
/// and a regular-expression `\s` accept.
pub open spec fn is_space(c: char) -> bool {
    let u = c as u32;
    (0x9 <= u <= 0xd) || u == 0x20 || u == 0x85 || u == 0xa0 || u == 0x1680 || (0x2000 <= u
        <= 0x200a) || u == 0x2028 || u == 0x2029 || u == 0x202f || u == 0x205f || u == 0x3000
}

pub fn is_space_char(c: char) -> (r: bool)
    ensures
        r == is_space(c),
{
    let u = c as u32;
    (0x9 <= u && u <= 0xd) || u == 0x20 || u == 0x85 || u == 0xa0 || u == 0x1680 || (0x2000 <= u
        && u <= 0x200a) || u == 0x2028 || u == 0x2029 || u == 0x202f || u == 0x205f || u == 0x3000
}

/// `s` without its leading white space.
pub open spec fn trim_start(s: Seq<char>) -> Seq<char>
    decreases s.len(),
{
    if s.len() > 0 && is_space(s[0]) {
        trim_start(s.drop_first())
    } else {
        s
    }
}

/// `s` without its trailing white space.
pub open spec fn trim_end(s: Seq<char>) -> Seq<char>
    decreases s.len(),
{
    if s.len() > 0 && is_space(s.last()) {
        trim_end(s.drop_last())
    } else {
        s
    }
}

/// `s` without white space at either end, as `str::trim` gives it.
pub open spec fn trim(s: Seq<char>) -> Seq<char> {
    trim_end(trim_start(s))
}

/// The pieces of `s` between occurrences of `sep`, as `str::split` gives them: one more
/// piece than there are separators, empty pieces included.
pub open spec fn split_on(s: Seq<char>, sep: char) -> Seq<Seq<char>>
    decreases s.len(),
{
    if s.len() == 0 {
        seq![Seq::empty()]
    } else {
        let rest = split_on(s.drop_last(), sep);
        if s.last() == sep {
            rest.push(Seq::empty())
        } else {
            rest.update(rest.len() - 1, rest.last().push(s.last()))
        }
    }
}

/// A line without the carriage return of a `\r\n` ending.
pub open spec fn strip_cr(l: Seq<char>) -> Seq<char> {
    if l.len() > 0 && l.last() == '\r' {
        l.drop_last()
    } else {
        l
    }
}

/// The lines of `s`, as `str::lines` gives them: split at `\n`, a `\r` before the `\n`
/// dropped, and no empty line after a final `\n`.
pub open spec fn lines_of(s: Seq<char>) -> Seq<Seq<char>> {
    let p = split_on(s, '\n');
    p.drop_last().map_values(|l: Seq<char>| strip_cr(l)) + if p.last().len() > 0 {
        seq![p.last()]
    } else {
        Seq::empty()
    }
}

/// `c` matches the key character `k` regardless of case: a lower-case ASCII letter also
/// matches its capital and, as under Unicode simple case folding, `s` matches `ſ` and `k`
/// matches the Kelvin sign.
pub open spec fn ci_char_eq(c: char, k: char) -> bool {
    ||| c == k
    ||| ('a' <= k <= 'z' && c as u32 == k as u32 - 32)
    ||| (k == 's' && c as u32 == 0x17f)
    ||| (k == 'k' && c as u32 == 0x212a)
}

/// `line` begins with `key`, ignoring case as `ci_char_eq` does.
pub open spec fn starts_with_ci(line: Seq<char>, key: Seq<char>) -> bool {
    &&& key.len() <= line.len()
    &&& forall|i: int| 0 <= i < key.len() ==> ci_char_eq(#[trigger] line[i], key[i])
}

/// `s` begins with `prefix`, character for character.
pub open spec fn starts_with(s: Seq<char>, prefix: Seq<char>) -> bool {
    prefix.len() <= s.len() && s.take(prefix.len() as int) == prefix
}

pub proof fn lemma_split_on_nonempty(s: Seq<char>, sep: char)
    ensures
        split_on(s, sep).len() >= 1,
    decreases s.len(),
{
    if s.len() > 0 {
        lemma_split_on_nonempty(s.drop_last(), sep);
    }
}

/// Splitting at a separator splits the two sides apart.
pub proof fn lemma_split_on_concat(x: Seq<char>, y: Seq<char>, sep: char)
    ensures
        split_on(x.push(sep) + y, sep) == split_on(x, sep) + split_on(y, sep),
    decreases y.len(),
{
    lemma_split_on_nonempty(x, sep);
    if y.len() == 0 {
        assert(x.push(sep) + y == x.push(sep));
        assert(x.push(sep).drop_last() == x);
    } else {
        lemma_split_on_concat(x, y.drop_last(), sep);
        lemma_split_on_nonempty(y.drop_last(), sep);
        let s = x.push(sep) + y;
        assert(s.drop_last() == x.push(sep) + y.drop_last());
        assert(s.last() == y.last());
        let a = split_on(x, sep);
        let b = split_on(y.drop_last(), sep);
        if y.last() != sep {
            assert((a + b).update((a + b).len() - 1, (a + b).last().push(y.last())) =~= a + b.update(
                b.len() - 1,
                b.last().push(y.last()),
            ));
        } else {
            assert((a + b).push(Seq::empty()) =~= a + b.push(Seq::empty()));
        }
    }
}

/// Text without the separator is one piece.
pub proof fn lemma_split_on_single(x: Seq<char>, sep: char)
    requires
        forall|i: int| 0 <= i < x.len() ==> #[trigger] x[i] != sep,
    ensures
        split_on(x, sep) == seq![x],
    decreases x.len(),
{
    if x.len() > 0 {
        lemma_split_on_single(x.drop_last(), sep);
        assert(x.drop_last().push(x.last()) == x);
    } else {
        assert(x == Seq::<char>::empty());
    }
}

/// A line, its `\n`, and the rest: the line comes first among the lines.
pub proof fn lemma_lines_of_cons(h: Seq<char>, rest: Seq<char>)
    requires
        forall|i: int| 0 <= i < h.len() ==> #[trigger] h[i] != '\n',
    ensures
        lines_of(h.push('\n') + rest) == seq![strip_cr(h)] + lines_of(rest),
{
    lemma_split_on_concat(h, rest, '\n');
    lemma_split_on_single(h, '\n');
    lemma_split_on_nonempty(rest, '\n');
    let p = split_on(h.push('\n') + rest, '\n');
    let q = split_on(rest, '\n');
    assert(p == seq![h] + q);
    assert(p.drop_last() == seq![h] + q.drop_last());
    assert(p.last() == q.last());
    assert((seq![h] + q.drop_last()).map_values(|l: Seq<char>| strip_cr(l)) =~= seq![strip_cr(h)]
        + q.drop_last().map_values(|l: Seq<char>| strip_cr(l)));
    assert(lines_of(h.push('\n') + rest) =~= seq![strip_cr(h)] + lines_of(rest));
}

/// Trimming never lengthens, and a leading space is always trimmed.
pub proof fn lemma_trim_lengths(s: Seq<char>)
    ensures
        trim_start(s).len() <= s.len(),
        trim_end(s).len() <= s.len(),
        s.len() > 0 && is_space(s[0]) ==> trim_start(s).len() < s.len(),
    decreases s.len(),
{
    if s.len() > 0 {
        lemma_trim_lengths(s.drop_first());
        lemma_trim_lengths(s.drop_last());
    }
}

/// A trimmed, non-empty text followed by a newline trims back to itself.
pub proof fn lemma_trim_newline(b: Seq<char>)
    requires
        b.len() > 0,
        trim(b) == b,
    ensures
        trim(b.push('\n')) == b,
{
    lemma_trim_lengths(b);
    lemma_trim_lengths(trim_start(b));
    assert(!is_space(b[0]));
    assert(trim_start(b) == b);
    assert(trim_end(b) == b);
    assert(b.push('\n')[0] == b[0]);
    assert(trim_start(b.push('\n')) == b.push('\n'));
    assert(is_space('\n'));
    assert(b.push('\n').drop_last() == b);
}

/// The last piece of a split ends where the text ends.
pub proof fn lemma_split_on_last(x: Seq<char>, sep: char)
    requires
        split_on(x, sep).last().len() > 0,
    ensures
        x.len() > 0,
        split_on(x, sep).last().last() == x.last(),
{
    lemma_split_on_nonempty(x, sep);
    if x.len() > 0 {
        lemma_split_on_nonempty(x.drop_last(), sep);
    }
}

pub proof fn lemma_trim_start_skip(s: Seq<char>, k: int)
    requires
        0 <= k <= s.len(),
        forall|j: int| 0 <= j < k ==> is_space(#[trigger] s[j]),
        k == s.len() || !is_space(s[k]),
    ensures
        trim_start(s) == s.skip(k),
    decreases k,
{
    if k > 0 {
        lemma_trim_start_skip(s.drop_first(), k - 1);
        assert(s.drop_first().skip(k - 1) == s.skip(k));
    } else {
        assert(s.skip(0) == s);
    }
}

pub proof fn lemma_trim_end_take(s: Seq<char>, k: int)
    requires
        0 <= k <= s.len(),
        forall|j: int| k <= j < s.len() ==> is_space(#[trigger] s[j]),
        k == 0 || !is_space(s[k - 1]),
    ensures
        trim_end(s) == s.take(k),
    decreases s.len() - k,
{
    if k < s.len() {
        lemma_trim_end_take(s.drop_last(), k);
        assert(s.drop_last().take(k) == s.take(k));
    } else {
        assert(s.take(k) == s);
    }
}

/// The bounds of `v[from..to]` with white space trimmed from both ends.
pub fn trim_bounds(v: &Vec<char>, from: usize, to: usize) -> (r: (usize, usize))
    requires
        from <= to <= v.len(),
    ensures
        from <= r.0 <= r.1 <= to,
        v@.subrange(r.0 as int, r.1 as int) == trim(v@.subrange(from as int, to as int)),
{
    let mut a: usize = from;
    while a < to && is_space_char(v[a])
        invariant
            from <= a <= to <= v.len(),
            forall|j: int| from <= j < a ==> is_space(#[trigger] v@[j]),
        decreases to - a,
    {
        a += 1;
    }
    let mut b: usize = to;
    while b > a && is_space_char(v[b - 1])
        invariant
            from <= a <= b <= to <= v.len(),
            forall|j: int| b <= j < to ==> is_space(#[trigger] v@[j]),
        decreases b - a,
    {
        b -= 1;
    }
    proof {
        let s = v@.subrange(from as int, to as int);
        lemma_trim_start_skip(s, a - from);
        let t = v@.subrange(a as int, to as int);
        assert(s.skip(a - from) == t);
        lemma_trim_end_take(t, b - a);
        assert(t.take(b - a) == v@.subrange(a as int, b as int));
    }
    (a, b)
}

/// The lines of `v`, as `lines_of` states them.
pub fn split_lines(v: &Vec<char>) -> (r: Vec<Vec<char>>)
    ensures
        char_seqs(r@) == lines_of(v@),
{
    let mut lines: Vec<Vec<char>> = Vec::new();
    let mut cur: Vec<char> = Vec::new();
    let mut i: usize = 0;
    while i < v.len()
        invariant
            i <= v.len(),
            char_seqs(lines@) == split_on(v@.take(i as int), '\n').drop_last().map_values(
                |l: Seq<char>| strip_cr(l),
            ),
            cur@ == split_on(v@.take(i as int), '\n').last(),
            split_on(v@.take(i as int), '\n').len() >= 1,
        decreases v.len() - i,
    {
        let ghost p = split_on(v@.take(i as int), '\n');
        proof {
            lemma_split_on_nonempty(v@.take(i as int), '\n');
            assert(v@.take(i + 1).drop_last() == v@.take(i as int));
            assert(v@.take(i + 1).last() == v@[i as int]);
        }
        let c = v[i];
        if c == '\n' {
            let mut line = cur;
            let n = line.len();
            if n > 0 && line[n - 1] == '\r' {
                line.pop();
            }
            assert(line@ == strip_cr(p.last()));
            let ghost before = lines@;
            lines.push(line);
            cur = Vec::new();
            proof {
                let q = split_on(v@.take(i + 1), '\n');
                lemma_split_on_nonempty(v@.take(i + 1), '\n');
                assert(q == p.push(Seq::empty()));
                assert(q.drop_last() == p);
                assert(p == p.drop_last().push(p.last()));
                assert(char_seqs(lines@) =~= char_seqs(before).push(line@));
                assert(q.drop_last().map_values(|l: Seq<char>| strip_cr(l)) =~= p.drop_last().map_values(
                    |l: Seq<char>| strip_cr(l),
                ).push(strip_cr(p.last())));
            }
        } else {
            cur.push(c);
            proof {
                let q = split_on(v@.take(i + 1), '\n');
                lemma_split_on_nonempty(v@.take(i + 1), '\n');
                assert(q.drop_last() =~= p.drop_last());
            }
        }
        i += 1;
    }
    proof {
        assert(v@.take(v.len() as int) == v@);
    }
    let ghost before = lines@;
    if cur.len() > 0 {
        lines.push(cur);
        assert(char_seqs(lines@) =~= char_seqs(before).push(split_on(v@, '\n').last()));
    }
    proof {
        let p = split_on(v@, '\n');
        if p.last().len() > 0 {
            assert(char_seqs(lines@) =~= lines_of(v@));
        } else {
            assert(char_seqs(lines@) =~= lines_of(v@));
        }
    }
    lines
}

/// Whether `line` begins with `key`, ignoring case as `ci_char_eq` does.
pub fn has_prefix_ci(line: &Vec<char>, key: &Vec<char>) -> (r: bool)
    ensures
        r == starts_with_ci(line@, key@),
{
    if key.len() > line.len() {
        return false;
    }
    let mut i: usize = 0;
    while i < key.len()
        invariant
            key.len() <= line.len(),
            i <= key.len(),
            forall|j: int| 0 <= j < i ==> ci_char_eq(#[trigger] line@[j], key@[j]),
        decreases key.len() - i,
    {
        let c = line[i];
        let k = key[i];
        let u = c as u32;
        let ku = k as u32;
        let same = c == k || ('a' <= k && k <= 'z' && u == ku - 32) || (k == 's' && u == 0x17f)
            || (k == 'k' && u == 0x212a);
        if !same {
            return false;
        }
        i += 1;
    }
    true
}

/// Whether `s` begins with `prefix`.
pub fn has_prefix(s: &Vec<char>, prefix: &Vec<char>) -> (r: bool)
    ensures
        r == starts_with(s@, prefix@),
{
    if prefix.len() > s.len() {
        return false;
    }
    let mut i: usize = 0;
    while i < prefix.len()
        invariant
            prefix.len() <= s.len(),
            i <= prefix.len(),
            forall|j: int| 0 <= j < i ==> s@[j] == prefix@[j],
        decreases prefix.len() - i,
    {
        if s[i] != prefix[i] {
            proof {
                assert(s@.take(prefix.len() as int)[i as int] != prefix@[i as int]);
            }
            return false;
        }
        i += 1;
    }
    assert(s@.take(prefix.len() as int) == prefix@);
    true
}

/// The index from which `v[from..]` has its leading white space trimmed.
pub fn trim_start_index(v: &Vec<char>, from: usize) -> (r: usize)
    requires
        from <= v.len(),
    ensures
        from <= r <= v.len(),
        v@.subrange(r as int, v.len() as int) == trim_start(v@.subrange(from as int, v.len() as int)),
{
    let mut a: usize = from;
    while a < v.len() && is_space_char(v[a])
        invariant
            from <= a <= v.len(),
            forall|j: int| from <= j < a ==> is_space(#[trigger] v@[j]),
        decreases v.len() - a,
    {
        a += 1;
    }
    proof {
        let s = v@.subrange(from as int, v.len() as int);
        lemma_trim_start_skip(s, a - from);
        assert(s.skip(a - from) == v@.subrange(a as int, v.len() as int));
    }
    a
}

/// The pieces of `v[from..to]` between occurrences of `sep`, each trimmed of white space.
pub fn split_trimmed(v: &Vec<char>, from: usize, to: usize, sep: char) -> (r: Vec<String>)
    requires
        from <= to <= v.len(),
    ensures
        strs(r@) == split_on(v@.subrange(from as int, to as int), sep).map_values(
            |p: Seq<char>| trim(p),
        ),
{
    let mut out: Vec<String> = Vec::new();
    let mut start: usize = from;
    let mut j: usize = from;
    while j < to
        invariant
            from <= start <= j <= to <= v.len(),
            split_on(v@.subrange(from as int, j as int), sep).len() >= 1,
            strs(out@) == split_on(v@.subrange(from as int, j as int), sep).drop_last().map_values(
                |p: Seq<char>| trim(p),
            ),
            v@.subrange(start as int, j as int) == split_on(
                v@.subrange(from as int, j as int),
                sep,
            ).last(),
        decreases to - j,
    {
        let ghost p = split_on(v@.subrange(from as int, j as int), sep);
        let ghost next = v@.subrange(from as int, j + 1);
        proof {
            assert(next.drop_last() == v@.subrange(from as int, j as int));
            assert(next.last() == v@[j as int]);
            lemma_split_on_nonempty(next, sep);
        }
        if v[j] == sep {
            let (a, b) = trim_bounds(v, start, j);
            let piece = string_of_range(v, a, b);
            let ghost before = out@;
            out.push(piece);
            start = j + 1;
            proof {
                let q = split_on(next, sep);
                assert(q == p.push(Seq::empty()));
                assert(q.drop_last() == p);
                assert(p == p.drop_last().push(p.last()));
                assert(strs(out@) =~= strs(before).push(piece@));
                assert(q.drop_last().map_values(|p: Seq<char>| trim(p)) =~= p.drop_last().map_values(
                    |p: Seq<char>| trim(p),
                ).push(trim(p.last())));
                assert(v@.subrange(start as int, j + 1) =~= Seq::<char>::empty());
            }
        } else {
            proof {
                let q = split_on(next, sep);
                assert(q.drop_last() =~= p.drop_last());
                assert(v@.subrange(start as int, j + 1) =~= v@.subrange(start as int, j as int).push(
                    v@[j as int],
                ));
            }
        }
        j += 1;
    }
    let (a, b) = trim_bounds(v, start, to);
    let piece = string_of_range(v, a, b);
    let ghost before = out@;
    out.push(piece);
    proof {
        let p = split_on(v@.subrange(from as int, to as int), sep);
        assert(p == p.drop_last().push(p.last()));
        assert(strs(out@) =~= strs(before).push(piece@));
        assert(p.map_values(|p: Seq<char>| trim(p)) =~= p.drop_last().map_values(
            |p: Seq<char>| trim(p),
        ).push(trim(p.last())));
    }
    out
}

/// The characters of `s`, in order.
pub fn chars_of(s: &str) -> (r: Vec<char>)
    ensures
        r@ == s@,
{
    let mut r: Vec<char> = Vec::new();
    for c in it: s.chars()
        invariant
            r@ == it.seq().take(it.index() as int),
            it.seq() == s@,
    {
        r.push(c);
    }
    r
}

/// Relies on `String::push`: appends one character.
#[verifier::external_body]
pub(crate) fn push_char(s: &mut String, c: char)
    ensures
        final(s)@ == old(s)@.push(c),
{
    s.push(c);
}

/// A string holding `v[from..to]`.
pub fn string_of_range(v: &Vec<char>, from: usize, to: usize) -> (r: String)
    requires
        from <= to <= v.len(),
    ensures
        r@ == v@.subrange(from as int, to as int),
{
    let mut r = String::new();
    let mut i: usize = from;
    while i < to
        invariant
            from <= i <= to <= v.len(),
            r@ == v@.subrange(from as int, i as int),
        decreases to - i,
    {
        push_char(&mut r, v[i]);
        assert(v@.subrange(from as int, i + 1) == v@.subrange(from as int, i as int).push(
            v@[i as int],
        ));
        i += 1;
    }
    r
}

/// Whether `v` holds a string equal to `t`.
pub fn contains_str(v: &Vec<String>, t: &str) -> (r: bool)
    ensures
        r == strs(v@).contains(t@),
{
    let target = t.to_owned();
    let mut i: usize = 0;
    while i < v.len()
        invariant
            i <= v.len(),
            target@ == t@,
            forall|j: int| 0 <= j < i ==> v@[j]@ != t@,
        decreases v.len() - i,
    {
        if v[i] == target {
            assert(strs(v@)[i as int] == t@);
            return true;
        }
        i += 1;
    }
    proof {
        if strs(v@).contains(t@) {
            let j = choose|j: int| 0 <= j < strs(v@).len() && strs(v@)[j] == t@;
            assert(v@[j]@ == t@);
        }
    }
    false
}

} // verus!
