//! Lists of strings used as sets.

use crate::text::strs;
use vstd::prelude::*;

verus! {

/// `s` without repeats, each element where it first occurs.
pub open spec fn dedup(s: Seq<Seq<char>>) -> Seq<Seq<char>>
    decreases s.len(),
{
    if s.len() == 0 {
        Seq::empty()
    } else {
        let d = dedup(s.drop_last());
        if d.contains(s.last()) {
            d
        } else {
            d.push(s.last())
        }
    }
}

/// The union of two lists: the elements of `a`, then those of `b` not yet seen, without
/// repeats.
pub open spec fn union_of(a: Seq<Seq<char>>, b: Seq<Seq<char>>) -> Seq<Seq<char>> {
    dedup(a + b)
}

/// No element occurs twice.
pub open spec fn no_repeats(s: Seq<Seq<char>>) -> bool {
    forall|i: int, j: int| 0 <= i < j < s.len() ==> s[i] != s[j]
}

proof fn lemma_push_contains(s: Seq<Seq<char>>, c: Seq<char>, x: Seq<char>)
    ensures
        s.push(c).contains(x) <==> (s.contains(x) || x == c),
{
    if s.push(c).contains(x) {
        let i = choose|i: int| 0 <= i < s.push(c).len() && s.push(c)[i] == x;
        if i < s.len() {
            assert(s[i] == x);
        }
    }
    if s.contains(x) {
        let i = choose|i: int| 0 <= i < s.len() && s[i] == x;
        assert(s.push(c)[i] == x);
    }
    if x == c {
        assert(s.push(c)[s.len() as int] == x);
    }
}

/// `dedup` keeps exactly the elements of its argument, once each.
pub proof fn lemma_dedup(s: Seq<Seq<char>>)
    ensures
        forall|x: Seq<char>| dedup(s).contains(x) <==> s.contains(x),
        no_repeats(dedup(s)),
    decreases s.len(),
{
    if s.len() > 0 {
        let s0 = s.drop_last();
        let c = s.last();
        lemma_dedup(s0);
        let d = dedup(s0);
        assert(s0.push(c) == s);
        assert forall|x: Seq<char>| dedup(s).contains(x) <==> s.contains(x) by {
            lemma_push_contains(s0, c, x);
            lemma_push_contains(d, c, x);
        }
        if !d.contains(c) {
            let e = d.push(c);
            assert forall|i: int, j: int| 0 <= i < j < e.len() implies e[i] != e[j] by {
                if j == e.len() - 1 {
                    assert(e[i] == d[i]);
                }
            }
        }
    }
}

/// A list without repeats is its own `dedup`.
pub proof fn lemma_dedup_no_repeats(s: Seq<Seq<char>>)
    requires
        no_repeats(s),
    ensures
        dedup(s) == s,
    decreases s.len(),
{
    if s.len() > 0 {
        lemma_dedup_no_repeats(s.drop_last());
        assert(!s.drop_last().contains(s.last()));
        assert(s.drop_last().push(s.last()) == s);
    }
}

/// Removing repeats from the front part first changes nothing.
pub proof fn lemma_dedup_front(x: Seq<Seq<char>>, y: Seq<Seq<char>>)
    ensures
        dedup(dedup(x) + y) == dedup(x + y),
    decreases y.len(),
{
    if y.len() == 0 {
        lemma_dedup(x);
        lemma_dedup_no_repeats(dedup(x));
        assert(dedup(x) + y == dedup(x));
        assert(x + y == x);
    } else {
        lemma_dedup_front(x, y.drop_last());
        assert((dedup(x) + y).drop_last() == dedup(x) + y.drop_last());
        assert((x + y).drop_last() == x + y.drop_last());
    }
}

/// Removing repeats from the back part first changes nothing.
pub proof fn lemma_dedup_back(x: Seq<Seq<char>>, y: Seq<Seq<char>>)
    ensures
        dedup(x + dedup(y)) == dedup(x + y),
    decreases y.len(),
{
    if y.len() == 0 {
        assert(x + dedup(y) == x);
        assert(x + y == x);
    } else {
        let c = y.last();
        let y0 = y.drop_last();
        lemma_dedup_back(x, y0);
        lemma_dedup(y0);
        lemma_dedup(x + y0);
        assert((x + y).drop_last() == x + y0);
        assert((x + y).last() == c);
        if dedup(y0).contains(c) {
            assert(dedup(y) == dedup(y0));
            assert(y0.contains(c));
            let i = choose|i: int| 0 <= i < y0.len() && y0[i] == c;
            assert((x + y0)[x.len() + i] == c);
            assert((x + y0).contains(c));
        } else {
            assert(dedup(y) == dedup(y0).push(c));
            assert((x + dedup(y)).drop_last() == x + dedup(y0));
            assert((x + dedup(y)).last() == c);
        }
    }
}

/// Later elements already present change nothing.
pub proof fn lemma_dedup_seen(x: Seq<Seq<char>>, y: Seq<Seq<char>>)
    requires
        forall|i: int| 0 <= i < y.len() ==> x.contains(#[trigger] y[i]),
    ensures
        dedup(x + y) == dedup(x),
    decreases y.len(),
{
    if y.len() == 0 {
        assert(x + y == x);
    } else {
        lemma_dedup_seen(x, y.drop_last());
        assert((x + y).drop_last() == x + y.drop_last());
        lemma_dedup(x);
        assert(x.contains(y.last()));
    }
}

/// The union of `a` and `b`: the elements of `a`, then those of `b` not yet seen, each once.
pub fn union_strings(a: Vec<String>, b: Vec<String>) -> (r: Vec<String>)
    ensures
        strs(r@) == union_of(strs(a@), strs(b@)),
{
    let mut r: Vec<String> = Vec::new();
    let ghost all = strs(a@) + strs(b@);
    let mut i: usize = 0;
    while i < a.len()
        invariant
            i <= a.len(),
            all == strs(a@) + strs(b@),
            strs(r@) == dedup(all.take(i as int)),
        decreases a.len() - i,
    {
        let s = a[i].clone();
        proof {
            assert(all.take(i + 1).drop_last() == all.take(i as int));
            assert(all.take(i + 1).last() == a@[i as int]@);
        }
        if !crate::text::contains_str(&r, s.as_str()) {
            let ghost before = r@;
            r.push(s);
            assert(strs(r@) =~= strs(before).push(s@));
        }
        i += 1;
    }
    let mut j: usize = 0;
    while j < b.len()
        invariant
            j <= b.len(),
            all == strs(a@) + strs(b@),
            strs(r@) == dedup(all.take(a.len() + j)),
        decreases b.len() - j,
    {
        let s = b[j].clone();
        proof {
            assert(all.take(a.len() + j + 1).drop_last() == all.take(a.len() + j));
            assert(all.take(a.len() + j + 1).last() == b@[j as int]@);
        }
        if !crate::text::contains_str(&r, s.as_str()) {
            let ghost before = r@;
            r.push(s);
            assert(strs(r@) =~= strs(before).push(s@));
        }
        j += 1;
    }
    assert(all.take(a.len() + b.len()) == all);
    r
}

} // verus!
