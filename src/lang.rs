//! Language tags and the tally of glyphs written in each.

use vstd::prelude::*;

verus! {

/// A language tag of two or three lower-case ASCII letters; a two-letter tag
/// has `c == 0`.
#[derive(Clone, Copy, Debug, PartialEq, Eq, Structural)]
pub struct Lang {
    pub a: u8,
    pub b: u8,
    pub c: u8,
}

/// The tags of the languages written right to left.
pub open spec fn is_rtl(l: Lang) -> bool {
    l.c == 0 && {
        let (a, b) = (l.a as char, l.b as char);
        ||| (a, b) == ('a', 'r')
        ||| (a, b) == ('d', 'v')
        ||| (a, b) == ('f', 'a')
        ||| (a, b) == ('h', 'e')
        ||| (a, b) == ('k', 's')
        ||| (a, b) == ('p', 'a')
        ||| (a, b) == ('p', 's')
        ||| (a, b) == ('s', 'd')
        ||| (a, b) == ('u', 'g')
        ||| (a, b) == ('u', 'r')
        ||| (a, b) == ('y', 'i')
    }
}

impl Lang {
    /// A two-letter tag.
    pub fn two(a: u8, b: u8) -> (r: Lang)
        ensures
            r == (Lang { a, b, c: 0 }),
    {
        Lang { a, b, c: 0 }
    }

    /// Whether the language's script runs right to left.
    pub fn is_rtl(&self) -> (r: bool)
        ensures
            r == is_rtl(*self),
    {
        if self.c != 0 {
            return false;
        }
        let a = self.a;
        let b = self.b;
        (a == 97 && b == 114) || (a == 100 && b == 118) || (a == 102 && b == 97) || (a == 104
            && b == 101) || (a == 107 && b == 115) || (a == 112 && b == 97) || (a == 112 && b
            == 115) || (a == 115 && b == 100) || (a == 117 && b == 103) || (a == 117 && b == 114)
            || (a == 121 && b == 105)
    }
}

/// A count of glyphs per language; each language is listed once.
pub open spec fn tally_wf(t: Seq<(Lang, u64)>) -> bool {
    forall|i: int, j: int| 0 <= i < j < t.len() ==> (#[trigger] t[i]).0 != (#[trigger] t[j]).0
}

/// The position of a language in a tally, if it is listed.
pub open spec fn tally_find(t: Seq<(Lang, u64)>, l: Lang) -> Option<int> {
    if exists|i: int| 0 <= i < t.len() && t[i].0 == l {
        Some(choose|i: int| 0 <= i < t.len() && t[i].0 == l)
    } else {
        None
    }
}

/// A sum that stops at the largest `u64`.
pub open spec fn sat_add(a: u64, b: u64) -> u64 {
    if a + b > u64::MAX {
        u64::MAX
    } else {
        (a + b) as u64
    }
}

/// The count of language `l` in a tally; zero where it is not listed.
pub open spec fn tally_count(t: Seq<(Lang, u64)>, l: Lang) -> int {
    match tally_find(t, l) {
        Some(i) => t[i].1 as int,
        None => 0,
    }
}

/// The sum of the counts of `l` in the first `n` entries of a list.
pub open spec fn entries_sum(more: Seq<(Lang, u64)>, l: Lang, n: int) -> int
    decreases n,
{
    if n <= 0 {
        0
    } else {
        entries_sum(more, l, n - 1) + if more[n - 1].0 == l {
            more[n - 1].1 as int
        } else {
            0
        }
    }
}

/// `v` limited to the largest `u64`.
pub open spec fn cap(v: int) -> int {
    if v > u64::MAX {
        u64::MAX as int
    } else {
        v
    }
}

/// How one addition changes the counts of a tally.
pub proof fn lemma_count_after_add(t: Seq<(Lang, u64)>, l: Lang, n: u64, t2: Seq<(Lang, u64)>, k: Lang)
    requires
        tally_wf(t),
        tally_wf(t2),
        match tally_find(t, l) {
            Some(i) => t2 == t.update(i, (l, sat_add(t[i].1, n))),
            None => t2 == t.push((l, n)),
        },
    ensures
        tally_count(t2, k) == if k == l {
            cap(tally_count(t, k) + n)
        } else {
            tally_count(t, k)
        },
{
    match tally_find(t, l) {
        Some(i) => {
            assert(t2[i].0 == l);
            if k == l {
                let j = tally_find(t2, k)->Some_0;
                if j != i {
                    if j < i {
                        assert(t2[j].0 != t2[i].0);
                    } else {
                        assert(t2[i].0 != t2[j].0);
                    }
                }
            } else {
                if let Some(j) = tally_find(t, k) {
                    assert(t2[j] == t[j]);
                    let j2 = tally_find(t2, k)->Some_0;
                    if j2 != j {
                        if j2 < j {
                            assert(t2[j2].0 != t2[j].0);
                        } else {
                            assert(t2[j].0 != t2[j2].0);
                        }
                    }
                } else {
                    if let Some(j2) = tally_find(t2, k) {
                        assert(t[j2].0 == k);
                    }
                }
            }
        },
        None => {
            assert(t2[t.len() as int].0 == l);
            if k == l {
                let j = tally_find(t2, k)->Some_0;
                if j < t.len() {
                    assert(t[j].0 == l);
                }
            } else {
                if let Some(j) = tally_find(t, k) {
                    assert(t2[j] == t[j]);
                    let j2 = tally_find(t2, k)->Some_0;
                    if j2 != j {
                        if j2 < j {
                            assert(t2[j2].0 != t2[j].0);
                        } else {
                            assert(t2[j].0 != t2[j2].0);
                        }
                    }
                } else {
                    if let Some(j2) = tally_find(t2, k) {
                        assert(j2 < t.len());
                        assert(t[j2].0 == k);
                    }
                }
            }
        },
    }
}

/// The tally after `n` glyphs of language `l` are added.
pub open spec fn tally_after(t: Seq<(Lang, u64)>, l: Lang, n: u64) -> Seq<(Lang, u64)> {
    match tally_find(t, l) {
        Some(i) => t.update(i, (l, sat_add(t[i].1, n))),
        None => t.push((l, n)),
    }
}

/// Adds `n` glyphs of language `l` to a tally: to its entry where it has
/// one, else as a new entry at the end.
pub fn tally_add(t: &mut Vec<(Lang, u64)>, l: Lang, n: u64)
    requires
        tally_wf(old(t)@),
    ensures
        tally_wf(final(t)@),
        final(t)@ == tally_after(old(t)@, l, n),
{
    let mut i: usize = 0;
    while i < t.len()
        invariant
            i <= t@.len(),
            t@ == old(t)@,
            tally_wf(old(t)@),
            forall|j: int| 0 <= j < i ==> t@[j].0 != l,
        decreases t@.len() - i,
    {
        if t[i].0 == l {
            let count = t[i].1;
            proof {
                assert(old(t)@[i as int].0 == l);
                let k = tally_find(old(t)@, l)->Some_0;
                assert(old(t)@[k].0 == l);
                if k > i {
                    assert(old(t)@[i as int].0 != old(t)@[k].0);
                }
            }
            t.set(i, (l, count.saturating_add(n)));
            proof {
                assert forall|a: int, b: int| 0 <= a < b < t@.len() implies (#[trigger] t@[a]).0
                    != (#[trigger] t@[b]).0 by {
                    assert(old(t)@[a].0 != old(t)@[b].0);
                }
            }
            return;
        }
        i += 1;
    }
    assert(tally_find(old(t)@, l).is_none());
    t.push((l, n));
    assert forall|a: int, b: int| 0 <= a < b < t@.len() implies (#[trigger] t@[a]).0 != (
    #[trigger] t@[b]).0 by {
        if b < old(t)@.len() {
            assert(old(t)@[a].0 != old(t)@[b].0);
        }
    }
}

/// The language with the largest count, the first listed among equals;
/// `None` for an empty tally.
pub fn dominant(t: &Vec<(Lang, u64)>) -> (r: Option<Lang>)
    ensures
        r.is_none() <==> t@.len() == 0,
        r.is_some() ==> exists|i: int|
            0 <= i < t@.len() && #[trigger] t@[i].0 == r->Some_0 && (forall|j: int|
                0 <= j < t@.len() ==> t@[j].1 <= t@[i].1) && (forall|j: int|
                0 <= j < i ==> t@[j].1 < t@[i].1),
{
    if t.len() == 0 {
        return None;
    }
    let mut best: usize = 0;
    let mut i: usize = 1;
    while i < t.len()
        invariant
            1 <= i <= t@.len(),
            best < i,
            forall|j: int| 0 <= j < i ==> t@[j].1 <= t@[best as int].1,
            forall|j: int| 0 <= j < best ==> t@[j].1 < t@[best as int].1,
        decreases t@.len() - i,
    {
        if t[i].1 > t[best].1 {
            best = i;
        }
        i += 1;
    }
    let r = t[best].0;
    assert(t@[best as int].0 == r);
    Some(r)
}

/// Adds every entry of `more` to the tally `t`; each count stops at the
/// largest `u64`.
pub fn tally_merge(t: &mut Vec<(Lang, u64)>, more: &Vec<(Lang, u64)>)
    requires
        tally_wf(old(t)@),
    ensures
        tally_wf(final(t)@),
        forall|l: Lang| #[trigger] tally_count(final(t)@, l) == cap(tally_count(old(t)@, l) + entries_sum(more@, l, more@.len() as int)),
{
    let mut i: usize = 0;
    while i < more.len()
        invariant
            i <= more@.len(),
            tally_wf(t@),
            forall|l: Lang| #[trigger] tally_count(t@, l) == cap(tally_count(old(t)@, l) + entries_sum(more@, l, i as int)),
        decreases more@.len() - i,
    {
        let ghost before = t@;
        tally_add(t, more[i].0, more[i].1);
        proof {
            assert forall|l: Lang| #[trigger] tally_count(t@, l) == cap(tally_count(old(t)@, l) + entries_sum(more@, l, i + 1)) by {
                lemma_count_after_add(before, more@[i as int].0, more@[i as int].1, t@, l);
                assert(tally_count(before, l) == cap(tally_count(old(t)@, l) + entries_sum(more@, l, i as int)));
                assert(tally_count(before, l) >= 0) by {
                    if let Some(j) = tally_find(before, l) {
                        assert(before[j].1 >= 0);
                    }
                }
                assert(entries_sum(more@, l, i as int) >= 0) by {
                    lemma_entries_nonneg(more@, l, i as int);
                }
                assert(tally_count(old(t)@, l) >= 0) by {
                    if let Some(j) = tally_find(old(t)@, l) {
                        assert(old(t)@[j].1 >= 0);
                    }
                }
            }
        }
        i += 1;
    }
}

/// A sum of counts is never negative.
pub proof fn lemma_entries_nonneg(more: Seq<(Lang, u64)>, l: Lang, n: int)
    ensures
        entries_sum(more, l, n) >= 0,
    decreases n,
{
    if n > 0 {
        lemma_entries_nonneg(more, l, n - 1);
    }
}

} // verus!
