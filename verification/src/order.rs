//! A total order on paths.
//!
//! Snapshots keep their entries sorted, so the listing of a target does not
//! depend on the order in which the glob patterns were given.  Paths are
//! compared lexicographically by Unicode code point.

use vstd::prelude::*;
use vstd::string::StrSliceExecFns;

verus! {

/// Strict lexicographic order on sequences of characters, by code point.
/// The empty sequence comes first.
pub open spec fn lex_lt(a: Seq<char>, b: Seq<char>) -> bool
    decreases a.len(),
{
    if b.len() == 0 {
        false
    } else if a.len() == 0 {
        true
    } else if (a[0] as u32) < (b[0] as u32) {
        true
    } else if (b[0] as u32) < (a[0] as u32) {
        false
    } else {
        lex_lt(a.drop_first(), b.drop_first())
    }
}

/// A sequence of paths that is strictly ascending, hence free of duplicates.
pub open spec fn sorted_distinct(s: Seq<Seq<char>>) -> bool {
    forall|i: int, j: int| 0 <= i < j < s.len() ==> lex_lt(s[i], s[j])
}

proof fn lemma_char_cast_injective(x: char, y: char)
    requires
        x as u32 == y as u32,
    ensures
        x == y,
{
}

pub proof fn lemma_lex_lt_irreflexive(a: Seq<char>)
    ensures
        !lex_lt(a, a),
    decreases a.len(),
{
    if a.len() > 0 {
        lemma_lex_lt_irreflexive(a.drop_first());
    }
}

pub proof fn lemma_lex_lt_transitive(a: Seq<char>, b: Seq<char>, c: Seq<char>)
    requires
        lex_lt(a, b),
        lex_lt(b, c),
    ensures
        lex_lt(a, c),
    decreases a.len(),
{
    if a.len() > 0 && b.len() > 0 && c.len() > 0 {
        if (a[0] as u32) == (b[0] as u32) && (b[0] as u32) == (c[0] as u32) {
            lemma_lex_lt_transitive(a.drop_first(), b.drop_first(), c.drop_first());
        }
    }
}

pub proof fn lemma_lex_lt_asymmetric(a: Seq<char>, b: Seq<char>)
    requires
        lex_lt(a, b),
    ensures
        !lex_lt(b, a),
{
    if lex_lt(b, a) {
        lemma_lex_lt_transitive(a, b, a);
        lemma_lex_lt_irreflexive(a);
    }
}

/// Any two paths are ordered one way or the other, or they are equal.
pub proof fn lemma_lex_lt_trichotomy(a: Seq<char>, b: Seq<char>)
    ensures
        lex_lt(a, b) || lex_lt(b, a) || a == b,
    decreases a.len(),
{
    if a.len() == 0 && b.len() == 0 {
        assert(a =~= b);
    } else if a.len() > 0 && b.len() > 0 {
        if (a[0] as u32) == (b[0] as u32) {
            lemma_lex_lt_trichotomy(a.drop_first(), b.drop_first());
            if a.drop_first() == b.drop_first() {
                lemma_char_cast_injective(a[0], b[0]);
                assert(a.drop_first().len() == a.len() - 1);
                assert(b.drop_first().len() == b.len() - 1);
                assert(a.len() == b.len());
                assert forall|i: int| 0 <= i < a.len() implies a[i] == b[i] by {
                    if i > 0 {
                        assert(a[i] == a.drop_first()[i - 1]);
                        assert(b[i] == b.drop_first()[i - 1]);
                    }
                }
                assert(a =~= b);
            }
        }
    }
}

/// A set of paths has exactly one strictly ascending arrangement, so any
/// operation whose result is pinned down as "sorted, duplicate-free, and
/// holding such-and-such a set" is deterministic; in particular the listing
/// of a target cannot depend on the order of its patterns.
pub proof fn lemma_sorted_distinct_unique(s1: Seq<Seq<char>>, s2: Seq<Seq<char>>)
    requires
        sorted_distinct(s1),
        sorted_distinct(s2),
        s1.to_set() == s2.to_set(),
    ensures
        s1 == s2,
    decreases s1.len(),
{
    if s1.len() == 0 {
        if s2.len() > 0 {
            assert(s1.to_set().contains(s2[0]));
            assert(false);
        }
        assert(s1 =~= s2);
    } else if s2.len() == 0 {
        assert(s2.to_set().contains(s1[0]));
        assert(false);
    } else {
        assert(s1[0] == s2[0]) by {
            assert(s2.to_set().contains(s1[0]));
            assert(s1.to_set().contains(s2[0]));
            let k = choose|k: int| 0 <= k < s2.len() && s2[k] == s1[0];
            let m = choose|m: int| 0 <= m < s1.len() && s1[m] == s2[0];
            if k > 0 && m > 0 {
                assert(lex_lt(s2[0], s2[k]));
                assert(lex_lt(s1[0], s1[m]));
                lemma_lex_lt_asymmetric(s2[0], s1[0]);
            }
        }
        let t1 = s1.drop_first();
        let t2 = s2.drop_first();
        assert(t1.to_set() == t2.to_set()) by {
            assert forall|x: Seq<char>| t1.to_set().contains(x) implies t2.to_set().contains(
                x,
            ) by {
                lemma_tail_membership(s1, s2, x);
            }
            assert forall|x: Seq<char>| t2.to_set().contains(x) implies t1.to_set().contains(
                x,
            ) by {
                lemma_tail_membership(s2, s1, x);
            }
            assert(t1.to_set() =~= t2.to_set());
        }
        lemma_sorted_distinct_unique(t1, t2);
        assert forall|i: int| 0 <= i < s1.len() implies s1[i] == s2[i] by {
            if i > 0 {
                assert(s1[i] == t1[i - 1]);
                assert(s2[i] == t2[i - 1]);
            }
        }
        assert(s1 =~= s2);
    }
}

/// An element of the tail of one of two sorted sequences with equal sets and
/// equal heads lies in the tail of the other.
proof fn lemma_tail_membership(s1: Seq<Seq<char>>, s2: Seq<Seq<char>>, x: Seq<char>)
    requires
        sorted_distinct(s1),
        sorted_distinct(s2),
        s1.len() > 0,
        s2.len() > 0,
        s1.to_set() == s2.to_set(),
        s1[0] == s2[0],
        s1.drop_first().to_set().contains(x),
    ensures
        s2.drop_first().to_set().contains(x),
{
    let t1 = s1.drop_first();
    let i = choose|i: int| 0 <= i < t1.len() && t1[i] == x;
    assert(s1[i + 1] == x);
    assert(lex_lt(s1[0], x));
    assert(s1.to_set().contains(x)) by {
        assert(s1.contains(x));
    }
    assert(s2.to_set().contains(x));
    let j = choose|j: int| 0 <= j < s2.len() && s2[j] == x;
    if j == 0 {
        lemma_lex_lt_irreflexive(x);
    }
    assert(s2.drop_first()[j - 1] == x);
    assert(s2.drop_first().contains(x));
}

/// If the first `i` characters of `a` and `b` agree, their order is decided
/// by what remains.
proof fn lemma_lex_lt_common_prefix(a: Seq<char>, b: Seq<char>, i: int)
    requires
        0 <= i <= a.len(),
        i <= b.len(),
        forall|j: int| 0 <= j < i ==> a[j] == b[j],
    ensures
        lex_lt(a, b) == lex_lt(a.skip(i), b.skip(i)),
    decreases i,
{
    if i == 0 {
        assert(a.skip(0) =~= a);
        assert(b.skip(0) =~= b);
    } else {
        assert(a[0] == b[0]);
        lemma_lex_lt_common_prefix(a.drop_first(), b.drop_first(), i - 1);
        assert(a.drop_first().skip(i - 1) =~= a.skip(i));
        assert(b.drop_first().skip(i - 1) =~= b.skip(i));
    }
}

/// Executable comparison of two paths, matching `lex_lt` on their views.
pub fn str_lt(a: &str, b: &str) -> (r: bool)
    ensures
        r == lex_lt(a@, b@),
{
    let a_len: usize = a.unicode_len();
    let b_len: usize = b.unicode_len();
    let mut i: usize = 0;
    while i < a_len && i < b_len
        invariant
            a_len == a@.len(),
            b_len == b@.len(),
            0 <= i <= a_len,
            i <= b_len,
            forall|j: int| 0 <= j < i ==> a@[j] == b@[j],
        decreases a_len - i,
    {
        let ca = a.get_char(i);
        let cb = b.get_char(i);
        if (ca as u32) < (cb as u32) {
            proof {
                lemma_lex_lt_common_prefix(a@, b@, i as int);
                assert(a@.skip(i as int)[0] == a@[i as int]);
                assert(b@.skip(i as int)[0] == b@[i as int]);
            }
            return true;
        }
        if (cb as u32) < (ca as u32) {
            proof {
                lemma_lex_lt_common_prefix(a@, b@, i as int);
                assert(a@.skip(i as int)[0] == a@[i as int]);
                assert(b@.skip(i as int)[0] == b@[i as int]);
            }
            return false;
        }
        proof {
            assert(a@[i as int] == b@[i as int]);
        }
        i = i + 1;
    }
    proof {
        lemma_lex_lt_common_prefix(a@, b@, i as int);
    }
    a_len < b_len
}

} // verus!
