//! Snapshots and their differences.
//!
//! A snapshot is a sorted, duplicate-free listing of paths.  One poll replaces
//! the stored snapshot by a freshly normalized listing and derives the change
//! events from the difference between the two.

use vstd::prelude::*;

use crate::order::lemma_lex_lt_transitive;
use crate::order::lemma_lex_lt_trichotomy;
use crate::order::lex_lt;
use crate::order::sorted_distinct;
use crate::order::str_lt;

verus! {

/// The entries of `s` that do not occur in `excl`, in the order of `s`.
pub open spec fn seq_diff(s: Seq<Seq<char>>, excl: Seq<Seq<char>>) -> Seq<Seq<char>>
    decreases s.len(),
{
    if s.len() == 0 {
        Seq::empty()
    } else if excl.contains(s.last()) {
        seq_diff(s.drop_last(), excl)
    } else {
        seq_diff(s.drop_last(), excl).push(s.last())
    }
}

proof fn lemma_push_contains(s: Seq<Seq<char>>, e: Seq<char>, x: Seq<char>)
    ensures
        s.push(e).contains(x) <==> s.contains(x) || x == e,
{
    if s.push(e).contains(x) {
        let i = choose|i: int| 0 <= i < s.push(e).len() && s.push(e)[i] == x;
        if i < s.len() {
            assert(s[i] == x);
            assert(s.contains(x));
        }
    }
    if s.contains(x) {
        let i = choose|i: int| 0 <= i < s.len() && s[i] == x;
        assert(s.push(e)[i] == x);
        assert(s.push(e).contains(x));
    }
    if x == e {
        assert(s.push(e)[s.len() as int] == x);
        assert(s.push(e).contains(x));
    }
}

proof fn lemma_drop_last_contains(s: Seq<Seq<char>>, x: Seq<char>)
    requires
        s.len() > 0,
    ensures
        s.contains(x) <==> s.drop_last().contains(x) || x == s.last(),
{
    if s.contains(x) {
        let i = choose|i: int| 0 <= i < s.len() && s[i] == x;
        if i < s.len() - 1 {
            assert(s.drop_last()[i] == x);
            assert(s.drop_last().contains(x));
        }
    }
    if s.drop_last().contains(x) {
        let i = choose|i: int| 0 <= i < s.drop_last().len() && s.drop_last()[i] == x;
        assert(s[i] == x);
        assert(s.contains(x));
    }
    if x == s.last() {
        assert(s[s.len() - 1] == x);
        assert(s.contains(x));
    }
}

proof fn lemma_to_set_drop_last(s: Seq<Seq<char>>)
    requires
        s.len() > 0,
    ensures
        s.to_set() == s.drop_last().to_set().insert(s.last()),
{
    assert forall|x: Seq<char>|
        s.to_set().contains(x) == s.drop_last().to_set().insert(s.last()).contains(x) by {
        lemma_drop_last_contains(s, x);
    }
    assert(s.to_set() =~= s.drop_last().to_set().insert(s.last()));
}

/// An entry lies in a difference exactly when it lies in the first sequence
/// and not in the excluded one.
pub proof fn lemma_seq_diff_contains(s: Seq<Seq<char>>, excl: Seq<Seq<char>>, x: Seq<char>)
    ensures
        seq_diff(s, excl).contains(x) <==> s.contains(x) && !excl.contains(x),
    decreases s.len(),
{
    if s.len() > 0 {
        lemma_seq_diff_contains(s.drop_last(), excl, x);
        lemma_drop_last_contains(s, x);
        if !excl.contains(s.last()) {
            lemma_push_contains(seq_diff(s.drop_last(), excl), s.last(), x);
        }
    }
}

/// When every entry of `s` is excluded, nothing remains.
proof fn lemma_seq_diff_excluded(s: Seq<Seq<char>>, excl: Seq<Seq<char>>)
    requires
        forall|i: int| 0 <= i < s.len() ==> excl.contains(s[i]),
    ensures
        seq_diff(s, excl) == Seq::<Seq<char>>::empty(),
    decreases s.len(),
{
    if s.len() > 0 {
        assert(excl.contains(s[s.len() - 1]));
        assert forall|i: int| 0 <= i < s.drop_last().len() implies excl.contains(
            s.drop_last()[i],
        ) by {
            assert(s.drop_last()[i] == s[i]);
        }
        lemma_seq_diff_excluded(s.drop_last(), excl);
    }
}

/// A poll that observes no change yields neither additions nor removals, so
/// it appends no event.
pub proof fn lemma_seq_diff_self(s: Seq<Seq<char>>)
    ensures
        seq_diff(s, s) == Seq::<Seq<char>>::empty(),
{
    assert forall|i: int| 0 <= i < s.len() implies s.contains(s[i]) by {
        assert(s[i] == s[i]);
    }
    lemma_seq_diff_excluded(s, s);
}

/// The removals of a poll together with the unchanged entries make up exactly
/// the old snapshot; the additions together with the unchanged entries make up
/// exactly the new one; and no path is both added and removed.
pub proof fn lemma_diff_partition(a: Seq<Seq<char>>, b: Seq<Seq<char>>)
    ensures
        seq_diff(a, b).to_set().union(a.to_set().intersect(b.to_set())) == a.to_set(),
        seq_diff(b, a).to_set().union(a.to_set().intersect(b.to_set())) == b.to_set(),
        seq_diff(a, b).to_set().intersect(seq_diff(b, a).to_set()) == Set::<Seq<char>>::empty(),
{
    assert forall|x: Seq<char>| #[trigger]
        seq_diff(a, b).contains(x) <==> a.contains(x) && !b.contains(x) by {
        lemma_seq_diff_contains(a, b, x);
    }
    assert forall|x: Seq<char>| #[trigger]
        seq_diff(b, a).contains(x) <==> b.contains(x) && !a.contains(x) by {
        lemma_seq_diff_contains(b, a, x);
    }
    assert(seq_diff(a, b).to_set().union(a.to_set().intersect(b.to_set())) =~= a.to_set());
    assert(seq_diff(b, a).to_set().union(a.to_set().intersect(b.to_set())) =~= b.to_set());
    assert(seq_diff(a, b).to_set().intersect(seq_diff(b, a).to_set()) =~= Set::<
        Seq<char>,
    >::empty());
}

/// True when some entry of `v` reads the same as `x`.
fn contains_path(v: &Vec<String>, x: &String) -> (r: bool)
    ensures
        r == v.deep_view().contains(x@),
{
    let mut i: usize = 0;
    while i < v.len()
        invariant
            i <= v.len(),
            forall|j: int| 0 <= j < i ==> v.deep_view()[j] != x@,
        decreases v.len() - i,
    {
        if v[i] == *x {
            proof {
                assert(v.deep_view()[i as int] == x@);
            }
            return true;
        }
        proof {
            assert(v.deep_view()[i as int] == v@[i as int]@);
        }
        i = i + 1;
    }
    false
}

/// The entries of `v` that are absent from `excl`, in the order of `v`.
fn exclude(v: &Vec<String>, excl: &Vec<String>) -> (r: Vec<String>)
    ensures
        r.deep_view() == seq_diff(v.deep_view(), excl.deep_view()),
{
    let mut out: Vec<String> = Vec::new();
    let mut i: usize = 0;
    proof {
        assert(v.deep_view().take(0) =~= Seq::<Seq<char>>::empty());
    }
    while i < v.len()
        invariant
            i <= v.len(),
            out.deep_view() == seq_diff(v.deep_view().take(i as int), excl.deep_view()),
        decreases v.len() - i,
    {
        let ghost prior = out.deep_view();
        let inside = contains_path(excl, &v[i]);
        if !inside {
            out.push(v[i].clone());
            proof {
                assert(out.deep_view() =~= prior.push(v.deep_view()[i as int]));
            }
        }
        proof {
            let taken = v.deep_view().take(i + 1);
            assert(taken.drop_last() =~= v.deep_view().take(i as int));
            assert(taken.last() == v.deep_view()[i as int]);
            assert(out.deep_view() == seq_diff(taken, excl.deep_view()));
        }
        i = i + 1;
    }
    proof {
        assert(v.deep_view().take(v@.len() as int) =~= v.deep_view());
    }
    out
}

/// Compute one poll's changes: the additions are the entries of `current`
/// absent from `previous`, the removals the entries of `previous` absent from
/// `current`, each in the order of the listing it was drawn from.
pub fn diff(previous: &Vec<String>, current: &Vec<String>) -> (r: (Vec<String>, Vec<String>))
    ensures
        r.0.deep_view() == seq_diff(current.deep_view(), previous.deep_view()),
        r.1.deep_view() == seq_diff(previous.deep_view(), current.deep_view()),
{
    let added = exclude(current, previous);
    let removed = exclude(previous, current);
    (added, removed)
}

/// Position of the first entry of a sorted listing that is not below `x`.
fn lower_bound(v: &Vec<String>, x: &String) -> (i: usize)
    ensures
        i <= v@.len(),
        forall|j: int| 0 <= j < i ==> lex_lt(v.deep_view()[j], x@),
        i < v@.len() ==> !lex_lt(v.deep_view()[i as int], x@),
{
    let mut i: usize = 0;
    loop
        invariant
            i <= v@.len(),
            forall|j: int| 0 <= j < i ==> lex_lt(v.deep_view()[j], x@),
        ensures
            i <= v@.len(),
            forall|j: int| 0 <= j < i ==> lex_lt(v.deep_view()[j], x@),
            i < v@.len() ==> !lex_lt(v.deep_view()[i as int], x@),
        decreases v@.len() - i,
    {
        if i == v.len() {
            break;
        }
        let below = str_lt(v[i].as_str(), x.as_str());
        if !below {
            break;
        }
        proof {
            assert(v.deep_view()[i as int] == v@[i as int]@);
        }
        i = i + 1;
    }
    i
}

/// Insert a path into a sorted listing unless an equal entry is already there.
fn insert_sorted_unique(out: &mut Vec<String>, x: String)
    requires
        sorted_distinct(old(out).deep_view()),
    ensures
        sorted_distinct(final(out).deep_view()),
        final(out).deep_view().to_set() == old(out).deep_view().to_set().insert(x@),
{
    let ghost prior = out.deep_view();
    let i = lower_bound(out, &x);
    if i < out.len() && out[i] == x {
        proof {
            assert(prior[i as int] == x@);
            assert(prior.contains(x@));
            assert(prior.to_set() =~= prior.to_set().insert(x@));
        }
        return ;
    }
    proof {
        if i < prior.len() {
            lemma_lex_lt_trichotomy(x@, prior[i as int]);
        }
    }
    out.insert(i, x);
    proof {
        let updated = out.deep_view();
        assert forall|k: int| 0 <= k < updated.len() implies updated[k] == (if k < i {
            prior[k]
        } else if k == i {
            x@
        } else {
            prior[k - 1]
        }) by {
            assert(out@ == old(out)@.insert(i as int, x));
            assert(updated[k] == out@[k]@);
        }
        assert forall|k: int, l: int| 0 <= k < l < updated.len() implies lex_lt(
            updated[k],
            updated[l],
        ) by {
            if l < i {
            } else if l == i {
                assert(lex_lt(prior[k], x@));
            } else if k < i {
                assert(lex_lt(prior[k], prior[l - 1]));
            } else if k == i {
                assert(lex_lt(x@, prior[i as int]));
                if l - 1 > i {
                    assert(lex_lt(prior[i as int], prior[l - 1]));
                    lemma_lex_lt_transitive(x@, prior[i as int], prior[l - 1]);
                }
            } else {
                assert(lex_lt(prior[k - 1], prior[l - 1]));
            }
        }
        assert forall|y: Seq<char>|
            updated.to_set().contains(y) == prior.to_set().insert(x@).contains(y) by {
            if updated.contains(y) {
                let k = choose|k: int| 0 <= k < updated.len() && updated[k] == y;
                if k < i {
                    assert(prior[k] == y);
                    assert(prior.contains(y));
                } else if k > i {
                    assert(prior[k - 1] == y);
                    assert(prior.contains(y));
                }
            }
            if prior.contains(y) {
                let k = choose|k: int| 0 <= k < prior.len() && prior[k] == y;
                if k < i {
                    assert(updated[k] == y);
                } else {
                    assert(updated[k + 1] == y);
                }
                assert(updated.contains(y));
            }
            if y == x@ {
                assert(updated[i as int] == y);
                assert(updated.contains(y));
            }
        }
        assert(updated.to_set() =~= prior.to_set().insert(x@));
    }
}

/// Normalize a raw listing: sort it and drop duplicate entries.  The result
/// is the unique strictly ascending listing of the same set of paths.
pub fn normalize(v: &Vec<String>) -> (r: Vec<String>)
    ensures
        sorted_distinct(r.deep_view()),
        r.deep_view().to_set() == v.deep_view().to_set(),
{
    let mut out: Vec<String> = Vec::new();
    let mut i: usize = 0;
    proof {
        assert(v.deep_view().take(0) =~= Seq::<Seq<char>>::empty());
        assert(out.deep_view() =~= Seq::<Seq<char>>::empty());
        assert(out.deep_view().to_set() =~= v.deep_view().take(0).to_set());
    }
    while i < v.len()
        invariant
            i <= v.len(),
            sorted_distinct(out.deep_view()),
            out.deep_view().to_set() == v.deep_view().take(i as int).to_set(),
        decreases v.len() - i,
    {
        let e = v[i].clone();
        proof {
            assert(e@ == v.deep_view()[i as int]);
        }
        insert_sorted_unique(&mut out, e);
        proof {
            let taken = v.deep_view().take(i + 1);
            assert(taken.drop_last() =~= v.deep_view().take(i as int));
            assert(taken.last() == v.deep_view()[i as int]);
            lemma_to_set_drop_last(taken);
        }
        i = i + 1;
    }
    proof {
        assert(v.deep_view().take(v@.len() as int) =~= v.deep_view());
    }
    out
}

/// A fresh listing reading the same as `v`.
pub(crate) fn copy_paths(v: &Vec<String>) -> (r: Vec<String>)
    ensures
        r.deep_view() == v.deep_view(),
{
    let mut out: Vec<String> = Vec::new();
    let mut i: usize = 0;
    while i < v.len()
        invariant
            i <= v.len(),
            out.deep_view() == v.deep_view().take(i as int),
        decreases v.len() - i,
    {
        let ghost prior = out.deep_view();
        out.push(v[i].clone());
        proof {
            assert(out.deep_view() =~= prior.push(v.deep_view()[i as int]));
            assert(v.deep_view().take(i + 1) =~= prior.push(v.deep_view()[i as int]));
        }
        i = i + 1;
    }
    proof {
        assert(v.deep_view().take(v@.len() as int) =~= v.deep_view());
    }
    out
}

} // verus!
