//! Facts about dropping the characters a language does not use.
//!
//! The lexers are specified over the characters of their language in the
//! source, written `source.filter(keep)`.  The lemmas here are what the
//! lexers need to follow that specification one character at a time.

use vstd::prelude::*;

verus! {

/// Filtering twice with the same predicate changes nothing more.
pub proof fn lemma_filter_idempotent<A>(s: Seq<A>, keep: spec_fn(A) -> bool)
    ensures
        s.filter(keep).filter(keep) == s.filter(keep),
    decreases s.len(),
{
    reveal(Seq::filter);
    if s.len() > 0 {
        lemma_filter_idempotent(s.drop_last(), keep);
        if keep(s.last()) {
            s.drop_last().filter(keep).lemma_filter_push(s.last(), keep);
        }
    }
}

/// Filtering changes nothing where the predicate holds of every element.
pub proof fn lemma_filter_keeps_all<A>(s: Seq<A>, keep: spec_fn(A) -> bool)
    requires
        forall|i: int| 0 <= i < s.len() ==> keep(#[trigger] s[i]),
    ensures
        s.filter(keep) == s,
    decreases s.len(),
{
    reveal(Seq::filter);
    if s.len() > 0 {
        lemma_filter_keeps_all(s.drop_last(), keep);
        assert(s.drop_last().push(s.last()) =~= s);
    }
}

/// The prefix one element longer is the prefix with that element pushed.
pub proof fn lemma_take_next<A>(s: Seq<A>, i: int)
    requires
        0 <= i < s.len(),
    ensures
        s.take(i + 1) == s.take(i).push(s[i]),
{
    assert(s.take(i + 1) =~= s.take(i).push(s[i]));
}

/// Filtering a prefix one element longer either appends that element or
/// leaves the filtered prefix as it was.
pub proof fn lemma_filter_take_next<A>(s: Seq<A>, keep: spec_fn(A) -> bool, i: int)
    requires
        0 <= i < s.len(),
    ensures
        s.take(i + 1).filter(keep) == if keep(s[i]) {
            s.take(i).filter(keep).push(s[i])
        } else {
            s.take(i).filter(keep)
        },
{
    lemma_take_next(s, i);
    s.take(i).lemma_filter_push(s[i], keep);
}

/// Filtering a sequence is filtering a prefix of it and the rest, one after
/// the other.
pub proof fn lemma_filter_split<A>(s: Seq<A>, keep: spec_fn(A) -> bool, i: int)
    requires
        0 <= i <= s.len(),
    ensures
        s.filter(keep) == s.take(i).filter(keep) + s.skip(i).filter(keep),
{
    assert(s =~= s.take(i) + s.skip(i));
    Seq::filter_distributes_over_add(s.take(i), s.skip(i), keep);
}

/// Filtering what is left of a sequence either starts with its first
/// element or goes on as if that element were not there.
pub proof fn lemma_filter_skip_next<A>(s: Seq<A>, keep: spec_fn(A) -> bool, i: int)
    requires
        0 <= i < s.len(),
    ensures
        s.skip(i).filter(keep) == if keep(s[i]) {
            seq![s[i]] + s.skip(i + 1).filter(keep)
        } else {
            s.skip(i + 1).filter(keep)
        },
{
    let first = seq![s[i]];
    assert(s.skip(i) =~= first + s.skip(i + 1));
    Seq::filter_distributes_over_add(first, s.skip(i + 1), keep);
    assert(first.filter(keep) =~= if keep(s[i]) {
        first
    } else {
        Seq::empty()
    }) by {
        reveal_with_fuel(Seq::filter, 2);
        assert(first.drop_last() =~= Seq::empty());
    }
}

/// An element that the predicate rejects can be inserted anywhere without
/// a trace in the filtered sequence.
pub proof fn lemma_filter_insert_rejected<A>(
    s: Seq<A>,
    keep: spec_fn(A) -> bool,
    i: int,
    element: A,
)
    requires
        0 <= i <= s.len(),
        !keep(element),
    ensures
        s.insert(i, element).filter(keep) == s.filter(keep),
{
    let longer = s.insert(i, element);
    lemma_filter_split(s, keep, i);
    lemma_filter_split(longer, keep, i);
    lemma_filter_skip_next(longer, keep, i);
    assert(longer.take(i) =~= s.take(i));
    assert(longer.skip(i + 1) =~= s.skip(i));
}

} // verus!
