//! Facts about filtered sequences.

use vstd::prelude::*;

verus! {

/// Filtering a sequence with one more element keeps what was kept, and the
/// new element if it passes.
pub proof fn lemma_filter_push<A>(s: Seq<A>, x: A, pred: spec_fn(A) -> bool)
    ensures
        s.push(x).filter(pred) == if pred(x) {
            s.filter(pred).push(x)
        } else {
            s.filter(pred)
        },
{
    reveal(Seq::filter);
    assert(s.push(x).drop_last() == s);
}

/// What a filter keeps of the first `n` elements is the start of what it
/// keeps of all of them.
pub proof fn lemma_filter_take<A>(s: Seq<A>, pred: spec_fn(A) -> bool, n: int)
    requires
        0 <= n <= s.len(),
    ensures
        s.take(n).filter(pred).len() <= s.filter(pred).len(),
        s.take(n).filter(pred) == s.filter(pred).take(s.take(n).filter(pred).len() as int),
    decreases s.len(),
{
    reveal(Seq::filter);
    if n == s.len() {
        assert(s.take(n) == s);
    } else {
        let init = s.drop_last();
        lemma_filter_take(init, pred, n);
        assert(init.take(n) == s.take(n));
        let part = s.take(n).filter(pred);
        assert(init.filter(pred).take(part.len() as int) == s.filter(pred).take(
            part.len() as int,
        ));
    }
}

/// A filter that every element passes keeps the sequence as it is.
pub proof fn lemma_filter_all<A>(s: Seq<A>, pred: spec_fn(A) -> bool)
    requires
        forall|i: int| 0 <= i < s.len() ==> pred(#[trigger] s[i]),
    ensures
        s.filter(pred) == s,
    decreases s.len(),
{
    reveal(Seq::filter);
    if s.len() > 0 {
        lemma_filter_all(s.drop_last(), pred);
        assert(s.drop_last().push(s.last()) == s);
    }
}

/// A filter that no element passes leaves nothing.
pub proof fn lemma_filter_none<A>(s: Seq<A>, pred: spec_fn(A) -> bool)
    requires
        forall|i: int| 0 <= i < s.len() ==> !pred(#[trigger] s[i]),
    ensures
        s.filter(pred) == Seq::<A>::empty(),
    decreases s.len(),
{
    reveal(Seq::filter);
    if s.len() > 0 {
        lemma_filter_none(s.drop_last(), pred);
    }
}

} // verus!
