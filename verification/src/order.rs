//! What a filter leaves of a sequence: entries of the sequence, in the
//! order in which they stood.

use vstd::prelude::*;

verus! {

/// Whether `x` stands before `y` somewhere in `s`.
pub open spec fn in_order<A>(s: Seq<A>, x: A, y: A) -> bool {
    exists|a: int, b: int| #![trigger s[a], s[b]] 0 <= a < b < s.len() && s[a] == x && s[b] == y
}

/// Each entry that a filter leaves is an entry of the sequence that the
/// filter accepts, and two entries left stand in the order in which they
/// stood.
pub proof fn lemma_filter_keeps_order<A>(s: Seq<A>, pred: spec_fn(A) -> bool)
    ensures
        forall|i: int|
            0 <= i < s.filter(pred).len() ==> s.contains(#[trigger] s.filter(pred)[i]) && pred(
                s.filter(pred)[i],
            ),
        forall|i: int, j: int|
            0 <= i < j < s.filter(pred).len() ==> in_order(
                s,
                #[trigger] s.filter(pred)[i],
                #[trigger] s.filter(pred)[j],
            ),
    decreases s.len(),
{
    reveal(Seq::filter);
    let left = s.filter(pred);
    if s.len() > 0 {
        let head = s.drop_last();
        let head_left = head.filter(pred);
        lemma_filter_keeps_order(head, pred);
        assert forall|i: int| 0 <= i < left.len() implies s.contains(#[trigger] left[i]) && pred(
            left[i],
        ) by {
            if i < head_left.len() {
                assert(head.contains(head_left[i]));
                let k = choose|k: int| 0 <= k < head.len() && head[k] == head_left[i];
                assert(s[k] == left[i]);
            } else {
                assert(s[s.len() - 1] == left[i]);
            }
        }
        assert forall|i: int, j: int| 0 <= i < j < left.len() implies in_order(
            s,
            #[trigger] left[i],
            #[trigger] left[j],
        ) by {
            if j < head_left.len() {
                assert(in_order(head, head_left[i], head_left[j]));
                let (a, b) = choose|a: int, b: int|
                    #![trigger head[a], head[b]]
                    0 <= a < b < head.len() && head[a] == head_left[i] && head[b] == head_left[j];
                assert(s[a] == left[i] && s[b] == left[j]);
            } else {
                assert(head.contains(head_left[i]));
                let a = choose|a: int| 0 <= a < head.len() && head[a] == head_left[i];
                let b = s.len() - 1;
                assert(s[a] == left[i] && s[b] == left[j]);
            }
        }
    }
}

} // verus!
