//! Facts about sequences.

use vstd::prelude::*;

verus! {

/// What a filter keeps was there before.
pub proof fn lemma_filter_is_part<T>(s: Seq<T>, keep: spec_fn(T) -> bool, k: int)
    requires
        0 <= k < s.filter(keep).len(),
    ensures
        s.contains(s.filter(keep)[k]),
    decreases s.len(),
{
    reveal(Seq::filter);
    if s.len() > 0 {
        let front = s.drop_last();
        if k < front.filter(keep).len() {
            lemma_filter_is_part(front, keep, k);
            let i = choose|i: int| 0 <= i < front.len() && front[i] == front.filter(keep)[k];
            assert(s[i] == s.filter(keep)[k]);
        } else {
            assert(s[s.len() - 1] == s.filter(keep)[k]);
        }
    }
}

/// Filtering by what is seen of the elements and seeing what is left is the same in either
/// order.
pub proof fn lemma_filter_through_map<A, B>(
    s: Seq<A>,
    see: spec_fn(A) -> B,
    keep_a: spec_fn(A) -> bool,
    keep_b: spec_fn(B) -> bool,
)
    requires
        forall|a: A| #[trigger] keep_a(a) == keep_b(see(a)),
    ensures
        s.map_values(see).filter(keep_b) == s.filter(keep_a).map_values(see),
    decreases s.len(),
{
    reveal(Seq::filter);
    if s.len() > 0 {
        let front = s.drop_last();
        lemma_filter_through_map(front, see, keep_a, keep_b);
        assert(s.map_values(see).drop_last() == front.map_values(see));
        assert(s.map_values(see).last() == see(s.last()));
        assert(keep_a(s.last()) == keep_b(see(s.last())));
        if keep_a(s.last()) {
            assert(front.filter(keep_a).push(s.last()).map_values(see) == front.filter(
                keep_a,
            ).map_values(see).push(see(s.last())));
        }
    } else {
        assert(s.map_values(see).filter(keep_b) == s.filter(keep_a).map_values(see));
    }
}

} // verus!
