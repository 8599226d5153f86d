//! The shape of a decoded runtime call, as far as admission cares about it,
//! together with the spec-level measures the validator's contract is stated
//! over.

use vstd::prelude::*;

verus! {

broadcast use vstd::seq::group_seq_axioms, vstd::std_specs::vec::group_vec_axioms;

/// A decoded call, reduced to what the validator inspects.
///
/// Only two families of calls matter: the data-submission leaf, which is the
/// one operation a non-zero application identifier is allowed on, and the
/// three batching wrappers, which bundle an ordered sequence of inner calls.
/// Every other operation is collapsed into [`Call::Other`].
#[derive(Debug)]
pub enum Call {
    /// The restricted leaf: stores application data in the block's grid.
    SubmitData,
    /// A batch of inner calls, executed one after another.
    Batch(Vec<Call>),
    /// A batch of inner calls, executed atomically.
    BatchAll(Vec<Call>),
    /// A batch of inner calls, executed even if earlier ones fail.
    ForceBatch(Vec<Call>),
    /// Any operation that is neither data submission nor batching.
    Other,
}

/// Whether every leaf reachable from `c` is a data-submission call.
pub open spec fn all_leaves_submit(c: Call) -> bool
    decreases c,
{
    match c {
        Call::SubmitData => true,
        Call::Batch(cs) => forall|i: int|
            0 <= i < cs@.len() ==> all_leaves_submit(#[trigger] cs@[i]),
        Call::BatchAll(cs) => forall|i: int|
            0 <= i < cs@.len() ==> all_leaves_submit(#[trigger] cs@[i]),
        Call::ForceBatch(cs) => forall|i: int|
            0 <= i < cs@.len() ==> all_leaves_submit(#[trigger] cs@[i]),
        Call::Other => false,
    }
}

/// Whether at least one data-submission leaf is reachable from `c`.
pub open spec fn has_submit_leaf(c: Call) -> bool
    decreases c,
{
    match c {
        Call::SubmitData => true,
        Call::Batch(cs) => exists|i: int|
            0 <= i < cs@.len() && has_submit_leaf(#[trigger] cs@[i]),
        Call::BatchAll(cs) => exists|i: int|
            0 <= i < cs@.len() && has_submit_leaf(#[trigger] cs@[i]),
        Call::ForceBatch(cs) => exists|i: int|
            0 <= i < cs@.len() && has_submit_leaf(#[trigger] cs@[i]),
        Call::Other => false,
    }
}

/// How many batch wrappers `c` contains, itself included.
pub open spec fn composite_count(c: Call) -> nat
    decreases c, 1int, 0int,
{
    match c {
        Call::SubmitData => 0,
        Call::Batch(cs) => 1 + composite_count_prefix(cs@, cs@.len() as int),
        Call::BatchAll(cs) => 1 + composite_count_prefix(cs@, cs@.len() as int),
        Call::ForceBatch(cs) => 1 + composite_count_prefix(cs@, cs@.len() as int),
        Call::Other => 0,
    }
}

/// Batch wrappers contained in the first `n` calls of `s`.
pub open spec fn composite_count_prefix(s: Seq<Call>, n: int) -> nat
    decreases s, 0int, n,
{
    if n <= 0 || n > s.len() {
        0
    } else {
        composite_count_prefix(s, n - 1) + composite_count(s[n - 1])
    }
}

/// Number of nodes of the call tree `c`.
pub open spec fn size(c: Call) -> nat
    decreases c, 1int, 0int,
{
    match c {
        Call::SubmitData => 1,
        Call::Batch(cs) => 1 + size_prefix(cs@, cs@.len() as int),
        Call::BatchAll(cs) => 1 + size_prefix(cs@, cs@.len() as int),
        Call::ForceBatch(cs) => 1 + size_prefix(cs@, cs@.len() as int),
        Call::Other => 1,
    }
}

/// Nodes contained in the first `n` calls of `s`.
pub open spec fn size_prefix(s: Seq<Call>, n: int) -> nat
    decreases s, 0int, n,
{
    if n <= 0 || n > s.len() {
        0
    } else {
        size_prefix(s, n - 1) + size(s[n - 1])
    }
}

/// Whether every leaf of every call of the forest `s` is data submission.
pub open spec fn forest_all_submit(s: Seq<Call>) -> bool {
    forall|i: int| 0 <= i < s.len() ==> all_leaves_submit(#[trigger] s[i])
}

/// Whether some call of the forest `s` reaches a data-submission leaf.
pub open spec fn forest_has_submit(s: Seq<Call>) -> bool {
    exists|i: int| 0 <= i < s.len() && has_submit_leaf(#[trigger] s[i])
}

/// Batch wrappers contained in the forest `s`.
pub open spec fn composite_count_forest(s: Seq<Call>) -> nat {
    composite_count_prefix(s, s.len() as int)
}

/// Nodes contained in the forest `s`.
pub open spec fn size_forest(s: Seq<Call>) -> nat {
    size_prefix(s, s.len() as int)
}

/// Prefix counts only depend on the elements of the prefix.
pub proof fn lemma_count_prefix_agree(s1: Seq<Call>, s2: Seq<Call>, n: int)
    requires
        n <= s1.len(),
        n <= s2.len(),
        forall|i: int| 0 <= i < n ==> s1[i] == s2[i],
    ensures
        composite_count_prefix(s1, n) == composite_count_prefix(s2, n),
    decreases n,
{
    if n > 0 {
        lemma_count_prefix_agree(s1, s2, n - 1);
    }
}

/// Prefix sizes only depend on the elements of the prefix.
pub proof fn lemma_size_prefix_agree(s1: Seq<Call>, s2: Seq<Call>, n: int)
    requires
        n <= s1.len(),
        n <= s2.len(),
        forall|i: int| 0 <= i < n ==> s1[i] == s2[i],
    ensures
        size_prefix(s1, n) == size_prefix(s2, n),
    decreases n,
{
    if n > 0 {
        lemma_size_prefix_agree(s1, s2, n - 1);
    }
}

/// Removing the last call of a forest removes exactly its contribution.
pub proof fn lemma_forest_counts_drop_last(s: Seq<Call>)
    requires
        s.len() > 0,
    ensures
        composite_count_forest(s) == composite_count_forest(s.drop_last()) + composite_count(
            s.last(),
        ),
        size_forest(s) == size_forest(s.drop_last()) + size(s.last()),
{
    lemma_count_prefix_agree(s, s.drop_last(), s.len() - 1);
    lemma_size_prefix_agree(s, s.drop_last(), s.len() - 1);
}

/// Counts over a concatenation are the sums of the counts over the parts.
pub proof fn lemma_forest_counts_append(s1: Seq<Call>, s2: Seq<Call>)
    ensures
        composite_count_forest(s1 + s2) == composite_count_forest(s1) + composite_count_forest(s2),
        size_forest(s1 + s2) == size_forest(s1) + size_forest(s2),
    decreases s2.len(),
{
    if s2.len() == 0 {
        assert(s1 + s2 =~= s1);
    } else {
        lemma_forest_counts_append(s1, s2.drop_last());
        assert((s1 + s2).drop_last() =~= s1 + s2.drop_last());
        lemma_forest_counts_drop_last(s1 + s2);
        lemma_forest_counts_drop_last(s2);
        assert((s1 + s2).last() == s2.last());
    }
}

/// The leaf predicates of a forest split over its last call.
pub proof fn lemma_forest_preds_drop_last(s: Seq<Call>)
    requires
        s.len() > 0,
    ensures
        forest_all_submit(s) <==> (forest_all_submit(s.drop_last()) && all_leaves_submit(
            s.last(),
        )),
        forest_has_submit(s) <==> (forest_has_submit(s.drop_last()) || has_submit_leaf(s.last())),
{
    if forest_all_submit(s.drop_last()) && all_leaves_submit(s.last()) {
        assert forall|i: int| 0 <= i < s.len() implies all_leaves_submit(#[trigger] s[i]) by {
            if i < s.len() - 1 {
                assert(all_leaves_submit(s.drop_last()[i]));
            }
        }
    }
    if forest_has_submit(s.drop_last()) {
        let i = choose|i: int| 0 <= i < s.drop_last().len() && has_submit_leaf(
            #[trigger] s.drop_last()[i],
        );
        assert(has_submit_leaf(s[i]));
    }
    if forest_has_submit(s) {
        let i = choose|i: int| 0 <= i < s.len() && has_submit_leaf(#[trigger] s[i]);
        if i < s.len() - 1 {
            assert(has_submit_leaf(s.drop_last()[i]));
        }
    }
}

/// The leaf predicates of a concatenation split over its parts.
pub proof fn lemma_forest_preds_append(s1: Seq<Call>, s2: Seq<Call>)
    ensures
        forest_all_submit(s1 + s2) <==> (forest_all_submit(s1) && forest_all_submit(s2)),
        forest_has_submit(s1 + s2) <==> (forest_has_submit(s1) || forest_has_submit(s2)),
{
    if forest_all_submit(s1) && forest_all_submit(s2) {
        assert forall|i: int| 0 <= i < (s1 + s2).len() implies all_leaves_submit(
            #[trigger] (s1 + s2)[i],
        ) by {
            if i < s1.len() {
                assert(all_leaves_submit(s1[i]));
            } else {
                assert(all_leaves_submit(s2[i - s1.len()]));
            }
        }
    }
    if forest_all_submit(s1 + s2) {
        assert forall|i: int| 0 <= i < s1.len() implies all_leaves_submit(#[trigger] s1[i]) by {
            assert(all_leaves_submit((s1 + s2)[i]));
        }
        assert forall|i: int| 0 <= i < s2.len() implies all_leaves_submit(#[trigger] s2[i]) by {
            assert(all_leaves_submit((s1 + s2)[i + s1.len()]));
        }
    }
    if forest_has_submit(s1) {
        let i = choose|i: int| 0 <= i < s1.len() && has_submit_leaf(#[trigger] s1[i]);
        assert(has_submit_leaf((s1 + s2)[i]));
    }
    if forest_has_submit(s2) {
        let i = choose|i: int| 0 <= i < s2.len() && has_submit_leaf(#[trigger] s2[i]);
        assert(has_submit_leaf((s1 + s2)[i + s1.len()]));
    }
    if forest_has_submit(s1 + s2) {
        let i = choose|i: int| 0 <= i < (s1 + s2).len() && has_submit_leaf(#[trigger] (s1 + s2)[i]);
        if i < s1.len() {
            assert(has_submit_leaf(s1[i]));
        } else {
            assert(has_submit_leaf(s2[i - s1.len()]));
        }
    }
}

} // verus!
