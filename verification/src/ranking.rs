//! Ordering of scored items, best first, keeping the given order among equal
//! scores.
//!
//! A score is the order key of a similarity: a `u32` that orders as the
//! similarity itself does, so that a higher key means a closer match.
use vstd::prelude::*;

verus! {

/// Items that carry a similarity order key.
pub trait Scored: Sized {
    spec fn score_of(&self) -> u32;

    fn score(&self) -> (r: u32)
        ensures
            r == self.score_of(),
    ;
}

impl Scored for (i64, u32) {
    open spec fn score_of(&self) -> u32 {
        self.1
    }

    fn score(&self) -> (r: u32) {
        self.1
    }
}

/// Scores never increase along the sequence.
pub open spec fn sorted_desc<T: Scored>(s: Seq<T>) -> bool {
    forall|a: int, b: int| 0 <= a < b < s.len() ==> (#[trigger] s[a]).score_of() >= (#[trigger] s[b]).score_of()
}

/// `p` lists each index below `n` exactly once.
pub open spec fn is_index_permutation(p: Seq<int>, n: int) -> bool {
    &&& p.len() == n
    &&& forall|i: int| 0 <= i < n ==> 0 <= #[trigger] p[i] < n
    &&& p.no_duplicates()
}

/// `output` holds the items of `input`, best score first, and items of equal
/// score in the order they had in `input` (a stable sort, descending).
pub open spec fn stable_sorted_desc<T: Scored>(input: Seq<T>, output: Seq<T>) -> bool {
    &&& output.len() == input.len()
    &&& output.to_multiset() == input.to_multiset()
    &&& sorted_desc(output)
    &&& exists|p: Seq<int>| #[trigger] is_index_permutation(p, input.len() as int) && {
        &&& forall|i: int| 0 <= i < output.len() ==> output[i] == input[#[trigger] p[i]]
        &&& forall|a: int, b: int|
            0 <= a < b < output.len() && (#[trigger] output[a]).score_of() == (#[trigger] output[b]).score_of()
                ==> p[a] < p[b]
    }
}

/// The items, best score first, equal scores in their given order; what a
/// stable `sort_by` on descending similarity gives.
pub fn sort_by_score_desc<T: Scored>(items: Vec<T>) -> (out: Vec<T>)
    ensures
        stable_sorted_desc(items@, out@),
{
    let ghost orig = items@;
    let mut rest = items;
    let mut out: Vec<T> = Vec::new();
    let ghost mut p: Seq<int> = Seq::empty();
    let n = rest.len();
    let mut i: usize = 0;
    assert(orig.skip(0) =~= orig);
    assert(orig.take(0) =~= Seq::<T>::empty());
    while i < n
        invariant
            n == orig.len(),
            i <= n,
            rest@ == orig.skip(i as int),
            out.len() == i,
            p.len() == i,
            forall|x: int| 0 <= x < i ==> 0 <= #[trigger] p[x] < i,
            p.no_duplicates(),
            forall|x: int| 0 <= x < i ==> out@[x] == orig[#[trigger] p[x]],
            sorted_desc(out@),
            out@.to_multiset() == orig.take(i as int).to_multiset(),
            forall|a: int, b: int|
                0 <= a < b < i && (#[trigger] out@[a]).score_of() == (#[trigger] out@[b]).score_of()
                    ==> p[a] < p[b],
        decreases n - i,
    {
        let x = rest.remove(0);
        assert(x == orig[i as int]);
        assert(rest@ =~= orig.skip(i + 1));
        let key = x.score();
        let mut pos: usize = 0;
        while pos < out.len() && out[pos].score() >= key
            invariant
                pos <= out.len(),
                forall|a: int| 0 <= a < pos ==> (#[trigger] out@[a]).score_of() >= key,
            decreases out.len() - pos,
        {
            pos = pos + 1;
        }
        let ghost old_out = out@;
        let ghost old_p = p;
        out.insert(pos, x);
        proof {
            vstd::seq_lib::to_multiset_insert(old_out, pos as int, x);
            assert(orig.take(i + 1) =~= orig.take(i as int).push(x));
            vstd::seq_lib::to_multiset_build(orig.take(i as int), x);
            p = old_p.insert(pos as int, i as int);
            assert forall|a: int| pos <= a < old_out.len() implies (#[trigger] old_out[a]).score_of() < key by {
                assert(old_out[pos as int].score_of() < key);
                if a > pos {
                    assert(old_out[pos as int].score_of() >= old_out[a].score_of());
                }
            }
            assert forall|x2: int| 0 <= x2 < i + 1 implies 0 <= #[trigger] p[x2] < i + 1 by {
                if x2 < pos {
                    assert(p[x2] == old_p[x2]);
                } else if x2 > pos {
                    assert(p[x2] == old_p[x2 - 1]);
                }
            }
            assert forall|a: int, b: int| 0 <= a < b < p.len() implies p[a] != p[b] by {
                if a < pos && b < pos {
                    assert(p[a] == old_p[a] && p[b] == old_p[b]);
                } else if a < pos && b == pos {
                    assert(p[a] == old_p[a]);
                } else if a < pos && b > pos {
                    assert(p[a] == old_p[a] && p[b] == old_p[b - 1]);
                } else if a == pos {
                    assert(p[b] == old_p[b - 1]);
                } else {
                    assert(p[a] == old_p[a - 1] && p[b] == old_p[b - 1]);
                }
            }
            assert(p.no_duplicates());
            assert forall|x2: int| 0 <= x2 < i + 1 implies out@[x2] == orig[#[trigger] p[x2]] by {
                if x2 < pos {
                    assert(p[x2] == old_p[x2]);
                } else if x2 > pos {
                    assert(p[x2] == old_p[x2 - 1]);
                }
            }
            assert forall|a: int, b: int| 0 <= a < b < out@.len() implies (#[trigger] out@[a]).score_of()
                >= (#[trigger] out@[b]).score_of() by {
                if b < pos {
                    assert(out@[a] == old_out[a] && out@[b] == old_out[b]);
                } else if b == pos {
                    assert(out@[a] == old_out[a]);
                } else if a < pos {
                    assert(out@[a] == old_out[a] && out@[b] == old_out[b - 1]);
                } else if a == pos {
                    assert(out@[b] == old_out[b - 1]);
                } else {
                    assert(out@[a] == old_out[a - 1] && out@[b] == old_out[b - 1]);
                }
            }
            assert forall|a: int, b: int|
                0 <= a < b < i + 1 && (#[trigger] out@[a]).score_of() == (#[trigger] out@[b]).score_of()
                    implies p[a] < p[b] by {
                if b < pos {
                    assert(out@[a] == old_out[a] && out@[b] == old_out[b]);
                    assert(p[a] == old_p[a] && p[b] == old_p[b]);
                } else if b == pos {
                    assert(p[a] == old_p[a]);
                } else if a < pos {
                    assert(out@[a] == old_out[a] && out@[b] == old_out[b - 1]);
                    assert(p[a] == old_p[a] && p[b] == old_p[b - 1]);
                    if a < pos && b - 1 >= pos {
                        assert(old_out[b - 1].score_of() < key);
                        assert(old_out[a].score_of() >= key);
                    }
                } else if a == pos {
                    assert(out@[b] == old_out[b - 1]);
                    assert(old_out[b - 1].score_of() < key);
                } else {
                    assert(out@[a] == old_out[a - 1] && out@[b] == old_out[b - 1]);
                    assert(p[a] == old_p[a - 1] && p[b] == old_p[b - 1]);
                }
            }
        }
        i = i + 1;
    }
    assert(is_index_permutation(p, orig.len() as int));
    assert(orig.take(n as int) =~= orig);
    out
}


proof fn lemma_index_permutation_onto(p: Seq<int>, n: int, j: int)
    requires
        is_index_permutation(p, n),
        0 <= j < n,
    ensures
        exists|i: int| 0 <= i < n && #[trigger] p[i] == j,
{
    if !(exists|i: int| 0 <= i < n && #[trigger] p[i] == j) {
        let range = vstd::set_lib::set_int_range(0, n);
        let others = range.remove(j);
        vstd::set_lib::lemma_int_range(0, n);
        p.unique_seq_to_set();
        assert(p.to_set().subset_of(others)) by {
            assert forall|v: int| p.to_set().contains(v) implies others.contains(v) by {
                let i = choose|i: int| 0 <= i < p.len() && p[i] == v;
                assert(0 <= p[i] < n);
            }
        }
        vstd::set_lib::lemma_len_subset(p.to_set(), others);
        assert(range.contains(j));
    }
}

/// `x` stands somewhere in `s`.
pub open spec fn appears_in<T>(s: Seq<T>, x: T) -> bool {
    exists|i: int| 0 <= i < s.len() && s[i] == x
}

/// Sorting loses and invents nothing: every item of the input stands in the
/// output and every item of the output comes from the input, each as often
/// (the two hold the same multiset).
pub proof fn lemma_sorted_output_is_rearrangement<T: Scored>(input: Seq<T>, output: Seq<T>)
    requires
        stable_sorted_desc(input, output),
    ensures
        output.len() == input.len(),
        output.to_multiset() == input.to_multiset(),
        forall|j: int| 0 <= j < input.len() ==> appears_in(output, #[trigger] input[j]),
        forall|i: int| 0 <= i < output.len() ==> appears_in(input, #[trigger] output[i]),
{
    let p = choose|p: Seq<int>| #[trigger] is_index_permutation(p, input.len() as int) && {
        &&& forall|i: int| 0 <= i < output.len() ==> output[i] == input[#[trigger] p[i]]
        &&& forall|a: int, b: int|
            0 <= a < b < output.len() && (#[trigger] output[a]).score_of() == (#[trigger] output[b]).score_of()
                ==> p[a] < p[b]
    };
    assert forall|j: int| 0 <= j < input.len() implies appears_in(output, #[trigger] input[j]) by {
        lemma_index_permutation_onto(p, input.len() as int, j);
        let i = choose|i: int| 0 <= i < input.len() && #[trigger] p[i] == j;
        assert(output[i] == input[p[i]]);
    }
    assert forall|i: int| 0 <= i < output.len() implies appears_in(input, #[trigger] output[i]) by {
        assert(output[i] == input[p[i]]);
        assert(0 <= p[i] < input.len());
    }
}

} // verus!
