//! The text side of semantic search: how many candidates to ask the vector
//! index for, how to rank what it returns, and which texts go to the embedder.
use vstd::prelude::*;
use crate::ranking::{sort_by_score_desc, sorted_desc, stable_sorted_desc};
use crate::text::{trim, trimmed};

verus! {

/// How many candidates a search for `limit` results asks the index for: twice
/// the limit, and never fewer than 20.
pub open spec fn spec_search_limit(limit: int) -> int {
    if 2 * limit > 20 {
        2 * limit
    } else {
        20
    }
}

/// The number of candidates to fetch for a search of `limit` results,
/// `(limit * 2).max(20)`.
pub fn search_limit(limit: i32) -> (r: i32)
    requires
        i32::MIN <= 2 * limit <= i32::MAX,
    ensures
        r == spec_search_limit(limit as int),
{
    let doubled = limit * 2;
    if doubled > 20 {
        doubled
    } else {
        20
    }
}

/// A ranked list cut to `limit` entries; a negative limit keeps everything.
pub open spec fn truncated<T>(s: Seq<T>, limit: int) -> Seq<T> {
    if limit < 0 || limit >= s.len() {
        s
    } else {
        s.take(limit)
    }
}

/// Ranks `(rowid, similarity key)` candidates best first, equal keys in the
/// order the index returned them, and keeps the first `limit`.
pub fn rank_matches(matches: Vec<(i64, u32)>, limit: i32) -> (out: Vec<(i64, u32)>)
    ensures
        exists|sorted: Seq<(i64, u32)>|
            stable_sorted_desc(matches@, sorted) && out@ == #[trigger] truncated(sorted, limit as int),
        sorted_desc(out@),
        out.len() <= matches.len(),
        limit >= 0 ==> out.len() <= limit,
        limit < 0 || limit >= matches.len() ==> out.len() == matches.len(),
{
    let ghost m = matches@;
    let mut sorted = sort_by_score_desc(matches);
    let ghost s = sorted@;
    if limit >= 0 && (limit as usize) < sorted.len() {
        sorted.truncate(limit as usize);
        assert(sorted@ =~= s.take(limit as int));
    }
    assert(sorted@ == truncated(s, limit as int));
    sorted
}

/// The views of a sequence of strings.
pub open spec fn views(s: Seq<String>) -> Seq<Seq<char>> {
    Seq::new(s.len(), |i: int| s[i]@)
}

/// Each text trimmed, the blank ones left out, in their given order.
pub open spec fn trimmed_nonblank(s: Seq<Seq<char>>) -> Seq<Seq<char>>
    decreases s.len(),
{
    if s.len() == 0 {
        Seq::empty()
    } else {
        let rest = trimmed_nonblank(s.drop_last());
        if trimmed(s.last()).len() == 0 {
            rest
        } else {
            rest.push(trimmed(s.last()))
        }
    }
}

/// The texts of a batch as they go to the embedder: each trimmed, blank ones
/// dropped. An empty batch is refused with "No texts provided", and a batch of
/// blank texts with "All texts are empty".
pub fn prepare_batch_texts(texts: &Vec<String>) -> (r: Result<Vec<String>, String>)
    ensures
        match r {
            Ok(v) => texts.len() > 0 && trimmed_nonblank(views(texts@)).len() > 0 && views(v@)
                == trimmed_nonblank(views(texts@)),
            Err(e) => if texts.len() == 0 {
                e@ == "No texts provided"@
            } else {
                trimmed_nonblank(views(texts@)).len() == 0 && e@ == "All texts are empty"@
            },
        },
{
    if texts.len() == 0 {
        return Err("No texts provided".to_owned());
    }
    let mut out: Vec<String> = Vec::new();
    let mut i: usize = 0;
    assert(views(texts@).take(0) =~= Seq::<Seq<char>>::empty());
    while i < texts.len()
        invariant
            i <= texts.len(),
            views(out@) == trimmed_nonblank(views(texts@).take(i as int)),
        decreases texts.len() - i,
    {
        let t = trim(texts[i].as_str());
        let blank = t.as_str().is_empty();
        proof {
            let vs = views(texts@);
            assert(vs.take(i + 1).drop_last() =~= vs.take(i as int));
            assert(vs.take(i + 1).last() == texts@[i as int]@);
        }
        if !blank {
            let ghost before = views(out@);
            out.push(t);
            assert(views(out@) =~= before.push(trimmed(texts@[i as int]@)));
        }
        i = i + 1;
    }
    assert(views(texts@).take(texts.len() as int) =~= views(texts@));
    if out.len() == 0 {
        return Err("All texts are empty".to_owned());
    }
    Ok(out)
}

} // verus!
