//! Ordering and pagination groundwork for search results: a stable
//! insertion sort by descending score, pinned to a spec function so that
//! equal inputs give one and the same ordering, and the fixed-size page
//! slice.

use vstd::multiset::Multiset;
use vstd::prelude::*;

use crate::ids::ChunkId;

verus! {

/// The page size of every search response.
pub const PAGE_SIZE: u64 = 10;

/// A candidate chunk paired with its relevance score (higher is better).
#[derive(Clone, Copy, PartialEq, Eq, Structural, Debug)]
pub struct RankedId {
    pub id: ChunkId,
    pub score: u64,
}

/// Scores never increase along the sequence.
pub open spec fn sorted_desc(s: Seq<RankedId>) -> bool {
    forall|i: int, j: int| 0 <= i < j < s.len() ==> s[i].score >= s[j].score
}

/// Insertion into a descending list: `x` goes after every element with a
/// score at least its own, so insertion is stable.
pub open spec fn spec_insert_desc(s: Seq<RankedId>, x: RankedId) -> Seq<RankedId>
    decreases s.len(),
{
    if s.len() == 0 {
        seq![x]
    } else if s[0].score >= x.score {
        seq![s[0]] + spec_insert_desc(s.skip(1), x)
    } else {
        seq![x] + s
    }
}

/// Stable sort by descending score: insert the elements left to right.
pub open spec fn spec_sort_desc(s: Seq<RankedId>) -> Seq<RankedId>
    decreases s.len(),
{
    if s.len() == 0 {
        Seq::empty()
    } else {
        spec_insert_desc(spec_sort_desc(s.drop_last()), s.last())
    }
}

/// Insertion keeps any upper bound on the scores.
proof fn lemma_insert_desc_bound(s: Seq<RankedId>, x: RankedId, b: u64)
    requires
        forall|i: int| 0 <= i < s.len() ==> (#[trigger] s[i]).score <= b,
        x.score <= b,
    ensures
        forall|i: int|
            0 <= i < spec_insert_desc(s, x).len() ==> (#[trigger] spec_insert_desc(s, x)[i]).score
                <= b,
    decreases s.len(),
{
    let out = spec_insert_desc(s, x);
    if s.len() == 0 {
        assert(out =~= seq![x]);
    } else if s[0].score >= x.score {
        let tail = s.skip(1);
        assert(forall|i: int| 0 <= i < tail.len() ==> (#[trigger] tail[i]).score <= b);
        lemma_insert_desc_bound(tail, x, b);
        let inner = spec_insert_desc(tail, x);
        assert(out =~= seq![s[0]] + inner);
        assert(forall|j: int| 1 <= j < out.len() ==> out[j] == inner[j - 1]);
    } else {
        assert(out =~= seq![x] + s);
        assert(forall|j: int| 1 <= j < out.len() ==> out[j] == s[j - 1]);
    }
}

/// What insertion preserves: order, length and contents.
proof fn lemma_insert_desc_props(s: Seq<RankedId>, x: RankedId)
    requires
        sorted_desc(s),
    ensures
        sorted_desc(spec_insert_desc(s, x)),
        spec_insert_desc(s, x).len() == s.len() + 1,
        spec_insert_desc(s, x).to_multiset() == s.to_multiset().insert(x),
    decreases s.len(),
{
    broadcast use vstd::seq_lib::group_to_multiset_ensures;
    broadcast use vstd::multiset::group_multiset_axioms;
    broadcast use vstd::seq_lib::lemma_multiset_commutative;

    let out = spec_insert_desc(s, x);
    if s.len() == 0 {
        assert(out =~= seq![x]);
        assert(seq![x] =~= Seq::<RankedId>::empty().push(x));
        assert(out.to_multiset() =~= s.to_multiset().insert(x)) by {
            assert(s =~= Seq::<RankedId>::empty());
        }
    } else if s[0].score >= x.score {
        let tail = s.skip(1);
        assert(sorted_desc(tail)) by {
            assert(forall|i: int, j: int|
                0 <= i < j < tail.len() ==> tail[i] == s[i + 1] && tail[j] == s[j + 1]);
        }
        lemma_insert_desc_props(tail, x);
        let inner = spec_insert_desc(tail, x);
        assert(out =~= seq![s[0]] + inner);
        // Everything in the inner insertion is bounded by the head's score.
        assert(forall|i: int| 0 <= i < tail.len() ==> (#[trigger] tail[i]).score <= s[0].score);
        lemma_insert_desc_bound(tail, x, s[0].score);
        assert(sorted_desc(out)) by {
            assert(forall|i: int, j: int|
                1 <= i < j < out.len() ==> out[i] == inner[i - 1] && out[j] == inner[j - 1]);
            assert(forall|j: int| 1 <= j < out.len() ==> out[j] == inner[j - 1]);
        }
        assert(out.to_multiset() =~= s.to_multiset().insert(x)) by {
            assert((seq![s[0]] + inner).to_multiset() =~= seq![s[0]].to_multiset().add(
                inner.to_multiset(),
            ));
            assert(s =~= seq![s[0]] + tail);
            assert((seq![s[0]] + tail).to_multiset() =~= seq![s[0]].to_multiset().add(
                tail.to_multiset(),
            ));
            assert(inner.to_multiset() == tail.to_multiset().insert(x));
        }
    } else {
        assert(out =~= seq![x] + s);
        assert(sorted_desc(out)) by {
            assert(forall|j: int| 1 <= j < out.len() ==> out[j] == s[j - 1]);
            assert(forall|j: int| 1 <= j < out.len() ==> out[j].score <= x.score);
        }
        assert(out.to_multiset() =~= s.to_multiset().insert(x)) by {
            assert((seq![x] + s).to_multiset() =~= seq![x].to_multiset().add(s.to_multiset()));
            assert(seq![x] =~= Seq::<RankedId>::empty().push(x));
        }
    }
}

/// What the sort guarantees: a descending permutation of its input.
pub proof fn lemma_sort_desc_props(s: Seq<RankedId>)
    ensures
        sorted_desc(spec_sort_desc(s)),
        spec_sort_desc(s).len() == s.len(),
        spec_sort_desc(s).to_multiset() == s.to_multiset(),
    decreases s.len(),
{
    broadcast use vstd::seq_lib::group_to_multiset_ensures;

    if s.len() == 0 {
        assert(s.to_multiset() =~= spec_sort_desc(s).to_multiset());
    } else {
        let head = s.drop_last();
        lemma_sort_desc_props(head);
        lemma_insert_desc_props(spec_sort_desc(head), s.last());
        assert(s =~= head.push(s.last()));
        assert(s.to_multiset() =~= head.to_multiset().insert(s.last()));
    }
}

/// Inserting at the first position whose score is below `x`'s is what
/// [`spec_insert_desc`] does.
proof fn lemma_insert_at_position(s: Seq<RankedId>, x: RankedId, pos: int)
    requires
        sorted_desc(s),
        0 <= pos <= s.len(),
        forall|m: int| 0 <= m < pos ==> (#[trigger] s[m]).score >= x.score,
        pos < s.len() ==> s[pos].score < x.score,
    ensures
        spec_insert_desc(s, x) =~= s.take(pos) + seq![x] + s.skip(pos),
    decreases s.len(),
{
    if s.len() == 0 {
        assert(s.take(0) =~= Seq::<RankedId>::empty());
        assert(s.skip(0) =~= Seq::<RankedId>::empty());
    } else if s[0].score >= x.score {
        assert(pos >= 1);
        let tail = s.skip(1);
        assert(sorted_desc(tail)) by {
            assert(forall|i: int, j: int|
                0 <= i < j < tail.len() ==> tail[i] == s[i + 1] && tail[j] == s[j + 1]);
        }
        assert(forall|m: int| 0 <= m < pos - 1 ==> (#[trigger] tail[m]).score >= x.score) by {
            assert(forall|m: int| 0 <= m < pos - 1 ==> tail[m] == s[m + 1]);
        }
        assert(pos - 1 < tail.len() ==> tail[pos - 1].score < x.score);
        lemma_insert_at_position(tail, x, pos - 1);
        assert(seq![s[0]] + (tail.take(pos - 1) + seq![x] + tail.skip(pos - 1)) =~= s.take(pos)
            + seq![x] + s.skip(pos));
    } else {
        assert(pos == 0);
        assert(s.take(0) =~= Seq::<RankedId>::empty());
        assert(s.skip(0) =~= s);
        assert(seq![x] + s =~= s.take(0) + seq![x] + s.skip(0));
    }
}

/// Sorts candidates by descending score, stably: exactly
/// [`spec_sort_desc`], so one input has one output.
pub fn sort_by_score_desc(v: &Vec<RankedId>) -> (out: Vec<RankedId>)
    ensures
        out@ == spec_sort_desc(v@),
        sorted_desc(out@),
        out@.len() == v@.len(),
        out@.to_multiset() == v@.to_multiset(),
{
    let mut out: Vec<RankedId> = Vec::new();
    let mut i: usize = 0;
    proof {
        assert(v@.take(0) =~= Seq::<RankedId>::empty());
    }
    while i < v.len()
        invariant
            0 <= i <= v@.len(),
            out@ == spec_sort_desc(v@.take(i as int)),
            sorted_desc(out@),
            out@.len() == i,
        decreases v@.len() - i,
    {
        let x = v[i];
        // Find the first position whose score is below the new one.
        let mut pos: usize = 0;
        while pos < out.len() && out[pos].score >= x.score
            invariant
                0 <= pos <= out@.len(),
                forall|m: int| 0 <= m < pos ==> (#[trigger] out@[m]).score >= x.score,
            decreases out@.len() - pos,
        {
            pos = pos + 1;
        }
        let ghost before = out@;
        out.insert(pos, x);
        i = i + 1;
        proof {
            lemma_insert_at_position(before, x, pos as int);
            assert(out@ =~= before.take(pos as int) + seq![x] + before.skip(pos as int));
            assert(out@ =~= spec_insert_desc(before, x));
            assert(v@.take(i as int).drop_last() =~= v@.take(i - 1));
            assert(v@.take(i as int).last() == v@[i - 1]);
            lemma_insert_desc_props(before, x);
        }
    }
    proof {
        assert(v@.take(i as int) =~= v@);
        lemma_sort_desc_props(v@);
    }
    out
}

/// How many pages a candidate total fills: `ceil(total / PAGE_SIZE)`.
pub open spec fn spec_total_pages(total: int) -> int {
    (total + PAGE_SIZE - 1) / (PAGE_SIZE as int)
}

/// Computes [`spec_total_pages`]; the result fits the response's signed
/// field.
pub fn total_pages(total: u64) -> (r: i64)
    ensures
        r == spec_total_pages(total as int),
        r >= 0,
{
    let wide = (total as u128 + (PAGE_SIZE - 1) as u128) / (PAGE_SIZE as u128);
    proof {
        assert(wide as int == spec_total_pages(total as int));
        assert(wide < 0x8000_0000_0000_0000u128) by {
            vstd::arithmetic::div_mod::lemma_div_is_ordered(
                total as int + 9,
                u64::MAX as int + 9,
                10,
            );
        }
    }
    wide as i64
}

/// The page slice: results `(page-1)·PAGE_SIZE .. page·PAGE_SIZE` of the
/// ordered list, with a page below 1 reading as page 1.
pub open spec fn spec_paginate(s: Seq<RankedId>, page: int) -> Seq<RankedId> {
    let p = if page < 1 {
        1
    } else {
        page
    };
    let lo = (p - 1) * (PAGE_SIZE as int);
    let hi = p * (PAGE_SIZE as int);
    if lo >= s.len() {
        Seq::empty()
    } else if hi > s.len() {
        s.subrange(lo, s.len() as int)
    } else {
        s.subrange(lo, hi)
    }
}

/// Computes [`spec_paginate`].
pub fn paginate(s: &Vec<RankedId>, page: u64) -> (out: Vec<RankedId>)
    ensures
        out@ == spec_paginate(s@, page as int),
        out@.len() <= PAGE_SIZE,
{
    let p: u64 = if page < 1 {
        1
    } else {
        page
    };
    let ghost pi = p as int;
    let lo_wide = (p as u128 - 1) * (PAGE_SIZE as u128);
    let hi_wide = lo_wide + (PAGE_SIZE as u128);
    proof {
        assert(lo_wide as int == (pi - 1) * (PAGE_SIZE as int)) by (nonlinear_arith)
            requires
                lo_wide as int == (p as int - 1) * (PAGE_SIZE as int),
                pi == p as int,
        ;
        assert(hi_wide as int == pi * (PAGE_SIZE as int)) by (nonlinear_arith)
            requires
                hi_wide as int == (pi - 1) * (PAGE_SIZE as int) + PAGE_SIZE as int,
        ;
    }
    let n = s.len();
    let mut out: Vec<RankedId> = Vec::new();
    if lo_wide >= n as u128 {
        proof {
            assert(out@ =~= spec_paginate(s@, page as int));
        }
        return out;
    }
    let lo = lo_wide as usize;
    let hi = if hi_wide > n as u128 {
        n
    } else {
        hi_wide as usize
    };
    let mut j: usize = lo;
    while j < hi
        invariant
            lo <= j <= hi <= s@.len(),
            lo < s@.len(),
            out@ == s@.subrange(lo as int, j as int),
        decreases hi - j,
    {
        out.push(s[j]);
        j = j + 1;
        proof {
            assert(out@ =~= s@.subrange(lo as int, j as int));
        }
    }
    proof {
        assert(out@ =~= spec_paginate(s@, page as int));
    }
    out
}

/// Law: pagination shorts no page but the last. When the requested page
/// lies strictly before the last page that `total` announces, and the
/// candidate list carries at least the `page · PAGE_SIZE` results that a
/// correct index hands back for that request, the page comes back full.
pub proof fn lemma_earlier_pages_full(s: Seq<RankedId>, total: int, page: int)
    requires
        1 <= page,
        page < spec_total_pages(total),
        s.len() >= page * (PAGE_SIZE as int),
    ensures
        spec_paginate(s, page).len() == PAGE_SIZE,
{
    assert((page - 1) * (PAGE_SIZE as int) < page * (PAGE_SIZE as int)) by (nonlinear_arith)
        requires
            page >= 1,
    ;
}

/// Law: the last announced page is never empty when the candidates cover
/// the total, and a page past the last is empty.
pub proof fn lemma_page_bounds(s: Seq<RankedId>, total: int, page: int)
    requires
        1 <= page,
        s.len() <= total,
    ensures
        page > spec_total_pages(total) ==> spec_paginate(s, page).len() == 0,
{
    if page > spec_total_pages(total) {
        assert(total <= (page - 1) * (PAGE_SIZE as int)) by (nonlinear_arith)
            requires
                spec_total_pages(total) == (total + PAGE_SIZE - 1) / (PAGE_SIZE as int),
                page > (total + PAGE_SIZE - 1) / (PAGE_SIZE as int),
        ;
    }
}


} // verus!
