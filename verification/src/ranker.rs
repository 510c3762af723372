//! Hybrid search: candidate sets from the vector and lexical indexes enter
//! as plain values, and the pipeline — resolution of points to chunks,
//! score fusion or re-ranker scores, filtering, weight and recency bias,
//! deterministic ordering and pagination — is decided and verified here.

use vstd::prelude::*;

use crate::dataset::{DatasetState, DatasetView};
use crate::faults::Fault;
use crate::ids::{ChunkId, PointId};
use crate::model::{
    entries_view, opt_str_view, ChunkMetadata, ChunkView, EntryView, MetadataEntry,
};
use crate::ranking::{
    paginate, sort_by_score_desc, spec_paginate, spec_sort_desc, spec_total_pages, total_pages,
    RankedId,
};
use crate::scores::{
    apply_recency, apply_weight, fuse_scores, normalize_score, spec_fuse, spec_normalize,
    spec_recency, spec_weighted, SCORE_SCALE,
};
use crate::text::{contains_seq, contains_str, string_eq};

verus! {

/// How a search request wants its candidates retrieved and combined.
#[derive(Clone, Copy, PartialEq, Eq, Structural, Debug)]
pub enum SearchMode {
    Semantic,
    Fulltext,
    Hybrid,
}

/// A vector-index candidate: a point and its similarity, in millionths.
#[derive(Clone, Copy, PartialEq, Eq, Structural, Debug)]
pub struct PointScore {
    pub point: PointId,
    pub score: u32,
}

/// A lexical or re-ranker candidate: a chunk and its score, in millionths.
#[derive(Clone, Copy, PartialEq, Eq, Structural, Debug)]
pub struct ChunkScore {
    pub chunk: ChunkId,
    pub score: u32,
}

/// What the indexes answered for one search request: candidate lists of up
/// to a page's worth per requested page, the total matched counts at the
/// index layer, and — for hybrid re-ranking — the cross-encoder's score for
/// each candidate pair.
pub struct SearchCandidates {
    pub semantic: Vec<PointScore>,
    pub fulltext: Vec<ChunkScore>,
    pub semantic_total: u64,
    pub fulltext_total: u64,
    pub rerank: Vec<ChunkScore>,
}

/// Spec-level view of [`SearchCandidates`].
#[verifier::ext_equal]
pub struct CandidatesView {
    pub semantic: Seq<PointScore>,
    pub fulltext: Seq<ChunkScore>,
    pub semantic_total: u64,
    pub fulltext_total: u64,
    pub rerank: Seq<ChunkScore>,
}

impl View for SearchCandidates {
    type V = CandidatesView;

    open spec fn view(&self) -> CandidatesView {
        CandidatesView {
            semantic: self.semantic@,
            fulltext: self.fulltext@,
            semantic_total: self.semantic_total,
            fulltext_total: self.fulltext_total,
            rerank: self.rerank@,
        }
    }
}

/// Semantic candidates resolved to chunks: each point that some root owns
/// becomes that root's chunk with the point's score; an orphan point is
/// dropped.
pub open spec fn spec_resolve_semantic(s: DatasetView, sem: Seq<PointScore>) -> Seq<ChunkScore>
    decreases sem.len(),
{
    if sem.len() == 0 {
        Seq::empty()
    } else {
        let head = sem[0];
        let rest = spec_resolve_semantic(s, sem.skip(1));
        if s.owns_point(head.point) {
            seq![ChunkScore { chunk: s.root_of(head.point).id, score: head.score }] + rest
        } else {
            rest
        }
    }
}

/// The score of a chunk in a candidate list: its first entry's score, or 0
/// when it does not appear.
pub open spec fn spec_lookup_score(l: Seq<ChunkScore>, id: ChunkId) -> u32
    decreases l.len(),
{
    if l.len() == 0 {
        0u32
    } else if l[0].chunk == id {
        l[0].score
    } else {
        spec_lookup_score(l.skip(1), id)
    }
}

/// The best score of a candidate list, 0 when empty.
pub open spec fn spec_max_score(l: Seq<ChunkScore>) -> u32
    decreases l.len(),
{
    if l.len() == 0 {
        0u32
    } else {
        let m = spec_max_score(l.drop_last());
        if l.last().score >= m {
            l.last().score
        } else {
            m
        }
    }
}

/// The chunk ids of a candidate list, in order.
pub open spec fn spec_ids_of(l: Seq<ChunkScore>) -> Seq<ChunkId> {
    l.map_values(|c: ChunkScore| c.chunk)
}

/// First occurrences, in order: the deterministic union order of the
/// hybrid candidate sets.
pub open spec fn spec_dedup_ids(ids: Seq<ChunkId>) -> Seq<ChunkId>
    decreases ids.len(),
{
    if ids.len() == 0 {
        Seq::empty()
    } else {
        let rest = spec_dedup_ids(ids.drop_last());
        if rest.contains(ids.last()) {
            rest
        } else {
            rest.push(ids.last())
        }
    }
}

/// A weight clamped to at most 1.0.
pub open spec fn spec_clamp(w: u64) -> u64 {
    if w > SCORE_SCALE {
        SCORE_SCALE
    } else {
        w
    }
}

/// The fused score of one chunk under explicit weights: each side's score
/// normalized against its list's best, then combined linearly.
pub open spec fn spec_weighted_fusion(
    sem: Seq<ChunkScore>,
    full: Seq<ChunkScore>,
    w_sem: u64,
    w_full: u64,
    id: ChunkId,
) -> u64 {
    spec_fuse(
        spec_clamp(w_sem) as int,
        spec_normalize(spec_lookup_score(sem, id) as int, spec_max_score(sem) as int),
        spec_clamp(w_full) as int,
        spec_normalize(spec_lookup_score(full, id) as int, spec_max_score(full) as int),
    ) as u64
}

/// The scored candidate list of one request, before filtering and bias.
/// Semantic and fulltext use the index scores as they came; hybrid unions
/// both sets (semantic first, first occurrences kept) and scores the union
/// either by the caller's weights — which take precedence — or, absent
/// weights, by the cross-encoder's scores: exactly one fusion strategy per
/// request, decided by the presence of weights.
pub open spec fn spec_base_scored(
    s: DatasetView,
    cands: CandidatesView,
    mode: SearchMode,
    weights: Option<(u64, u64)>,
) -> Seq<RankedId> {
    match mode {
        SearchMode::Semantic => spec_resolve_semantic(s, cands.semantic).map_values(
            |c: ChunkScore| RankedId { id: c.chunk, score: c.score as u64 },
        ),
        SearchMode::Fulltext => cands.fulltext.map_values(
            |c: ChunkScore| RankedId { id: c.chunk, score: c.score as u64 },
        ),
        SearchMode::Hybrid => {
            let sem = spec_resolve_semantic(s, cands.semantic);
            let union = spec_dedup_ids(spec_ids_of(sem) + spec_ids_of(cands.fulltext));
            match weights {
                Some((w_sem, w_full)) => union.map_values(
                    |id: ChunkId|
                        RankedId {
                            id,
                            score: spec_weighted_fusion(sem, cands.fulltext, w_sem, w_full, id),
                        },
                ),
                None => union.map_values(
                    |id: ChunkId|
                        RankedId { id, score: spec_lookup_score(cands.rerank, id) as u64 },
                ),
            }
        },
    }
}

/// The filters a search applies: any-of on links, any-of on tags, an
/// inclusive time range, and metadata substring filters (no index support —
/// a linear scan).
#[verifier::ext_equal]
pub struct FiltersView {
    pub link: Option<Seq<Seq<char>>>,
    pub tag_set: Option<Seq<Seq<char>>>,
    pub time_range: Option<(i64, i64)>,
    pub metadata: Seq<EntryView>,
}

/// Some metadata entry of the chunk carries this key and holds the wanted
/// value as a substring.
pub open spec fn spec_meta_entry_ok(c: ChunkView, want: EntryView) -> bool {
    exists|j: int|
        0 <= j < c.metadata.len() && (#[trigger] c.metadata[j]).key == want.key && contains_seq(
            c.metadata[j].value,
            want.value,
        )
}

/// Every metadata substring filter is met.
pub open spec fn spec_meta_filters_ok(c: ChunkView, metadata: Seq<EntryView>) -> bool {
    forall|i: int| 0 <= i < metadata.len() ==> spec_meta_entry_ok(c, #[trigger] metadata[i])
}

/// Whether a chunk passes the filters.
pub open spec fn spec_chunk_matches(c: ChunkView, f: FiltersView) -> bool {
    &&& match f.link {
        Some(ls) => c.link matches Some(l) && ls.contains(l),
        None => true,
    }
    &&& match f.tag_set {
        Some(ts) => exists|i: int| 0 <= i < c.tag_set.len() && ts.contains(c.tag_set[i]),
        None => true,
    }
    &&& match f.time_range {
        Some((lo, hi)) => c.time_stamp matches Some(t) && lo <= t <= hi,
        None => true,
    }
    &&& spec_meta_filters_ok(c, f.metadata)
}

/// The candidates that exist in the dataset and pass the filters, in
/// order.
pub open spec fn spec_filter_kept(
    s: DatasetView,
    ranked: Seq<RankedId>,
    f: FiltersView,
) -> Seq<RankedId>
    decreases ranked.len(),
{
    if ranked.len() == 0 {
        Seq::empty()
    } else {
        let rest = spec_filter_kept(s, ranked.drop_last(), f);
        let r = ranked.last();
        if s.has_chunk(r.id) && spec_chunk_matches(s.chunk_of(r.id), f) {
            rest.push(r)
        } else {
            rest
        }
    }
}

/// One candidate's final score: the raw score biased by its chunk's weight
/// and, when asked and the chunk carries a timestamp, decayed by age.
pub open spec fn spec_bias_one(
    s: DatasetView,
    r: RankedId,
    date_bias: bool,
    now: i64,
) -> u64 {
    let c = s.chunk_of(r.id);
    let w = spec_weighted(r.score as int, c.weight as int);
    let b = if date_bias {
        match c.time_stamp {
            Some(ts) => spec_recency(w, now - ts),
            None => w,
        }
    } else {
        w
    };
    b as u64
}

/// The kept candidates with their final scores.
pub open spec fn spec_bias(
    s: DatasetView,
    kept: Seq<RankedId>,
    date_bias: bool,
    now: i64,
) -> Seq<RankedId> {
    kept.map_values(|r: RankedId| RankedId { id: r.id, score: spec_bias_one(s, r, date_bias, now) })
}

/// The ordered page of one search request: score, filter, bias, sort
/// descending, slice the page. A function of the dataset, the request and
/// the index answers alone.
pub open spec fn spec_search_ranked(
    s: DatasetView,
    cands: CandidatesView,
    mode: SearchMode,
    weights: Option<(u64, u64)>,
    f: FiltersView,
    date_bias: bool,
    now: i64,
    page: u64,
) -> Seq<RankedId> {
    spec_paginate(
        spec_sort_desc(
            spec_bias(s, spec_filter_kept(s, spec_base_scored(s, cands, mode, weights), f), date_bias, now),
        ),
        page as int,
    )
}

/// The total matched-candidate count a request reports, per mode; hybrid
/// reports the larger of the two index totals.
pub open spec fn spec_search_total(cands: CandidatesView, mode: SearchMode) -> u64 {
    match mode {
        SearchMode::Semantic => cands.semantic_total,
        SearchMode::Fulltext => cands.fulltext_total,
        SearchMode::Hybrid => if cands.semantic_total >= cands.fulltext_total {
            cands.semantic_total
        } else {
            cands.fulltext_total
        },
    }
}

/// Resolves semantic candidates to chunks: exactly
/// [`spec_resolve_semantic`].
fn resolve_semantic(s: &DatasetState, sem: &Vec<PointScore>) -> (out: Vec<ChunkScore>)
    requires
        s@.wf(),
    ensures
        out@ == spec_resolve_semantic(s@, sem@),
{
    let mut out: Vec<ChunkScore> = Vec::new();
    let mut i: usize = 0;
    proof {
        assert(sem@.skip(0) =~= sem@);
        assert(out@ =~= Seq::<ChunkScore>::empty());
    }
    while i < sem.len()
        invariant
            0 <= i <= sem@.len(),
            s@.wf(),
            spec_resolve_semantic(s@, sem@) =~= out@ + spec_resolve_semantic(
                s@,
                sem@.skip(i as int),
            ),
        decreases sem@.len() - i,
    {
        let ghost pre = sem@.skip(i as int);
        assert(pre[0] == sem@[i as int]);
        let head = sem[i];
        let ghost old_out = out@;
        match s.position_by_point(head.point) {
            Some(ix) => {
                proof {
                    s.lemma_root_index_of(ix as int);
                }
                out.push(ChunkScore { chunk: s.chunks[ix].id, score: head.score });
                proof {
                    assert(s@.root_of(head.point).id == s@.chunks[ix as int].id);
                    assert(out@ =~= old_out + seq![
                        ChunkScore { chunk: s@.root_of(head.point).id, score: head.score },
                    ]);
                    assert((old_out + seq![
                        ChunkScore { chunk: s@.root_of(head.point).id, score: head.score },
                    ]) + spec_resolve_semantic(s@, pre.skip(1)) =~= old_out + (seq![
                        ChunkScore { chunk: s@.root_of(head.point).id, score: head.score },
                    ] + spec_resolve_semantic(s@, pre.skip(1))));
                }
            },
            None => {},
        }
        i = i + 1;
        proof {
            assert(pre.skip(1) =~= sem@.skip(i as int));
        }
    }
    proof {
        assert(sem@.skip(i as int) =~= Seq::<PointScore>::empty());
        assert(out@ + Seq::<ChunkScore>::empty() =~= out@);
    }
    out
}

/// Looks a chunk's score up in a candidate list: exactly
/// [`spec_lookup_score`].
fn lookup_score(l: &Vec<ChunkScore>, id: ChunkId) -> (r: u32)
    ensures
        r == spec_lookup_score(l@, id),
{
    let mut i: usize = 0;
    proof {
        assert(l@.skip(0) =~= l@);
    }
    while i < l.len()
        invariant
            0 <= i <= l@.len(),
            spec_lookup_score(l@, id) == spec_lookup_score(l@.skip(i as int), id),
        decreases l@.len() - i,
    {
        let ghost pre = l@.skip(i as int);
        assert(pre[0] == l@[i as int]);
        if l[i].chunk == id {
            return l[i].score;
        }
        i = i + 1;
        proof {
            assert(pre.skip(1) =~= l@.skip(i as int));
        }
    }
    proof {
        assert(l@.skip(i as int) =~= Seq::<ChunkScore>::empty());
    }
    0
}

/// The best score of a candidate list: exactly [`spec_max_score`].
fn max_score(l: &Vec<ChunkScore>) -> (r: u32)
    ensures
        r == spec_max_score(l@),
{
    let mut best: u32 = 0;
    let mut i: usize = 0;
    proof {
        assert(l@.take(0) =~= Seq::<ChunkScore>::empty());
    }
    while i < l.len()
        invariant
            0 <= i <= l@.len(),
            best == spec_max_score(l@.take(i as int)),
        decreases l@.len() - i,
    {
        proof {
            assert(l@.take(i + 1).drop_last() =~= l@.take(i as int));
            assert(l@.take(i + 1).last() == l@[i as int]);
        }
        if l[i].score >= best {
            best = l[i].score;
        }
        i = i + 1;
    }
    proof {
        assert(l@.take(i as int) =~= l@);
    }
    best
}

/// The looked-up score never exceeds the list's best.
proof fn lemma_lookup_le_max(l: Seq<ChunkScore>, id: ChunkId)
    ensures
        spec_lookup_score(l, id) <= spec_max_score(l),
    decreases l.len(),
{
    if l.len() == 0 {
    } else {
        lemma_lookup_le_max(l.skip(1), id);
        lemma_max_skip_le(l);
    }
}

/// The best of the tail never exceeds the best of the list, and the head's
/// score never does either.
proof fn lemma_max_skip_le(l: Seq<ChunkScore>)
    requires
        l.len() > 0,
    ensures
        spec_max_score(l.skip(1)) <= spec_max_score(l),
        l[0].score <= spec_max_score(l),
    decreases l.len(),
{
    if l.len() == 1 {
        assert(l.skip(1) =~= Seq::<ChunkScore>::empty());
        assert(l.drop_last() =~= Seq::<ChunkScore>::empty());
    } else {
        lemma_max_skip_le(l.drop_last());
        assert(l.skip(1).drop_last() =~= l.drop_last().skip(1));
        assert(l.skip(1).last() == l.last());
        assert(l.drop_last()[0] == l[0]);
    }
}

/// The chunk ids of a candidate list: exactly [`spec_ids_of`].
fn ids_of(l: &Vec<ChunkScore>) -> (out: Vec<ChunkId>)
    ensures
        out@ == spec_ids_of(l@),
{
    let mut out: Vec<ChunkId> = Vec::new();
    let mut i: usize = 0;
    while i < l.len()
        invariant
            0 <= i <= l@.len(),
            out@ =~= spec_ids_of(l@).take(i as int),
        decreases l@.len() - i,
    {
        let ghost prev = out@;
        out.push(l[i].chunk);
        i = i + 1;
        proof {
            assert(out@ =~= prev.push(spec_ids_of(l@)[i - 1]));
            assert(out@ =~= spec_ids_of(l@).take(i as int));
        }
    }
    proof {
        assert(spec_ids_of(l@).take(i as int) =~= spec_ids_of(l@));
    }
    out
}

/// Whether a chunk id is in the list.
fn ids_contain(v: &Vec<ChunkId>, id: ChunkId) -> (r: bool)
    ensures
        r == v@.contains(id),
{
    let mut i: usize = 0;
    while i < v.len()
        invariant
            0 <= i <= v@.len(),
            forall|k: int| 0 <= k < i ==> v@[k] != id,
        decreases v@.len() - i,
    {
        if v[i] == id {
            return true;
        }
        i = i + 1;
    }
    false
}

/// First occurrences, in order: exactly [`spec_dedup_ids`].
fn dedup_ids(ids: &Vec<ChunkId>) -> (out: Vec<ChunkId>)
    ensures
        out@ == spec_dedup_ids(ids@),
{
    let mut out: Vec<ChunkId> = Vec::new();
    let mut i: usize = 0;
    proof {
        assert(ids@.take(0) =~= Seq::<ChunkId>::empty());
        assert(out@ =~= spec_dedup_ids(ids@.take(0)));
    }
    while i < ids.len()
        invariant
            0 <= i <= ids@.len(),
            out@ == spec_dedup_ids(ids@.take(i as int)),
        decreases ids@.len() - i,
    {
        proof {
            assert(ids@.take(i + 1).drop_last() =~= ids@.take(i as int));
            assert(ids@.take(i + 1).last() == ids@[i as int]);
        }
        if !ids_contain(&out, ids[i]) {
            out.push(ids[i]);
        }
        i = i + 1;
    }
    proof {
        assert(ids@.take(i as int) =~= ids@);
    }
    out
}

/// Whether one of the strings holds exactly these characters.
fn strs_contain(v: &Vec<String>, s: &String) -> (r: bool)
    ensures
        r == v.deep_view().contains(s@),
{
    let mut i: usize = 0;
    while i < v.len()
        invariant
            0 <= i <= v@.len(),
            forall|k: int| 0 <= k < i ==> v.deep_view()[k] != s@,
        decreases v@.len() - i,
    {
        if string_eq(&v[i], s) {
            proof {
                assert(v.deep_view()[i as int] == s@);
            }
            return true;
        }
        i = i + 1;
    }
    false
}

/// Whether the chunk passes the link filter.
fn link_matches(c: &ChunkMetadata, link: &Option<Vec<String>>) -> (r: bool)
    ensures
        r == match crate::model::opt_strs_view(*link) {
            Some(ls) => c@.link matches Some(l) && ls.contains(l),
            None => true,
        },
{
    match link {
        Some(ls) => match &c.link {
            Some(l) => strs_contain(ls, l),
            None => false,
        },
        None => true,
    }
}

/// Whether the chunk passes the tag filter: some tag of the chunk is one
/// of the wanted tags.
#[verifier::loop_isolation(false)]
fn tags_match(c: &ChunkMetadata, tags: &Option<Vec<String>>) -> (r: bool)
    ensures
        r == match crate::model::opt_strs_view(*tags) {
            Some(ts) => exists|i: int| 0 <= i < c@.tag_set.len() && ts.contains(c@.tag_set[i]),
            None => true,
        },
{
    match tags {
        Some(ts) => {
            let mut i: usize = 0;
            while i < c.tag_set.len()
                invariant
                    0 <= i <= c.tag_set@.len(),
                    forall|k: int| 0 <= k < i ==> !ts.deep_view().contains(c@.tag_set[k]),
                decreases c.tag_set@.len() - i,
            {
                if strs_contain(ts, &c.tag_set[i]) {
                    proof {
                        assert(c@.tag_set[i as int] == c.tag_set@[i as int]@);
                        assert(ts.deep_view().contains(c@.tag_set[i as int]));
                        assert(exists|ii: int|
                            0 <= ii < c@.tag_set.len() && ts.deep_view().contains(c@.tag_set[ii]));
                    }
                    return true;
                }
                proof {
                    assert(c@.tag_set[i as int] == c.tag_set@[i as int]@);
                }
                i = i + 1;
            }
            false
        },
        None => true,
    }
}

/// Whether the chunk passes the inclusive time-range filter.
fn range_matches(c: &ChunkMetadata, range: Option<(i64, i64)>) -> (r: bool)
    ensures
        r == match range {
            Some((lo, hi)) => c@.time_stamp matches Some(t) && lo <= t <= hi,
            None => true,
        },
{
    match range {
        Some((lo, hi)) => match c.time_stamp {
            Some(t) => lo <= t && t <= hi,
            None => false,
        },
        None => true,
    }
}

/// Whether one metadata entry of the chunk carries this key and holds the
/// wanted value as a substring.
#[verifier::loop_isolation(false)]
fn meta_entry_matches(c: &ChunkMetadata, want: &MetadataEntry) -> (r: bool)
    ensures
        r == spec_meta_entry_ok(c@, want@),
{
    let mut j: usize = 0;
    while j < c.metadata.len()
        invariant
            0 <= j <= c.metadata@.len(),
            forall|k: int|
                0 <= k < j ==> !((#[trigger] c@.metadata[k]).key == want@.key && contains_seq(
                    c@.metadata[k].value,
                    want@.value,
                )),
        decreases c.metadata@.len() - j,
    {
        proof {
            assert(c@.metadata[j as int] == c.metadata@[j as int]@);
        }
        if string_eq(&c.metadata[j].key, &want.key) && contains_str(
            c.metadata[j].value.as_str(),
            want.value.as_str(),
        ) {
            return true;
        }
        j = j + 1;
    }
    false
}

/// Whether the chunk passes all the metadata substring filters: a linear
/// scan, as metadata has no index support.
#[verifier::loop_isolation(false)]
fn meta_matches(c: &ChunkMetadata, meta: &Vec<MetadataEntry>) -> (r: bool)
    ensures
        r == spec_meta_filters_ok(c@, entries_view(meta@)),
{
    let mut i: usize = 0;
    while i < meta.len()
        invariant
            0 <= i <= meta@.len(),
            forall|k: int| 0 <= k < i ==> spec_meta_entry_ok(c@, #[trigger] entries_view(meta@)[k]),
        decreases meta@.len() - i,
    {
        proof {
            assert(entries_view(meta@)[i as int] == meta@[i as int]@);
        }
        if !meta_entry_matches(c, &meta[i]) {
            return false;
        }
        i = i + 1;
    }
    proof {
        assert(entries_view(meta@).len() == meta@.len());
    }
    true
}

/// Whether the chunk passes all the filters: exactly
/// [`spec_chunk_matches`].
fn chunk_matches(
    c: &ChunkMetadata,
    link: &Option<Vec<String>>,
    tags: &Option<Vec<String>>,
    range: Option<(i64, i64)>,
    meta: &Vec<MetadataEntry>,
) -> (r: bool)
    ensures
        r == spec_chunk_matches(
            c@,
            FiltersView {
                link: crate::model::opt_strs_view(*link),
                tag_set: crate::model::opt_strs_view(*tags),
                time_range: range,
                metadata: entries_view(meta@),
            },
        ),
{
    let a = link_matches(c, link);
    let b = tags_match(c, tags);
    let d = range_matches(c, range);
    let e = meta_matches(c, meta);
    let ghost f = FiltersView {
        link: crate::model::opt_strs_view(*link),
        tag_set: crate::model::opt_strs_view(*tags),
        time_range: range,
        metadata: entries_view(meta@),
    };
    proof {
        assert(a == match f.link {
            Some(ls) => c@.link matches Some(l) && ls.contains(l),
            None => true,
        });
        assert(b == match f.tag_set {
            Some(ts) => exists|i: int| 0 <= i < c@.tag_set.len() && ts.contains(c@.tag_set[i]),
            None => true,
        });
        assert(d == match f.time_range {
            Some((lo, hi)) => c@.time_stamp matches Some(t) && lo <= t <= hi,
            None => true,
        });
        assert(e == spec_meta_filters_ok(c@, f.metadata));
        assert(spec_chunk_matches(c@, f) == (a && b && d && e));
    }
    a && b && d && e
}

/// The scored candidate list of one request: exactly [`spec_base_scored`],
/// with every score small enough to take the weight bias.
fn base_scored(
    s: &DatasetState,
    cands: &SearchCandidates,
    mode: SearchMode,
    weights: Option<(u64, u64)>,
) -> (out: Vec<RankedId>)
    requires
        s@.wf(),
    ensures
        out@ == spec_base_scored(s@, cands@, mode, weights),
        forall|i: int| 0 <= i < out@.len() ==> (#[trigger] out@[i]).score <= u32::MAX as u64,
{
    match mode {
        SearchMode::Semantic => {
            let sem = resolve_semantic(s, &cands.semantic);
            scores_to_ranked(&sem)
        },
        SearchMode::Fulltext => { scores_to_ranked(&cands.fulltext) },
        SearchMode::Hybrid => {
            let sem = resolve_semantic(s, &cands.semantic);
            let mut all_ids = ids_of(&sem);
            let full_ids = ids_of(&cands.fulltext);
            let ghost glued = all_ids@ + full_ids@;
            let mut k: usize = 0;
            while k < full_ids.len()
                invariant
                    0 <= k <= full_ids@.len(),
                    all_ids@ == glued.take(glued.len() - full_ids@.len() + k),
                    glued == spec_ids_of(spec_resolve_semantic(s@, cands@.semantic)) + spec_ids_of(
                        cands@.fulltext,
                    ),
                    glued.len() == spec_ids_of(spec_resolve_semantic(s@, cands@.semantic)).len()
                        + full_ids@.len(),
                    full_ids@ == spec_ids_of(cands@.fulltext),
                decreases full_ids@.len() - k,
            {
                all_ids.push(full_ids[k]);
                k = k + 1;
                proof {
                    assert(all_ids@ =~= glued.take(glued.len() - full_ids@.len() + k));
                }
            }
            proof {
                assert(all_ids@ =~= glued);
            }
            let union = dedup_ids(&all_ids);
            match weights {
                Some((w_sem, w_full)) => {
                    let ws = if w_sem > crate::scores::SCORE_SCALE {
                        crate::scores::SCORE_SCALE
                    } else {
                        w_sem
                    };
                    let wf = if w_full > crate::scores::SCORE_SCALE {
                        crate::scores::SCORE_SCALE
                    } else {
                        w_full
                    };
                    let sem_max = max_score(&sem);
                    let full_max = max_score(&cands.fulltext);
                    let ghost target = spec_base_scored(s@, cands@, mode, weights);
                    let mut out: Vec<RankedId> = Vec::new();
                    let mut i: usize = 0;
                    while i < union.len()
                        invariant
                            0 <= i <= union@.len(),
                            target == spec_base_scored(s@, cands@, mode, weights),
                            target == union@.map_values(
                                |id: ChunkId|
                                    RankedId {
                                        id,
                                        score: spec_weighted_fusion(
                                            sem@,
                                            cands@.fulltext,
                                            w_sem,
                                            w_full,
                                            id,
                                        ),
                                    },
                            ),
                            sem_max == spec_max_score(sem@),
                            full_max == spec_max_score(cands@.fulltext),
                            ws == spec_clamp(w_sem),
                            wf == spec_clamp(w_full),
                            out@ =~= target.take(i as int),
                            forall|m: int|
                                0 <= m < out@.len() ==> (#[trigger] out@[m]).score
                                    <= u32::MAX as u64,
                        decreases union@.len() - i,
                    {
                        let id = union[i];
                        let ls = lookup_score(&sem, id);
                        let lf = lookup_score(&cands.fulltext, id);
                        proof {
                            lemma_lookup_le_max(sem@, id);
                            lemma_lookup_le_max(cands@.fulltext, id);
                        }
                        let ns = normalize_score(ls as u64, sem_max as u64);
                        let nf = normalize_score(lf as u64, full_max as u64);
                        let fused = fuse_scores(ws, ns, wf, nf);
                        let ghost prev = out@;
                        out.push(RankedId { id, score: fused });
                        i = i + 1;
                        proof {
                            assert(fused == spec_weighted_fusion(
                                sem@,
                                cands@.fulltext,
                                w_sem,
                                w_full,
                                id,
                            ));
                            assert(out@ =~= prev.push(target[i - 1]));
                            assert(out@ =~= target.take(i as int));
                        }
                    }
                    proof {
                        assert(target.take(i as int) =~= target);
                    }
                    out
                },
                None => {
                    let ghost target = spec_base_scored(s@, cands@, mode, weights);
                    let mut out: Vec<RankedId> = Vec::new();
                    let mut i: usize = 0;
                    while i < union.len()
                        invariant
                            0 <= i <= union@.len(),
                            target == spec_base_scored(s@, cands@, mode, weights),
                            target == union@.map_values(
                                |id: ChunkId|
                                    RankedId {
                                        id,
                                        score: spec_lookup_score(cands@.rerank, id) as u64,
                                    },
                            ),
                            out@ =~= target.take(i as int),
                            forall|m: int|
                                0 <= m < out@.len() ==> (#[trigger] out@[m]).score
                                    <= u32::MAX as u64,
                        decreases union@.len() - i,
                    {
                        let id = union[i];
                        let sc = lookup_score(&cands.rerank, id);
                        let ghost prev = out@;
                        out.push(RankedId { id, score: sc as u64 });
                        i = i + 1;
                        proof {
                            assert(out@ =~= prev.push(target[i - 1]));
                            assert(out@ =~= target.take(i as int));
                        }
                    }
                    proof {
                        assert(target.take(i as int) =~= target);
                    }
                    out
                },
            }
        },
    }
}

/// Candidate entries as ranked ids, raw scores kept.
fn scores_to_ranked(l: &Vec<ChunkScore>) -> (out: Vec<RankedId>)
    ensures
        out@ == l@.map_values(|c: ChunkScore| RankedId { id: c.chunk, score: c.score as u64 }),
        forall|i: int| 0 <= i < out@.len() ==> (#[trigger] out@[i]).score <= u32::MAX as u64,
{
    let ghost target = l@.map_values(
        |c: ChunkScore| RankedId { id: c.chunk, score: c.score as u64 },
    );
    let mut out: Vec<RankedId> = Vec::new();
    let mut i: usize = 0;
    while i < l.len()
        invariant
            0 <= i <= l@.len(),
            target == l@.map_values(
                |c: ChunkScore| RankedId { id: c.chunk, score: c.score as u64 },
            ),
            out@ =~= target.take(i as int),
            forall|m: int| 0 <= m < out@.len() ==> (#[trigger] out@[m]).score <= u32::MAX as u64,
        decreases l@.len() - i,
    {
        let ghost prev = out@;
        out.push(RankedId { id: l[i].chunk, score: l[i].score as u64 });
        i = i + 1;
        proof {
            assert(out@ =~= prev.push(target[i - 1]));
            assert(out@ =~= target.take(i as int));
        }
    }
    proof {
        assert(target.take(i as int) =~= target);
    }
    out
}

/// The candidates that exist in the dataset and pass the filters: exactly
/// [`spec_filter_kept`].
#[verifier::loop_isolation(false)]
fn filter_candidates(
    s: &DatasetState,
    ranked: &Vec<RankedId>,
    link: &Option<Vec<String>>,
    tags: &Option<Vec<String>>,
    range: Option<(i64, i64)>,
    meta: &Vec<MetadataEntry>,
) -> (out: Vec<RankedId>)
    requires
        s@.wf(),
        forall|i: int|
            0 <= i < ranked@.len() ==> (#[trigger] ranked@[i]).score <= u32::MAX as u64,
    ensures
        ({
            let f = FiltersView {
                link: crate::model::opt_strs_view(*link),
                tag_set: crate::model::opt_strs_view(*tags),
                time_range: range,
                metadata: entries_view(meta@),
            };
            &&& out@ == spec_filter_kept(s@, ranked@, f)
            &&& forall|i: int|
                0 <= i < out@.len() ==> (#[trigger] out@[i]).score <= u32::MAX as u64
                    && s@.has_chunk(out@[i].id)
        }),
{
    let ghost f = FiltersView {
        link: crate::model::opt_strs_view(*link),
        tag_set: crate::model::opt_strs_view(*tags),
        time_range: range,
        metadata: entries_view(meta@),
    };
    let mut out: Vec<RankedId> = Vec::new();
    let mut i: usize = 0;
    proof {
        assert(ranked@.take(0) =~= Seq::<RankedId>::empty());
    }
    while i < ranked.len()
        invariant
            0 <= i <= ranked@.len(),
            out@ == spec_filter_kept(s@, ranked@.take(i as int), f),
            forall|m: int|
                0 <= m < out@.len() ==> (#[trigger] out@[m]).score <= u32::MAX as u64
                    && s@.has_chunk(out@[m].id),
        decreases ranked@.len() - i,
    {
        proof {
            assert(ranked@.take(i + 1).drop_last() =~= ranked@.take(i as int));
            assert(ranked@.take(i + 1).last() == ranked@[i as int]);
        }
        let r = ranked[i];
        match s.position_by_id(r.id) {
            Some(ix) => {
                proof {
                    s.lemma_index_of(ix as int);
                }
                if chunk_matches(&s.chunks[ix], link, tags, range, meta) {
                    out.push(r);
                }
            },
            None => {},
        }
        i = i + 1;
    }
    proof {
        assert(ranked@.take(i as int) =~= ranked@);
    }
    out
}

/// The kept candidates with their final scores: exactly [`spec_bias`].
#[verifier::loop_isolation(false)]
fn bias_candidates(s: &DatasetState, kept: &Vec<RankedId>, date_bias: bool, now: i64) -> (out: Vec<
    RankedId,
>)
    requires
        s@.wf(),
        forall|i: int|
            0 <= i < kept@.len() ==> (#[trigger] kept@[i]).score <= u32::MAX as u64
                && s@.has_chunk(kept@[i].id),
    ensures
        out@ == spec_bias(s@, kept@, date_bias, now),
        forall|i: int| 0 <= i < out@.len() ==> s@.has_chunk((#[trigger] out@[i]).id),
{
    let ghost target = spec_bias(s@, kept@, date_bias, now);
    let mut out: Vec<RankedId> = Vec::new();
    let mut i: usize = 0;
    while i < kept.len()
        invariant
            0 <= i <= kept@.len(),
            out@ =~= target.take(i as int),
            forall|m: int| 0 <= m < out@.len() ==> s@.has_chunk((#[trigger] out@[m]).id),
        decreases kept@.len() - i,
    {
        let r = kept[i];
        let score = match s.position_by_id(r.id) {
            Some(ix) => {
                proof {
                    s.lemma_index_of(ix as int);
                }
                let w = apply_weight(r.score, s.chunks[ix].weight);
                if date_bias {
                    match s.chunks[ix].time_stamp {
                        Some(ts) => apply_recency(w, now, ts),
                        None => w,
                    }
                } else {
                    w
                }
            },
            None => 0,
        };
        let ghost prev = out@;
        out.push(RankedId { id: r.id, score });
        i = i + 1;
        proof {
            assert(score == spec_bias_one(s@, kept@[i - 1], date_bias, now));
            assert(out@ =~= prev.push(target[i - 1]));
            assert(out@ =~= target.take(i as int));
        }
    }
    proof {
        assert(target.take(i as int) =~= target);
    }
    out
}

/// A search request. A page is ten results; filters narrow the candidates;
/// in hybrid mode explicit weights (in millionths) take precedence over the
/// cross-encoder re-ranker.
pub struct SearchChunkData {
    /// "semantic", "fulltext" or "hybrid"; anything else reads as semantic.
    pub search_type: String,
    /// The raw query text; parsed with [`crate::query::parse_query`] for
    /// the lexical side, and used for highlighting.
    pub query: String,
    /// Which page of results to return; absent means the first.
    pub page: Option<u64>,
    /// Keep only chunks whose link is one of these.
    pub link: Option<Vec<String>>,
    /// Keep only chunks carrying at least one of these tags.
    pub tag_set: Option<Vec<String>>,
    /// Keep only chunks whose timestamp lies in this inclusive range; the
    /// bounds are datetime strings resolved on request.
    pub time_range: Option<(String, String)>,
    /// Metadata substring filters: each key must be present with the given
    /// value as a substring (a linear scan, no index support).
    pub filters: Vec<MetadataEntry>,
    /// Bias scores towards recent chunks.
    pub date_bias: Option<bool>,
    /// Ask for cross-encoder re-ranking in hybrid mode. Exactly one fusion
    /// strategy applies per request, chosen by the presence of weights:
    /// explicit weights take precedence, and the re-ranker is what a
    /// weightless hybrid request gets. The flag is carried for request
    /// fidelity and not consulted — the response contract is a function of
    /// the other fields alone.
    pub cross_encoder: Option<bool>,
    /// Explicit hybrid fusion weights (semantic, fulltext), in millionths.
    pub weights: Option<(u64, u64)>,
}

/// Spec-level view of a [`SearchChunkData`].
#[verifier::ext_equal]
pub struct SearchView {
    pub search_type: Seq<char>,
    pub query: Seq<char>,
    pub page: Option<u64>,
    pub link: Option<Seq<Seq<char>>>,
    pub tag_set: Option<Seq<Seq<char>>>,
    pub time_range: Option<(Seq<char>, Seq<char>)>,
    pub filters: Seq<EntryView>,
    pub date_bias: Option<bool>,
    pub cross_encoder: Option<bool>,
    pub weights: Option<(u64, u64)>,
}

impl View for SearchChunkData {
    type V = SearchView;

    open spec fn view(&self) -> SearchView {
        SearchView {
            search_type: self.search_type@,
            query: self.query@,
            page: self.page,
            link: crate::model::opt_strs_view(self.link),
            tag_set: crate::model::opt_strs_view(self.tag_set),
            time_range: match self.time_range {
                Some((a, b)) => Some((a@, b@)),
                None => None,
            },
            filters: entries_view(self.filters@),
            date_bias: self.date_bias,
            cross_encoder: self.cross_encoder,
            weights: self.weights,
        }
    }
}

/// One search result: the hydrated chunk and its relevance score.
#[derive(Debug)]
pub struct ScoreChunkDTO {
    pub metadata: Vec<ChunkMetadata>,
    pub score: u64,
}

/// A page of search results and how many pages the index's total fills.
#[derive(Debug)]
pub struct SearchChunkQueryResponseBody {
    pub score_chunks: Vec<ScoreChunkDTO>,
    pub total_chunk_pages: i64,
}

/// The search mode a request's type string names.
pub open spec fn spec_mode_of(t: Seq<char>) -> SearchMode {
    if t == "fulltext"@ {
        SearchMode::Fulltext
    } else if t == "hybrid"@ {
        SearchMode::Hybrid
    } else {
        SearchMode::Semantic
    }
}

/// Decides [`spec_mode_of`] on the request's type string.
pub fn mode_of(t: &String) -> (r: SearchMode)
    ensures
        r == spec_mode_of(t@),
{
    if crate::text::str_eq(t.as_str(), "fulltext") {
        SearchMode::Fulltext
    } else if crate::text::str_eq(t.as_str(), "hybrid") {
        SearchMode::Hybrid
    } else {
        SearchMode::Semantic
    }
}

/// The page a request asks for; absent means the first.
pub open spec fn spec_page_of(p: Option<u64>) -> u64 {
    match p {
        Some(v) => v,
        None => 1,
    }
}

/// A request flag; absent means off.
pub open spec fn spec_flag_of(o: Option<bool>) -> bool {
    match o {
        Some(b) => b,
        None => false,
    }
}

/// The filters a request carries, with its time range resolved.
pub open spec fn spec_filters_of(d: SearchView, range: Option<(i64, i64)>) -> FiltersView {
    FiltersView { link: d.link, tag_set: d.tag_set, time_range: range, metadata: d.filters }
}

/// A result chunk as hydrated for the caller: the stored chunk with its
/// markup replaced by the content, every non-overlapping occurrence of the
/// query text wrapped in emphasis markup. Cosmetic: scores and ordering
/// are settled before this happens.
pub open spec fn spec_hydrated(s: DatasetView, id: ChunkId, q: Seq<char>) -> ChunkView {
    let c = s.chunk_of(id);
    ChunkView { chunk_html: Some(crate::text::spec_highlight_all(c.content, q)), ..c }
}

/// The executable response matches what the spec pipeline decided: the
/// announced page count, and — result by result — the score and the
/// hydrated chunk of the ordered page.
pub open spec fn search_outcome_matches(
    s: DatasetView,
    cands: CandidatesView,
    mode: SearchMode,
    weights: Option<(u64, u64)>,
    f: FiltersView,
    date_bias: bool,
    now: i64,
    page: u64,
    q: Seq<char>,
    resp: SearchChunkQueryResponseBody,
) -> bool {
    let ranked = spec_search_ranked(s, cands, mode, weights, f, date_bias, now, page);
    &&& resp.total_chunk_pages == spec_total_pages(spec_search_total(cands, mode) as int)
    &&& resp.score_chunks@.len() == ranked.len()
    &&& forall|i: int|
        0 <= i < ranked.len() ==> (#[trigger] resp.score_chunks@[i]).score == ranked[i].score
            && resp.score_chunks@[i].metadata@.len() == 1 && resp.score_chunks@[i].metadata@[0]@
            == spec_hydrated(s, ranked[i].id, q)
}

impl DatasetState {
    /// The search pipeline with the time range already resolved: exactly
    /// [`spec_search_ranked`] and [`spec_search_total`], hydrated.
    #[verifier::loop_isolation(false)]
    pub fn search_chunk_resolved(
        &self,
        data: &SearchChunkData,
        time_range: Option<(i64, i64)>,
        cands: &SearchCandidates,
        now: i64,
    ) -> (r: SearchChunkQueryResponseBody)
        requires
            self@.wf(),
        ensures
            search_outcome_matches(
                self@,
                cands@,
                spec_mode_of(data@.search_type),
                data@.weights,
                spec_filters_of(data@, time_range),
                spec_flag_of(data@.date_bias),
                now,
                spec_page_of(data@.page),
                data@.query,
                r,
            ),
    {
        let mode = mode_of(&data.search_type);
        let page = match data.page {
            Some(p) => p,
            None => 1,
        };
        let date_bias = match data.date_bias {
            Some(b) => b,
            None => false,
        };
        let scored = base_scored(self, cands, mode, data.weights);
        let kept = filter_candidates(
            self,
            &scored,
            &data.link,
            &data.tag_set,
            time_range,
            &data.filters,
        );
        let biased = bias_candidates(self, &kept, date_bias, now);
        let sorted = sort_by_score_desc(&biased);
        proof {
            lemma_sorted_members(self@, biased@, sorted@);
        }
        let page_items = paginate(&sorted, page);
        let total = match mode {
            SearchMode::Semantic => cands.semantic_total,
            SearchMode::Fulltext => cands.fulltext_total,
            SearchMode::Hybrid => if cands.semantic_total >= cands.fulltext_total {
                cands.semantic_total
            } else {
                cands.fulltext_total
            },
        };
        let pages = total_pages(total);
        let ghost ranked = spec_search_ranked(
            self@,
            cands@,
            mode,
            data@.weights,
            spec_filters_of(data@, time_range),
            date_bias,
            now,
            page,
        );
        let mut score_chunks: Vec<ScoreChunkDTO> = Vec::new();
        let mut i: usize = 0;
        while i < page_items.len()
            invariant
                0 <= i <= page_items@.len(),
                page_items@ == ranked,
                score_chunks@.len() == i,
                forall|m: int|
                    0 <= m < i ==> (#[trigger] score_chunks@[m]).score == ranked[m].score
                        && score_chunks@[m].metadata@.len() == 1 && score_chunks@[m].metadata@[0]@
                        == spec_hydrated(self@, ranked[m].id, data@.query),
            decreases page_items@.len() - i,
        {
            let r = page_items[i];
            let ix = match self.position_by_id(r.id) {
                Some(ix) => ix,
                None => {
                    proof {
                        assert(false);
                    }
                    0
                },
            };
            proof {
                self.lemma_index_of(ix as int);
            }
            let mut chunk = self.chunks[ix].clone();
            let highlighted = crate::text::highlight_matches(
                chunk.content.as_str(),
                data.query.as_str(),
            );
            chunk.chunk_html = Some(highlighted);
            let mut metadata: Vec<ChunkMetadata> = Vec::new();
            metadata.push(chunk);
            score_chunks.push(ScoreChunkDTO { metadata, score: r.score });
            i = i + 1;
        }
        SearchChunkQueryResponseBody { score_chunks, total_chunk_pages: pages }
    }
}

/// A search request scoped to one collection: results are only chunks
/// bookmarked there. Collection search always lets the re-ranker handle
/// hybrid fusion and applies no time range.
pub struct SearchCollectionsData {
    pub query: String,
    pub page: Option<u64>,
    pub link: Option<Vec<String>>,
    pub tag_set: Option<Vec<String>>,
    pub filters: Vec<MetadataEntry>,
    pub collection_id: crate::ids::CollectionId,
    pub search_type: String,
    pub date_bias: Option<bool>,
}

/// Spec-level view of a [`SearchCollectionsData`].
#[verifier::ext_equal]
pub struct CollectionsSearchView {
    pub query: Seq<char>,
    pub page: Option<u64>,
    pub link: Option<Seq<Seq<char>>>,
    pub tag_set: Option<Seq<Seq<char>>>,
    pub filters: Seq<EntryView>,
    pub collection_id: crate::ids::CollectionId,
    pub search_type: Seq<char>,
    pub date_bias: Option<bool>,
}

impl View for SearchCollectionsData {
    type V = CollectionsSearchView;

    open spec fn view(&self) -> CollectionsSearchView {
        CollectionsSearchView {
            query: self.query@,
            page: self.page,
            link: crate::model::opt_strs_view(self.link),
            tag_set: crate::model::opt_strs_view(self.tag_set),
            filters: entries_view(self.filters@),
            collection_id: self.collection_id,
            search_type: self.search_type@,
            date_bias: self.date_bias,
        }
    }
}

impl Clone for SearchCollectionsData {
    /// A clone carries the same view.
    fn clone(&self) -> (r: Self)
        ensures
            r@ == self@,
    {
        SearchCollectionsData {
            query: self.query.clone(),
            page: self.page,
            link: crate::model::clone_opt_strings(&self.link),
            tag_set: crate::model::clone_opt_strings(&self.tag_set),
            filters: crate::model::clone_entries(&self.filters),
            collection_id: self.collection_id,
            search_type: self.search_type.clone(),
            date_bias: self.date_bias,
        }
    }
}

impl From<SearchCollectionsData> for SearchChunkData {
    /// A collection search request as a plain search request: no time
    /// range, no explicit weights, the re-ranker left to its default.
    fn from(data: SearchCollectionsData) -> (r: Self) {
        SearchChunkData {
            query: data.query,
            page: data.page,
            link: data.link,
            tag_set: data.tag_set,
            time_range: None,
            filters: data.filters,
            cross_encoder: None,
            weights: None,
            search_type: data.search_type,
            date_bias: data.date_bias,
        }
    }
}

impl vstd::std_specs::convert::FromSpecImpl<SearchCollectionsData> for SearchChunkData {
    open spec fn obeys_from_spec() -> bool {
        true
    }

    open spec fn from_spec(data: SearchCollectionsData) -> Self {
        SearchChunkData {
            query: data.query,
            page: data.page,
            link: data.link,
            tag_set: data.tag_set,
            time_range: None,
            filters: data.filters,
            cross_encoder: None,
            weights: None,
            search_type: data.search_type,
            date_bias: data.date_bias,
        }
    }
}

/// Search results scoped to a collection, with the collection itself.
#[derive(Debug)]
pub struct SearchCollectionsResult {
    pub bookmarks: Vec<ScoreChunkDTO>,
    pub collection: crate::model::ChunkCollection,
    pub total_pages: i64,
}

/// The filters a collection search applies: as the request says, with no
/// time range.
pub open spec fn spec_filters_of_collections(d: CollectionsSearchView) -> FiltersView {
    FiltersView { link: d.link, tag_set: d.tag_set, time_range: None, metadata: d.filters }
}

/// The chunk is bookmarked in the collection.
pub open spec fn spec_bookmarked(
    s: DatasetView,
    cid: crate::ids::CollectionId,
    chunk: ChunkId,
) -> bool {
    exists|i: int|
        0 <= i < s.bookmarks.len() && (#[trigger] s.bookmarks[i]).collection_id == cid
            && s.bookmarks[i].chunk_id == chunk
}

/// The results whose chunk is bookmarked in the collection, in order.
pub open spec fn spec_member_results(
    s: DatasetView,
    l: Seq<ScoreChunkDTO>,
    cid: crate::ids::CollectionId,
) -> Seq<ScoreChunkDTO>
    decreases l.len(),
{
    if l.len() == 0 {
        Seq::empty()
    } else {
        let keep = l[0].metadata@.len() >= 1 && spec_bookmarked(s, cid, l[0].metadata@[0].id);
        (if keep {
            seq![l[0]]
        } else {
            Seq::<ScoreChunkDTO>::empty()
        }) + spec_member_results(s, l.skip(1), cid)
    }
}

impl DatasetState {
    /// Whether the chunk is bookmarked in the collection.
    fn is_bookmarked(&self, cid: crate::ids::CollectionId, chunk: ChunkId) -> (r: bool)
        ensures
            r == spec_bookmarked(self@, cid, chunk),
    {
        let mut i: usize = 0;
        while i < self.bookmarks.len()
            invariant
                0 <= i <= self@.bookmarks.len(),
                forall|k: int|
                    0 <= k < i ==> !((#[trigger] self@.bookmarks[k]).collection_id == cid
                        && self@.bookmarks[k].chunk_id == chunk),
            decreases self@.bookmarks.len() - i,
        {
            if self.bookmarks[i].collection_id == cid && self.bookmarks[i].chunk_id == chunk {
                return true;
            }
            i = i + 1;
        }
        false
    }

    /// Keeps the results whose chunk is bookmarked in the collection:
    /// exactly [`spec_member_results`].
    #[verifier::loop_isolation(false)]
    fn member_results(&self, dtos: Vec<ScoreChunkDTO>, cid: crate::ids::CollectionId) -> (out: Vec<
        ScoreChunkDTO,
    >)
        ensures
            out@ == spec_member_results(self@, dtos@, cid),
    {
        let ghost whole = dtos@;
        let mut rest = dtos;
        let mut out: Vec<ScoreChunkDTO> = Vec::new();
        proof {
            assert(out@ =~= Seq::<ScoreChunkDTO>::empty());
        }
        while rest.len() > 0
            invariant
                spec_member_results(self@, whole, cid) =~= out@ + spec_member_results(
                    self@,
                    rest@,
                    cid,
                ),
            decreases rest@.len(),
        {
            let ghost pre = rest@;
            let d = rest.remove(0);
            proof {
                assert(rest@ =~= pre.skip(1));
                assert(d == pre[0]);
            }
            let keep = d.metadata.len() >= 1 && self.is_bookmarked(cid, d.metadata[0].id);
            let ghost old_out = out@;
            if keep {
                out.push(d);
                proof {
                    assert(out@ =~= old_out + seq![pre[0]]);
                    assert((old_out + seq![pre[0]]) + spec_member_results(self@, pre.skip(1), cid)
                        =~= old_out + (seq![pre[0]] + spec_member_results(self@, pre.skip(1), cid)));
                }
            } else {
                proof {
                    assert(Seq::<ScoreChunkDTO>::empty() + spec_member_results(
                        self@,
                        pre.skip(1),
                        cid,
                    ) =~= spec_member_results(self@, pre.skip(1), cid));
                }
            }
        }
        proof {
            assert(rest@ =~= Seq::<ScoreChunkDTO>::empty());
            assert(out@ + Seq::<ScoreChunkDTO>::empty() =~= out@);
        }
        out
    }
}

impl DatasetState {
    /// Search the dataset. The time-range bounds, if given, go through the
    /// outside datetime parser; a bound it rejects is a validation fault.
    /// With the range resolved, the response is exactly what
    /// [`search_outcome_matches`] pins down: the deterministic ordered
    /// page and the page count the index total implies.
    pub fn search_chunk(
        &self,
        data: &SearchChunkData,
        cands: &SearchCandidates,
        now: i64,
    ) -> (r: Result<SearchChunkQueryResponseBody, Fault>)
        requires
            self@.wf(),
        ensures
            data@.time_range is None ==> (r matches Ok(resp) && search_outcome_matches(
                self@,
                cands@,
                spec_mode_of(data@.search_type),
                data@.weights,
                spec_filters_of(data@, None),
                spec_flag_of(data@.date_bias),
                now,
                spec_page_of(data@.page),
                data@.query,
                resp,
            )),
            data@.time_range is Some ==> match r {
                Ok(resp) => exists|lo: i64, hi: i64|
                    search_outcome_matches(
                        self@,
                        cands@,
                        spec_mode_of(data@.search_type),
                        data@.weights,
                        spec_filters_of(data@, Some((lo, hi))),
                        spec_flag_of(data@.date_bias),
                        now,
                        spec_page_of(data@.page),
                        data@.query,
                        resp,
                    ),
                Err(f) => f == Fault::Validation,
            },
    {
        let time_range = match &data.time_range {
            Some((a, b)) => {
                let lo = match crate::time::parse_timestamp(a.as_str()) {
                    Ok(v) => v,
                    Err(f) => {
                        return Err(f);
                    },
                };
                let hi = match crate::time::parse_timestamp(b.as_str()) {
                    Ok(v) => v,
                    Err(f) => {
                        return Err(f);
                    },
                };
                Some((lo, hi))
            },
            None => None,
        };
        let resp = self.search_chunk_resolved(data, time_range, cands, now);
        proof {
            if data@.time_range is Some {
                let pair = time_range->0;
                let lo = pair.0;
                let hi = pair.1;
                assert(search_outcome_matches(
                    self@,
                    cands@,
                    spec_mode_of(data@.search_type),
                    data@.weights,
                    spec_filters_of(data@, Some((lo, hi))),
                    spec_flag_of(data@.date_bias),
                    now,
                    spec_page_of(data@.page),
                    data@.query,
                    resp,
                ));
            }
        }
        Ok(resp)
    }

    /// Search within one collection: as [`Self::search_chunk`] with the
    /// resolved time range, then only results bookmarked in the collection
    /// are kept, in order. A missing collection is a [`Fault::NotFound`].
    pub fn search_collections(
        &self,
        data: &SearchCollectionsData,
        cands: &SearchCandidates,
        now: i64,
    ) -> (r: Result<SearchCollectionsResult, Fault>)
        requires
            self@.wf(),
        ensures
            match r {
                Ok(res) => {
                    &&& self@.has_collection(data.collection_id)
                    &&& res.collection@.id == data.collection_id
                    &&& exists|j: int|
                        0 <= j < self@.collections.len() && res.collection@ == self@.collections[j]
                    &&& exists|resp: SearchChunkQueryResponseBody|
                        search_outcome_matches(
                            self@,
                            cands@,
                            spec_mode_of(data@.search_type),
                            None,
                            spec_filters_of_collections(data@),
                            spec_flag_of(data@.date_bias),
                            now,
                            spec_page_of(data@.page),
                            data@.query,
                            resp,
                        ) && res.total_pages == resp.total_chunk_pages
                            && res.bookmarks@ == spec_member_results(
                            self@,
                            resp.score_chunks@,
                            data.collection_id,
                        )
                },
                Err(f) => f == Fault::NotFound && !self@.has_collection(data.collection_id),
            },
    {
        let ci = match self.position_of_collection(data.collection_id) {
            Some(ci) => ci,
            None => {
                return Err(Fault::NotFound);
            },
        };
        let search_data = SearchChunkData::from(data.clone());
        let resp = self.search_chunk_resolved(&search_data, None, cands, now);
        proof {
            assert(search_outcome_matches(
                self@,
                cands@,
                spec_mode_of(data@.search_type),
                None,
                spec_filters_of_collections(data@),
                spec_flag_of(data@.date_bias),
                now,
                spec_page_of(data@.page),
                data@.query,
                resp,
            ));
        }
        let bookmarks = self.member_results(resp.score_chunks, data.collection_id);
        let collection = self.collections[ci].clone();
        proof {
            assert(collection@ == self@.collections[ci as int]);
        }
        Ok(
            SearchCollectionsResult {
                bookmarks,
                collection,
                total_pages: resp.total_chunk_pages,
            },
        )
    }
}

/// Everything the sorted list ranks exists in the dataset, as everything
/// before the sort did.
proof fn lemma_sorted_members(s: DatasetView, before: Seq<RankedId>, after: Seq<RankedId>)
    requires
        forall|i: int| 0 <= i < before.len() ==> s.has_chunk((#[trigger] before[i]).id),
        after.to_multiset() == before.to_multiset(),
    ensures
        forall|i: int| 0 <= i < after.len() ==> s.has_chunk((#[trigger] after[i]).id),
{
    broadcast use vstd::seq_lib::group_to_multiset_ensures;

    assert forall|i: int| 0 <= i < after.len() implies s.has_chunk((#[trigger] after[i]).id) by {
        assert(after.contains(after[i]));
        assert(after.to_multiset().count(after[i]) > 0);
        assert(before.to_multiset().count(after[i]) > 0);
        assert(before.contains(after[i]));
        let j = choose|j: int| 0 <= j < before.len() && before[j] == after[i];
        assert(s.has_chunk(before[j].id));
    }
}

/// Law: a duplicate is found through its group's root. A semantic
/// candidate naming an owned vector point — in particular the shared point
/// of a duplicate group, which is what a query matching the group's
/// content hits — resolves to the root chunk that owns it.
pub proof fn lemma_shared_point_resolves_to_root(s: DatasetView, p: PointId, sc: u32)
    requires
        s.owns_point(p),
    ensures
        spec_resolve_semantic(s, seq![PointScore { point: p, score: sc }]) == seq![
            ChunkScore { chunk: s.root_of(p).id, score: sc },
        ],
{
    let probe = seq![PointScore { point: p, score: sc }];
    assert(probe.skip(1) =~= Seq::<PointScore>::empty());
    assert(spec_resolve_semantic(s, Seq::<PointScore>::empty()) =~= Seq::<ChunkScore>::empty());
    assert(probe[0] == PointScore { point: p, score: sc });
    assert(spec_resolve_semantic(s, probe) =~= seq![
        ChunkScore { chunk: s.root_of(p).id, score: sc },
    ]);
}

/// Law: a search response shorts no page but the last. When the requested
/// page lies strictly before the last page the announced total implies,
/// and the candidates that survive resolution, filtering and bias still
/// cover that page — which a correct index yields, having been asked for a
/// page's worth of matching candidates per requested page — the response
/// carries exactly `PAGE_SIZE` results.
pub proof fn lemma_search_page_full(
    s: DatasetView,
    cands: CandidatesView,
    mode: SearchMode,
    weights: Option<(u64, u64)>,
    f: FiltersView,
    date_bias: bool,
    now: i64,
    page: u64,
    q: Seq<char>,
    resp: SearchChunkQueryResponseBody,
)
    requires
        search_outcome_matches(s, cands, mode, weights, f, date_bias, now, page, q, resp),
        1 <= page,
        page < spec_total_pages(spec_search_total(cands, mode) as int),
        spec_bias(s, spec_filter_kept(s, spec_base_scored(s, cands, mode, weights), f), date_bias, now).len()
            >= page * (crate::ranking::PAGE_SIZE as int),
    ensures
        resp.score_chunks@.len() == crate::ranking::PAGE_SIZE,
{
    let biased = spec_bias(
        s,
        spec_filter_kept(s, spec_base_scored(s, cands, mode, weights), f),
        date_bias,
        now,
    );
    crate::ranking::lemma_sort_desc_props(biased);
    crate::ranking::lemma_earlier_pages_full(
        spec_sort_desc(biased),
        spec_search_total(cands, mode) as int,
        page as int,
    );
}

/// Law: search is deterministic. The ordered page and every score are a
/// function of the dataset, the request and the index answers alone, so
/// identical inputs — in particular hybrid mode with explicit weights —
/// give identical ordering and scores on every call.
pub proof fn lemma_search_deterministic(
    s1: DatasetView,
    cands1: CandidatesView,
    mode1: SearchMode,
    weights1: Option<(u64, u64)>,
    f1: FiltersView,
    date_bias1: bool,
    now1: i64,
    page1: u64,
    s2: DatasetView,
    cands2: CandidatesView,
    mode2: SearchMode,
    weights2: Option<(u64, u64)>,
    f2: FiltersView,
    date_bias2: bool,
    now2: i64,
    page2: u64,
)
    requires
        s1 == s2,
        cands1 == cands2,
        mode1 == mode2,
        weights1 == weights2,
        f1 == f2,
        date_bias1 == date_bias2,
        now1 == now2,
        page1 == page2,
    ensures
        spec_search_ranked(s1, cands1, mode1, weights1, f1, date_bias1, now1, page1)
            == spec_search_ranked(s2, cands2, mode2, weights2, f2, date_bias2, now2, page2),
{
}

} // verus!
