//! Recommendations: the vector index's neighbours to a positive example
//! set come back as point ids; resolving them to chunks, detecting the
//! consistency fault, and excluding the positive examples themselves is
//! decided and verified here.

use vstd::prelude::*;

use crate::dataset::{chunks_view, DatasetState, DatasetView};
use crate::faults::Fault;
use crate::ids::{ChunkId, PointId};
use crate::model::{ChunkMetadata, ChunkView};

verus! {

/// A request for chunks similar to these positive examples.
pub struct RecommendChunksRequest {
    /// The chunks to find similar chunks to.
    pub positive_chunk_ids: Vec<ChunkId>,
}

/// Recommended points resolved to chunks: each point some root owns
/// becomes that root's chunk; an orphan point is dropped.
pub open spec fn spec_resolve_points(s: DatasetView, pts: Seq<PointId>) -> Seq<ChunkView>
    decreases pts.len(),
{
    if pts.len() == 0 {
        Seq::empty()
    } else {
        let rest = spec_resolve_points(s, pts.skip(1));
        if s.owns_point(pts[0]) {
            seq![s.root_of(pts[0])] + rest
        } else {
            rest
        }
    }
}

/// The chunks whose id is not among the positive examples, in order.
pub open spec fn spec_exclude(l: Seq<ChunkView>, positive: Seq<ChunkId>) -> Seq<ChunkView>
    decreases l.len(),
{
    if l.len() == 0 {
        Seq::empty()
    } else {
        let rest = spec_exclude(l.skip(1), positive);
        if positive.contains(l[0].id) {
            rest
        } else {
            seq![l[0]] + rest
        }
    }
}

/// The recommendation decision: resolve the returned points, fail
/// retryably when points came back but none resolves to a row (the same
/// consistency-fault class as ingest), and exclude the positive set from
/// the rest.
pub open spec fn spec_recommend(
    s: DatasetView,
    positive: Seq<ChunkId>,
    pts: Seq<PointId>,
) -> Result<Seq<ChunkView>, Fault> {
    let resolved = spec_resolve_points(s, pts);
    if pts.len() > 0 && resolved.len() == 0 {
        Err(Fault::Consistency)
    } else {
        Ok(spec_exclude(resolved, positive))
    }
}

/// Law: a recommendation never returns a positive example. Whatever the
/// index answered, every chunk of a successful outcome has an id outside
/// the positive set — for every positive set, the non-empty ones included.
pub proof fn lemma_recommend_excludes_positives(
    s: DatasetView,
    positive: Seq<ChunkId>,
    pts: Seq<PointId>,
)
    ensures
        match spec_recommend(s, positive, pts) {
            Ok(out) => forall|i: int| 0 <= i < out.len() ==> !positive.contains(
                (#[trigger] out[i]).id,
            ),
            Err(_) => true,
        },
{
    lemma_exclude_excludes(spec_resolve_points(s, pts), positive);
}

/// Exclusion excludes: nothing that comes out of [`spec_exclude`] carries
/// a positive id.
proof fn lemma_exclude_excludes(l: Seq<ChunkView>, positive: Seq<ChunkId>)
    ensures
        forall|i: int|
            0 <= i < spec_exclude(l, positive).len() ==> !positive.contains(
                (#[trigger] spec_exclude(l, positive)[i]).id,
            ),
    decreases l.len(),
{
    if l.len() == 0 {
    } else {
        lemma_exclude_excludes(l.skip(1), positive);
        let out = spec_exclude(l, positive);
        let rest = spec_exclude(l.skip(1), positive);
        if !positive.contains(l[0].id) {
            assert(forall|i: int| 1 <= i < out.len() ==> out[i] == rest[i - 1]);
        }
    }
}

impl DatasetState {
    /// Whether an id is among the positive examples.
    fn id_in(v: &Vec<ChunkId>, id: ChunkId) -> (r: bool)
        ensures
            r == v@.contains(id),
    {
        let mut i: usize = 0;
        while i < v.len()
            invariant
                0 <= i <= v@.len(),
                forall|k: int| 0 <= k < i ==> v@[k] != id,
            decreases v@.len() - i,
        {
            if v[i] == id {
                return true;
            }
            i = i + 1;
        }
        false
    }

    /// Recommended chunks for the request, given the neighbour points the
    /// vector index answered: exactly [`spec_recommend`].
    pub fn get_recommended_chunks(
        &self,
        data: &RecommendChunksRequest,
        recommended_points: &Vec<PointId>,
    ) -> (r: Result<Vec<ChunkMetadata>, Fault>)
        requires
            self@.wf(),
        ensures
            match (r, spec_recommend(self@, data.positive_chunk_ids@, recommended_points@)) {
                (Ok(v), Ok(sv)) => chunks_view(v@) == sv,
                (Err(f1), Err(f2)) => f1 == f2,
                _ => false,
            },
    {
        let mut resolved: Vec<ChunkMetadata> = Vec::new();
        let mut i: usize = 0;
        proof {
            assert(recommended_points@.skip(0) =~= recommended_points@);
            assert(chunks_view(resolved@) =~= Seq::<ChunkView>::empty());
        }
        while i < recommended_points.len()
            invariant
                0 <= i <= recommended_points@.len(),
                self@.wf(),
                spec_resolve_points(self@, recommended_points@) =~= chunks_view(resolved@)
                    + spec_resolve_points(self@, recommended_points@.skip(i as int)),
            decreases recommended_points@.len() - i,
        {
            let ghost pre = recommended_points@.skip(i as int);
            assert(pre[0] == recommended_points@[i as int]);
            let p = recommended_points[i];
            let ghost old_res = chunks_view(resolved@);
            match self.position_by_point(p) {
                Some(ix) => {
                    proof {
                        self.lemma_root_index_of(ix as int);
                    }
                    resolved.push(self.chunks[ix].clone());
                    proof {
                        assert(chunks_view(resolved@) =~= old_res + seq![self@.root_of(p)]);
                        assert((old_res + seq![self@.root_of(p)]) + spec_resolve_points(
                            self@,
                            pre.skip(1),
                        ) =~= old_res + (seq![self@.root_of(p)] + spec_resolve_points(
                            self@,
                            pre.skip(1),
                        )));
                    }
                },
                None => {},
            }
            i = i + 1;
            proof {
                assert(pre.skip(1) =~= recommended_points@.skip(i as int));
            }
        }
        proof {
            assert(recommended_points@.skip(i as int) =~= Seq::<PointId>::empty());
            assert(chunks_view(resolved@) + Seq::<ChunkView>::empty() =~= chunks_view(resolved@));
        }
        if recommended_points.len() > 0 && resolved.len() == 0 {
            return Err(Fault::Consistency);
        }
        let ghost all = chunks_view(resolved@);
        let mut out: Vec<ChunkMetadata> = Vec::new();
        let mut rest = resolved;
        proof {
            assert(chunks_view(out@) =~= Seq::<ChunkView>::empty());
        }
        while rest.len() > 0
            invariant
                self@.wf(),
                spec_exclude(all, data.positive_chunk_ids@) =~= chunks_view(out@) + spec_exclude(
                    chunks_view(rest@),
                    data.positive_chunk_ids@,
                ),
            decreases rest@.len(),
        {
            let ghost pre = chunks_view(rest@);
            let c = rest.remove(0);
            proof {
                assert(chunks_view(rest@) =~= pre.skip(1));
                assert(c@ == pre[0]);
            }
            let ghost old_out = chunks_view(out@);
            if !Self::id_in(&data.positive_chunk_ids, c.id) {
                out.push(c);
                proof {
                    assert(chunks_view(out@) =~= old_out + seq![pre[0]]);
                    assert((old_out + seq![pre[0]]) + spec_exclude(
                        pre.skip(1),
                        data.positive_chunk_ids@,
                    ) =~= old_out + (seq![pre[0]] + spec_exclude(
                        pre.skip(1),
                        data.positive_chunk_ids@,
                    )));
                }
            } else {
                proof {
                    assert(Seq::<ChunkView>::empty() + spec_exclude(
                        pre.skip(1),
                        data.positive_chunk_ids@,
                    ) =~= spec_exclude(pre.skip(1), data.positive_chunk_ids@));
                }
            }
        }
        proof {
            assert(chunks_view(rest@) =~= Seq::<ChunkView>::empty());
            assert(chunks_view(out@) + Seq::<ChunkView>::empty() =~= chunks_view(out@));
        }
        Ok(out)
    }
}

} // verus!
